use amity_fx::asset_pos::{AssetPos, ParseAssetPosError, SelectAssetError};
use amity_fx::error::IndexError;
use amity_fx::layer_pos::{InsertLayerError, LayerPos, ParseLayerPosError, SelectLayerError};

fn sel(e: IndexError) -> SelectLayerError {
    SelectLayerError::IndexOutOfBounds(e)
}

fn ins(e: IndexError) -> InsertLayerError {
    InsertLayerError::IndexOutOfBounds(e)
}

#[test]
fn parse_keywords() {
    for s in ["*", "h", "here"] {
        assert_eq!(LayerPos::parse(s).unwrap(), LayerPos::Current);
    }
    for s in ["k", "]", "n", "next"] {
        assert_eq!(LayerPos::parse(s).unwrap(), LayerPos::Next);
    }
    for s in ["j", "[", "p", "prev"] {
        assert_eq!(LayerPos::parse(s).unwrap(), LayerPos::Prev);
    }
    for s in ["]]", "f", "front"] {
        assert_eq!(LayerPos::parse(s).unwrap(), LayerPos::Front);
    }
    for s in ["[[", "b", "back"] {
        assert_eq!(LayerPos::parse(s).unwrap(), LayerPos::Back);
    }
}

#[test]
fn parse_numbers() {
    assert_eq!(LayerPos::parse("12").unwrap(), LayerPos::Index(12));
    assert_eq!(LayerPos::parse("0").unwrap(), LayerPos::Index(0));
    assert_eq!(LayerPos::parse("+3").unwrap(), LayerPos::Offset(3));
    assert_eq!(LayerPos::parse("-2").unwrap(), LayerPos::Offset(-2));
    assert_eq!("7".parse::<LayerPos>().unwrap(), LayerPos::Index(7));
}

#[test]
fn parse_errors() {
    match LayerPos::parse("x") {
        Err(ParseLayerPosError::Unknown(s)) => assert_eq!(s, "x"),
        other => panic!("unexpected {other:?}"),
    }
    match LayerPos::parse("") {
        Err(ParseLayerPosError::Unknown(s)) => assert_eq!(s, ""),
        other => panic!("unexpected {other:?}"),
    }
    assert!(matches!(LayerPos::parse("+"), Err(ParseLayerPosError::OffsetInt(_))));
    assert!(matches!(LayerPos::parse("-x"), Err(ParseLayerPosError::OffsetInt(_))));
    assert!(matches!(
        LayerPos::parse("99999999999999999999999"),
        Err(ParseLayerPosError::IndexInt(_))
    ));
    assert!(matches!(LayerPos::parse("1a"), Err(ParseLayerPosError::IndexInt(_))));
    assert!(matches!(LayerPos::parse(" 1"), Err(ParseLayerPosError::Unknown(_))));
}

#[test]
fn layer_pos_from_numbers() {
    assert_eq!(LayerPos::from(4usize), LayerPos::Index(4));
    assert_eq!(LayerPos::from(-4isize), LayerPos::Offset(-4));
    assert_eq!(LayerPos::default(), LayerPos::Current);
}

#[test]
fn insert_idx_each_variant() {
    // three layers, the middle one active
    assert_eq!(LayerPos::Current.insert_layer_idx(1, 3), Ok(1));
    assert_eq!(LayerPos::Next.insert_layer_idx(1, 3), Ok(2));
    assert_eq!(LayerPos::Prev.insert_layer_idx(1, 3), Ok(0));
    assert_eq!(LayerPos::Front.insert_layer_idx(1, 3), Ok(3));
    assert_eq!(LayerPos::Front.insert_layer_idx(2, 3), Ok(3));
    assert_eq!(LayerPos::Next.insert_layer_idx(2, 3), Ok(3));
    assert_eq!(LayerPos::Back.insert_layer_idx(1, 3), Ok(0));
    assert_eq!(LayerPos::Index(3).insert_layer_idx(1, 3), Ok(3));
    assert_eq!(LayerPos::Offset(2).insert_layer_idx(1, 3), Ok(3));
    assert_eq!(LayerPos::Offset(-1).insert_layer_idx(1, 3), Ok(0));
}

#[test]
fn insert_idx_empty_stack() {
    assert_eq!(LayerPos::Current.insert_layer_idx(0, 0), Ok(0));
    assert_eq!(LayerPos::Next.insert_layer_idx(0, 0), Ok(0));
    assert_eq!(LayerPos::Prev.insert_layer_idx(0, 0), Ok(0));
    assert_eq!(LayerPos::Front.insert_layer_idx(0, 0), Ok(0));
    assert_eq!(LayerPos::Back.insert_layer_idx(0, 0), Ok(0));
    assert_eq!(LayerPos::Index(0).insert_layer_idx(0, 0), Ok(0));
}

#[test]
fn insert_idx_errors() {
    assert_eq!(
        LayerPos::Index(5).insert_layer_idx(1, 3),
        Err(ins(IndexError::Value(5)))
    );
    assert_eq!(
        LayerPos::Offset(3).insert_layer_idx(1, 3),
        Err(ins(IndexError::Value(4)))
    );
    assert_eq!(
        LayerPos::Offset(-2).insert_layer_idx(1, 3),
        Err(ins(IndexError::Overflow))
    );
    assert_eq!(
        LayerPos::Next.insert_layer_idx(0, usize::MAX),
        Err(InsertLayerError::TooManyLayers)
    );
}

#[test]
fn select_idx_each_variant() {
    assert_eq!(LayerPos::Current.select_layer_idx(1, 3), Ok(1));
    assert_eq!(LayerPos::Next.select_layer_idx(1, 3), Ok(2));
    assert_eq!(LayerPos::Prev.select_layer_idx(1, 3), Ok(0));
    assert_eq!(LayerPos::Front.select_layer_idx(1, 3), Ok(2));
    assert_eq!(LayerPos::Back.select_layer_idx(1, 3), Ok(0));
    assert_eq!(LayerPos::Index(2).select_layer_idx(1, 3), Ok(2));
    assert_eq!(LayerPos::Offset(1).select_layer_idx(1, 3), Ok(2));
    assert_eq!(LayerPos::Offset(-1).select_layer_idx(1, 3), Ok(0));
}

#[test]
fn select_idx_errors() {
    assert_eq!(
        LayerPos::Current.select_layer_idx(0, 0),
        Err(sel(IndexError::Value(0)))
    );
    assert_eq!(LayerPos::Next.select_layer_idx(0, 0), Err(sel(IndexError::Value(1))));
    assert_eq!(LayerPos::Next.select_layer_idx(2, 3), Err(sel(IndexError::Value(3))));
    assert_eq!(LayerPos::Prev.select_layer_idx(0, 3), Err(sel(IndexError::Overflow)));
    assert_eq!(LayerPos::Front.select_layer_idx(0, 0), Err(sel(IndexError::Overflow)));
    assert_eq!(LayerPos::Back.select_layer_idx(0, 0), Err(sel(IndexError::Value(0))));
    assert_eq!(LayerPos::Index(3).select_layer_idx(1, 3), Err(sel(IndexError::Value(3))));
    assert_eq!(LayerPos::Offset(2).select_layer_idx(1, 3), Err(sel(IndexError::Value(3))));
    assert_eq!(
        LayerPos::Offset(-2).select_layer_idx(1, 3),
        Err(sel(IndexError::Overflow))
    );
}

#[test]
fn selectable_is_insertable_example() {
    for at in [
        LayerPos::Current,
        LayerPos::Next,
        LayerPos::Prev,
        LayerPos::Back,
        LayerPos::Index(1),
        LayerPos::Offset(1),
    ] {
        if let Ok(i) = at.select_layer_idx(1, 3) {
            assert_eq!(at.insert_layer_idx(1, 3), Ok(i));
        }
    }
}

#[test]
fn asset_pos_parse() {
    assert_eq!(AssetPos::parse("3").unwrap(), AssetPos::Index(3));
    assert_eq!("0".parse::<AssetPos>().unwrap(), AssetPos::Index(0));
    match AssetPos::parse("*") {
        Err(ParseAssetPosError::Unknown(s)) => assert_eq!(s, "*"),
        other => panic!("unexpected {other:?}"),
    }
    assert!(matches!(AssetPos::parse("4x"), Err(ParseAssetPosError::IndexInt(_))));
    assert!(matches!(AssetPos::parse("+4"), Err(ParseAssetPosError::Unknown(_))));
    assert_eq!(AssetPos::from(2usize), AssetPos::Index(2));
    assert_eq!(AssetPos::default(), AssetPos::Basic);
}

#[test]
fn asset_pos_select() {
    assert_eq!(AssetPos::Index(1).select_asset_idx(2), Ok(1));
    assert_eq!(
        AssetPos::Index(2).select_asset_idx(2),
        Err(SelectAssetError::IndexOutOfBounds(IndexError::Value(2)))
    );
}

#[test]
fn front_inserts_past_the_end() {
    for count in [0usize, 1, 5] {
        let curr = count.saturating_sub(1);
        assert_eq!(LayerPos::Front.insert_layer_idx(curr, count), Ok(count));
    }
    assert_eq!(LayerPos::Front.select_layer_idx(2, 3), Ok(2));
}
