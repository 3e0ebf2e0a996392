use amity_fx::asset_pos::{AssetPos, SelectAssetError};
use amity_fx::assets::Assets;
use amity_fx::error::IndexError;

#[test]
fn push_appends_in_order() {
    let mut a = Assets::new();
    assert!(a.is_empty());
    *a.push("one").unwrap() = "uno";
    a.push("two").unwrap();
    a.push("three").unwrap();
    assert_eq!(a.len(), 3);
    assert_eq!(a.as_slice(), &["uno", "two", "three"]);
    assert_eq!(a.into_vec(), vec!["uno", "two", "three"]);
}

#[test]
fn get_by_position() {
    let mut a = Assets::from_vec(vec![10, 20]);
    assert_eq!(*a.get(AssetPos::Index(1)).unwrap(), 20);
    assert_eq!(
        a.get(AssetPos::Index(2)).err(),
        Some(SelectAssetError::IndexOutOfBounds(IndexError::Value(2)))
    );
    *a.get_mut(AssetPos::Index(0)).unwrap() = 11;
    assert_eq!(a.as_slice(), &[11, 20]);
    assert_eq!(
        a.get_mut(AssetPos::Index(9)).err(),
        Some(SelectAssetError::IndexOutOfBounds(IndexError::Value(9)))
    );
}

#[test]
fn find_position_gives_first_match() {
    let a = Assets::from_vec(vec![3, 8, 5, 8]);
    assert_eq!(a.find_position(|x: &i32| *x == 8), Some(AssetPos::Index(1)));
    assert_eq!(a.find_position(|x: &i32| *x > 4), Some(AssetPos::Index(1)));
    assert_eq!(a.find_position(|x: &i32| *x == 0), None);
    let empty: Assets<i32> = Assets::new();
    assert_eq!(empty.find_position(|_: &i32| true), None);
}

#[test]
fn push_many_keeps_every_item() {
    let mut a = Assets::new();
    for i in 0..100 {
        a.push(i).unwrap();
    }
    assert_eq!(a.len(), 100);
    assert_eq!(*a.get(AssetPos::Index(57)).unwrap(), 57);
}
