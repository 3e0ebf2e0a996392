use amity_fx::asset_pos::{AssetPos, SelectAssetError};
use amity_fx::codec::{
    read_bytes, read_string, read_u32, read_u64, read_u8, read_usize, write_bytes, write_str,
    write_u32, write_u64, write_u8, write_usize, DeStringError, DeUsizeError, ReadError,
};
use amity_fx::document::{
    read_asset, read_asset_pos, read_assets, read_blending, read_content, read_document,
    read_effect_list, read_layer, read_layers, read_matrix, read_raster_src, read_shader_src,
    write_asset, write_asset_pos, write_assets, write_blending, write_document, write_layer,
    write_layers, write_matrix, Asset, AssetContent, BlendMode, Blending, Color, DeEnumError,
    DeLayerError, DeStrEnumError, Effect, Layer, LayerContent, RasterSrc, ReadDocumentError,
    ShaderSrc,
};
use amity_fx::error::IndexError;
use amity_fx::links::{check_links, layer_list_all_indexed, LinkCheckError};

fn identity() -> [u32; 16] {
    let one = 1.0f32.to_bits();
    [one, 0, 0, 0, 0, one, 0, 0, 0, 0, one, 0, 0, 0, 0, one]
}

fn blend() -> Blending {
    Blending {
        mode: BlendMode::Alpha,
        tint: Color { r: 255, g: 255, b: 255, a: 255 },
    }
}

fn layer(name: &str, content: LayerContent, effects: Vec<Effect>) -> Layer {
    Layer {
        name: name.to_string(),
        content,
        effects,
        blend: blend(),
        transform: identity(),
    }
}

fn raster(name: &str, path: &str) -> Asset {
    Asset {
        name: name.to_string(),
        data: AssetContent::Raster { src: RasterSrc::File(path.as_bytes().to_vec()) },
    }
}

fn shader(name: &str, vs: Option<&str>, fs: Option<&str>) -> Asset {
    Asset {
        name: name.to_string(),
        data: AssetContent::Shader {
            src: ShaderSrc {
                vs_path: vs.map(|p| p.as_bytes().to_vec()),
                fs_path: fs.map(|p| p.as_bytes().to_vec()),
            },
        },
    }
}

fn sample_assets() -> Vec<Asset> {
    vec![
        raster("cat", "/tmp/cat.png"),
        shader("blur", None, Some("blur.fs")),
        shader("both", Some("a.vs"), Some("a.fs")),
    ]
}

fn sample_layers() -> Vec<Layer> {
    let child = layer(
        "child",
        LayerContent::Asset { pos: AssetPos::Index(0) },
        vec![Effect { asset: AssetPos::Index(1) }],
    );
    let group = layer("group", LayerContent::Group { children: vec![child] }, vec![]);
    let art = layer("art", LayerContent::Unique { image: vec![137, 80, 78, 71] }, vec![
        Effect { asset: AssetPos::Index(2) },
        Effect { asset: AssetPos::Index(1) },
    ]);
    vec![art, group]
}

fn assert_same_asset(a: &Asset, b: &Asset) {
    assert_eq!(a.name, b.name);
    match (&a.data, &b.data) {
        (AssetContent::Raster { src: RasterSrc::File(x) }, AssetContent::Raster { src: RasterSrc::File(y) }) => {
            assert_eq!(x, y)
        }
        (AssetContent::Shader { src: x }, AssetContent::Shader { src: y }) => {
            assert_eq!(x.vs_path, y.vs_path);
            assert_eq!(x.fs_path, y.fs_path);
        }
        _ => panic!("asset kinds differ"),
    }
}

fn assert_same_layer(a: &Layer, b: &Layer) {
    assert_eq!(a.name, b.name);
    assert_eq!(a.effects, b.effects);
    assert_eq!(a.blend, b.blend);
    assert_eq!(a.transform, b.transform);
    match (&a.content, &b.content) {
        (LayerContent::Unique { image: x }, LayerContent::Unique { image: y }) => assert_eq!(x, y),
        (LayerContent::Asset { pos: x }, LayerContent::Asset { pos: y }) => assert_eq!(x, y),
        (LayerContent::Group { children: x }, LayerContent::Group { children: y }) => {
            assert_eq!(x.len(), y.len());
            for (p, q) in x.iter().zip(y.iter()) {
                assert_same_layer(p, q);
            }
        }
        _ => panic!("layer contents differ"),
    }
}

#[test]
fn integers_are_little_endian() {
    let mut v = Vec::new();
    write_u8(&mut v, 7);
    write_u32(&mut v, 0x0102_0304);
    write_u64(&mut v, 0x1122_3344_5566_7788);
    write_usize(&mut v, 5);
    assert_eq!(
        v,
        vec![
            7, 4, 3, 2, 1, 0x88, 0x77, 0x66, 0x55, 0x44, 0x33, 0x22, 0x11, 5, 0, 0, 0, 0, 0, 0, 0
        ]
    );
    assert_eq!(read_u8(&v, 0), Ok((7, 1)));
    assert_eq!(read_u32(&v, 1), Ok((0x0102_0304, 5)));
    assert_eq!(read_u64(&v, 5), Ok((0x1122_3344_5566_7788, 13)));
    assert!(matches!(read_usize(&v, 13), Ok((5, 21))));
}

#[test]
fn reading_past_the_end() {
    let v = vec![1, 2, 3];
    assert_eq!(read_u8(&v, 3), Err(ReadError::UnexpectedEof));
    assert_eq!(read_u32(&v, 0), Err(ReadError::UnexpectedEof));
    assert_eq!(read_u64(&v, 0), Err(ReadError::UnexpectedEof));
    assert!(matches!(read_usize(&v, 0), Err(DeUsizeError::Read(ReadError::UnexpectedEof))));
}

#[test]
fn bytes_and_text() {
    let mut v = Vec::new();
    write_bytes(&mut v, &[9, 8]);
    write_str(&mut v, "héllo");
    assert_eq!(&v[..10], &[2, 0, 0, 0, 0, 0, 0, 0, 9, 8]);
    let (b, p) = read_bytes(&v, 0).unwrap();
    assert_eq!(b, vec![9, 8]);
    assert_eq!(p, 10);
    let (s, q) = read_string(&v, p).unwrap();
    assert_eq!(s, "héllo");
    assert_eq!(q, v.len());
}

#[test]
fn truncated_bytes_and_bad_text() {
    let mut v = Vec::new();
    write_usize(&mut v, 4);
    v.extend_from_slice(&[1, 2, 3]);
    assert!(matches!(read_bytes(&v, 0), Err(DeUsizeError::Read(ReadError::UnexpectedEof))));
    let mut w = Vec::new();
    write_bytes(&mut w, &[0xff, 0xfe]);
    assert!(matches!(read_string(&w, 0), Err(DeStringError::Utf8(_))));
}

#[test]
fn asset_positions() {
    let mut v = Vec::new();
    write_asset_pos(&mut v, AssetPos::Basic);
    write_asset_pos(&mut v, AssetPos::Index(3));
    assert_eq!(v, vec![b'*', b'#', 3, 0, 0, 0, 0, 0, 0, 0]);
    assert!(matches!(read_asset_pos(&v, 0), Ok((AssetPos::Basic, 1))));
    assert!(matches!(read_asset_pos(&v, 1), Ok((AssetPos::Index(3), 10))));
    assert!(matches!(
        read_asset_pos(&[b'?'], 0),
        Err(DeUsizeError::Read(ReadError::Invalid))
    ));
}

#[test]
fn asset_round_trip_and_tags() {
    for a in sample_assets() {
        let mut v = Vec::new();
        write_asset(&mut v, &a);
        let (b, p) = read_asset(&v, 0).unwrap();
        assert_eq!(p, v.len());
        assert_same_asset(&a, &b);
    }
    assert!(matches!(read_raster_src(&[b'l'], 0), Err(DeEnumError::UnknownVariant(b'l'))));
    assert!(matches!(read_shader_src(&[4], 0), Err(DeEnumError::UnknownVariant(4))));
    let (s, p) = read_shader_src(&[0], 0).unwrap();
    assert_eq!((s.vs_path, s.fs_path, p), (None, None, 1));
    let mut v = Vec::new();
    write_str(&mut v, "x");
    v.push(b'q');
    assert!(matches!(read_asset(&v, 0), Err(DeStrEnumError::UnknownVariant(b'q'))));
}

#[test]
fn shader_flags_byte() {
    let mut v = Vec::new();
    write_asset(&mut v, &shader("s", Some("v"), None));
    // name "s": 8 + 1 bytes, then the shader tag, then the flags
    assert_eq!(v[9], b's');
    assert_eq!(v[10], 2);
}

#[test]
fn asset_list_round_trip() {
    let assets = sample_assets();
    let mut v = Vec::new();
    write_assets(&mut v, &assets);
    let (back, p) = read_assets(&v, 0).unwrap();
    assert_eq!(p, v.len());
    assert_eq!(back.len(), assets.len());
    for (a, b) in assets.iter().zip(back.iter()) {
        assert_same_asset(a, b);
    }
}

#[test]
fn blending_and_matrix() {
    let b = Blending {
        mode: BlendMode::SubtractColors,
        tint: Color { r: 1, g: 2, b: 3, a: 4 },
    };
    let mut v = Vec::new();
    write_blending(&mut v, b);
    assert_eq!(v, vec![4, 1, 2, 3, 4]);
    assert_eq!(read_blending(&v, 0), Ok((b, 5)));
    assert_eq!(read_blending(&[8, 0, 0, 0, 0], 0), Err(ReadError::UnknownVariant(8)));
    assert_eq!(read_blending(&[7, 0, 0], 0), Err(ReadError::UnexpectedEof));
    let mut m = Vec::new();
    write_matrix(&mut m, &identity());
    assert_eq!(m.len(), 64);
    assert_eq!(read_matrix(&m, 0), Ok((identity(), 64)));
    assert_eq!(read_matrix(&m[..63], 0), Err(ReadError::UnexpectedEof));
}

#[test]
fn layer_round_trip() {
    for l in sample_layers() {
        let mut v = Vec::new();
        write_layer(&mut v, &l);
        let (back, p) = read_layer(&v, 0).unwrap();
        assert_eq!(p, v.len());
        assert_same_layer(&l, &back);
    }
}

#[test]
fn layer_errors() {
    assert!(matches!(read_content(&[b'x'], 0), Err(DeLayerError::UnknownVariant(b'x'))));
    assert!(matches!(read_content(&[], 0), Err(DeLayerError::Read(ReadError::UnexpectedEof))));
    assert!(matches!(read_effect_list(&[1, 0, 0, 0, 0, 0, 0, 0, b'!'], 0), Err(DeUsizeError::Read(ReadError::Invalid))));
    let mut v = Vec::new();
    write_bytes(&mut v, &[0xc3]);
    assert!(matches!(read_layer(&v, 0), Err(DeLayerError::Utf8(_))));
}

#[test]
fn layer_stack_round_trip() {
    let layers = sample_layers();
    let mut v = Vec::new();
    write_layers(&mut v, &layers, 1);
    let ((back, curr), p) = read_layers(&v, 0).unwrap();
    assert_eq!(p, v.len());
    assert_eq!(curr, 1);
    assert_eq!(back.len(), 2);
    for (a, b) in layers.iter().zip(back.iter()) {
        assert_same_layer(a, b);
    }
}

#[test]
fn document_round_trip() {
    let assets = sample_assets();
    let layers = sample_layers();
    let mut v = Vec::new();
    write_document(&mut v, &assets, &layers, 1);
    let doc = read_document(&v).unwrap();
    assert_eq!(doc.curr, 1);
    assert_eq!(doc.assets.len(), 3);
    for (a, b) in assets.iter().zip(doc.assets.iter()) {
        assert_same_asset(a, b);
    }
    for (a, b) in layers.iter().zip(doc.layers.iter()) {
        assert_same_layer(a, b);
    }
}

#[test]
fn empty_document() {
    let mut v = Vec::new();
    write_document(&mut v, &[], &vec![], 0);
    assert_eq!(v, vec![0; 24]);
    let doc = read_document(&v).unwrap();
    assert!(doc.assets.is_empty() && doc.layers.is_empty() && doc.curr == 0);
}

#[test]
fn document_errors() {
    assert!(matches!(
        read_document(&[1, 0]),
        Err(ReadDocumentError::Assets(DeStrEnumError::Read(ReadError::UnexpectedEof)))
    ));
    let mut v = Vec::new();
    write_assets(&mut v, &[]);
    write_usize(&mut v, 1);
    assert!(matches!(
        read_document(&v),
        Err(ReadDocumentError::Layers(DeLayerError::Read(ReadError::UnexpectedEof)))
    ));
}

#[test]
fn links_are_checked() {
    let assets = sample_assets();
    let layers = sample_layers();
    assert!(layer_list_all_indexed(&layers));
    assert_eq!(check_links(&assets, &layers), Ok(()));

    let shows_shader = vec![layer("x", LayerContent::Asset { pos: AssetPos::Index(1) }, vec![])];
    assert_eq!(check_links(&assets, &shows_shader), Err(LinkCheckError::RasterMismatch));

    let raster_effect = vec![layer("x", LayerContent::Unique { image: vec![] }, vec![
        Effect { asset: AssetPos::Index(2) },
        Effect { asset: AssetPos::Index(0) },
    ])];
    assert_eq!(check_links(&assets, &raster_effect), Err(LinkCheckError::EffectMismatch));

    let missing = vec![layer(
        "g",
        LayerContent::Group {
            children: vec![layer("c", LayerContent::Asset { pos: AssetPos::Index(9) }, vec![])],
        },
        vec![Effect { asset: AssetPos::Index(0) }],
    )];
    assert_eq!(
        check_links(&assets, &missing),
        Err(LinkCheckError::SelectAsset(SelectAssetError::IndexOutOfBounds(IndexError::Value(9))))
    );

    let builtin = vec![layer("b", LayerContent::Unique { image: vec![] }, vec![Effect {
        asset: AssetPos::Basic,
    }])];
    assert!(!layer_list_all_indexed(&builtin));
}

#[test]
fn layer_with_unknown_blend_mode() {
    let mut v = Vec::new();
    write_str(&mut v, "n");
    write_u8(&mut v, b'u');
    write_bytes(&mut v, &[]);
    write_usize(&mut v, 0);
    v.extend_from_slice(&[9, 1, 2, 3, 4]);
    assert!(matches!(
        read_layer(&v, 0),
        Err(DeLayerError::Read(ReadError::UnknownVariant(9)))
    ));
}
