use amity_fx::asset_pos::{AssetPos, SelectAssetError};
use amity_fx::assets::Assets;
use amity_fx::command::{
    bytes_eq_ignore_ascii_case, is_document_extension, is_raster_extension, link_plan, run,
    runnable_check, shader_name, Action, AssetKind, AssetName, Command, ContentKind, FileInfo, LinkPlan,
    StepError,
};
use amity_fx::command_error::{
    LinkError, RemoveLayerError, ReorderLayersError, SwitchLayerError,
};
use amity_fx::error::IndexError;
use amity_fx::layer_pos::{LayerPos, SelectLayerError};
use amity_fx::layers::Layers;

fn stack(names: &[&'static str], curr: usize) -> Layers<&'static str> {
    Layers::from_parts(names.to_vec(), curr).unwrap()
}

fn file(name: &str, ext: &str) -> FileInfo {
    FileInfo {
        file_name: Some(name.to_string()),
        extension: Some(ext.as_bytes().to_vec()),
    }
}

fn open(
    name: Option<&str>,
    path: Option<FileInfo>,
    fs: Option<FileInfo>,
    vs: Option<FileInfo>,
) -> Command {
    Command::Open {
        name: name.map(|s| s.to_string()),
        path,
        fs_path: fs,
        vs_path: vs,
    }
}

fn no_assets() -> Assets<u8> {
    Assets::new()
}

#[test]
fn list_commands() {
    let mut l = stack(&["a"], 0);
    let a = no_assets();
    let r = run(Command::List { assets: true, dbg: false }, &a, &mut l);
    assert!(matches!(r, Ok(Action::ListAssets { dbg: false })));
    let r = run(Command::List { assets: false, dbg: true }, &a, &mut l);
    assert!(matches!(r, Ok(Action::ListLayers { dbg: true })));
}

#[test]
fn create_passes_through() {
    let mut l = stack(&[], 0);
    let r = run(
        Command::Create { is_group: true, name: "g".to_string(), at: LayerPos::Next },
        &no_assets(),
        &mut l,
    );
    match r {
        Ok(Action::Create { is_group, name, at }) => {
            assert!(is_group);
            assert_eq!(name, "g");
            assert_eq!(at, LayerPos::Next);
        }
        other => panic!("unexpected {other:?}"),
    }
    assert!(l.is_empty());
}

#[test]
fn reorder_command() {
    let mut l = stack(&["a", "b", "c"], 0);
    let r = run(Command::Reorder { from: LayerPos::Back, to: LayerPos::Front }, &no_assets(), &mut l);
    assert!(matches!(r, Ok(Action::Continue)));
    assert_eq!(l.as_slice(), &["b", "c", "a"]);
    let r = run(Command::Reorder { from: LayerPos::Index(1), to: LayerPos::Index(1) }, &no_assets(), &mut l);
    assert!(matches!(r, Ok(Action::OrderUnchanged)));
    let r = run(Command::Reorder { from: LayerPos::Index(1), to: LayerPos::Index(5) }, &no_assets(), &mut l);
    assert!(matches!(
        r,
        Err(StepError::ReorderLayers(ReorderLayersError::DstIndexOutOfBounds(
            SelectLayerError::IndexOutOfBounds(IndexError::Value(5))
        )))
    ));
    assert_eq!(l.as_slice(), &["b", "c", "a"]);
}

#[test]
fn remove_command_without_positions_removes_active() {
    let mut l = stack(&["a", "b", "c"], 2);
    match run(Command::Remove { positions: vec![] }, &no_assets(), &mut l) {
        Ok(Action::Removed(v)) => assert_eq!(v, vec![(2, "c")]),
        other => panic!("unexpected {other:?}"),
    }
    assert_eq!(l.as_slice(), &["a", "b"]);
    assert_eq!(l.curr(), Some(1));
}

#[test]
fn remove_command_on_empty_stack() {
    let mut l: Layers<&str> = Layers::new();
    let r = run(Command::Remove { positions: vec![] }, &no_assets(), &mut l);
    assert!(matches!(
        r,
        Err(StepError::RemoveLayer(RemoveLayerError::Select(
            SelectLayerError::IndexOutOfBounds(IndexError::Value(0))
        )))
    ));
}

#[test]
fn remove_command_with_positions() {
    let mut l = stack(&["a", "b", "c"], 2);
    match run(
        Command::Remove { positions: vec![LayerPos::Back, LayerPos::Next.clone()] },
        &no_assets(),
        &mut l,
    ) {
        Err(StepError::RemoveLayer(RemoveLayerError::Select(e))) => {
            assert_eq!(e, SelectLayerError::IndexOutOfBounds(IndexError::Value(3)))
        }
        other => panic!("unexpected {other:?}"),
    }
    match run(Command::Remove { positions: vec![LayerPos::Back] }, &no_assets(), &mut l) {
        Ok(Action::Removed(v)) => assert_eq!(v, vec![(0, "a")]),
        other => panic!("unexpected {other:?}"),
    }
    assert_eq!(l.as_slice(), &["b", "c"]);
    assert_eq!(l.curr(), Some(1));
}

#[test]
fn target_command() {
    let mut l = stack(&["a", "b", "c"], 2);
    assert!(matches!(
        run(Command::Target { to: LayerPos::Back }, &no_assets(), &mut l),
        Ok(Action::Continue)
    ));
    assert_eq!(l.curr(), Some(0));
    assert!(matches!(
        run(Command::Target { to: LayerPos::Prev }, &no_assets(), &mut l),
        Err(StepError::SwitchLayer(SwitchLayerError::Select(
            SelectLayerError::IndexOutOfBounds(IndexError::Overflow)
        )))
    ));
    assert_eq!(l.curr(), Some(0));
}

#[test]
fn link_command_resolves_both_ends() {
    let mut l = stack(&["a", "b"], 1);
    let a = Assets::from_vec(vec![1u8, 2, 3]);
    assert!(matches!(
        run(Command::Link { from: AssetPos::Index(2), to: LayerPos::Prev }, &a, &mut l),
        Ok(Action::Link { asset: 2, layer: 0 })
    ));
    assert!(matches!(
        run(Command::Link { from: AssetPos::Index(3), to: LayerPos::Prev }, &a, &mut l),
        Err(StepError::Link(LinkError::SelectAsset(SelectAssetError::IndexOutOfBounds(
            IndexError::Value(3)
        ))))
    ));
    assert!(matches!(
        run(Command::Link { from: AssetPos::Index(0), to: LayerPos::Next }, &a, &mut l),
        Err(StepError::Link(LinkError::SelectLayer(SelectLayerError::IndexOutOfBounds(
            IndexError::Value(2)
        ))))
    ));
}

#[test]
fn reload_command() {
    let mut l = stack(&[], 0);
    let a = Assets::from_vec(vec![1u8]);
    assert!(matches!(
        run(Command::Reload { what: AssetPos::Index(0) }, &a, &mut l),
        Ok(Action::Reload { asset: 0 })
    ));
    assert!(matches!(
        run(Command::Reload { what: AssetPos::Index(1) }, &a, &mut l),
        Err(StepError::Reload(SelectAssetError::IndexOutOfBounds(IndexError::Value(1))))
    ));
}

#[test]
fn open_document_by_extension() {
    let mut l = stack(&[], 0);
    let a = no_assets();
    let r = run(open(None, Some(file("s.AmyFx", "AmyFx")), None, None), &a, &mut l);
    assert!(matches!(r, Ok(Action::OpenDocument)));
}

#[test]
fn open_raster_names() {
    let mut l = stack(&[], 0);
    let a = Assets::from_vec(vec![0u8, 0]);
    match run(open(None, Some(file("cat.png", "png")), None, None), &a, &mut l) {
        Ok(Action::OpenRaster { name }) => assert_eq!(name, AssetName::Given("cat.png".to_string())),
        other => panic!("unexpected {other:?}"),
    }
    match run(open(Some("kitty"), Some(file("cat.png", "png")), None, None), &a, &mut l) {
        Ok(Action::OpenRaster { name }) => assert_eq!(name, AssetName::Given("kitty".to_string())),
        other => panic!("unexpected {other:?}"),
    }
    let bare = FileInfo { file_name: None, extension: None };
    match run(open(None, Some(bare), None, None), &a, &mut l) {
        Ok(Action::OpenRaster { name }) => assert_eq!(name, AssetName::Numbered(2)),
        other => panic!("unexpected {other:?}"),
    }
}

#[test]
fn open_shader_names() {
    let mut l = stack(&[], 0);
    let a = no_assets();
    match run(
        open(None, None, Some(file("blur.fs", "fs")), Some(file("quad.vs", "vs"))),
        &a,
        &mut l,
    ) {
        Ok(Action::OpenShader { name }) => {
            assert_eq!(name, AssetName::Given("blur.fs_quad.vs".to_string()))
        }
        other => panic!("unexpected {other:?}"),
    }
    match run(open(None, None, None, Some(file("quad.vs", "vs"))), &a, &mut l) {
        Ok(Action::OpenShader { name }) => assert_eq!(name, AssetName::Given("quad.vs".to_string())),
        other => panic!("unexpected {other:?}"),
    }
    match run(open(Some("fx"), None, Some(file("a.fs", "fs")), None), &a, &mut l) {
        Ok(Action::OpenShader { name }) => assert_eq!(name, AssetName::Given("fx".to_string())),
        other => panic!("unexpected {other:?}"),
    }
    let bare = FileInfo { file_name: None, extension: None };
    match run(open(None, None, Some(bare), None), &a, &mut l) {
        Ok(Action::OpenShader { name }) => assert_eq!(name, AssetName::Numbered(0)),
        other => panic!("unexpected {other:?}"),
    }
}

#[test]
fn open_nothing() {
    let mut l = stack(&[], 0);
    assert!(matches!(
        run(open(Some("x"), None, None, None), &no_assets(), &mut l),
        Ok(Action::NothingToOpen)
    ));
}

#[test]
fn export_and_quit() {
    let mut l = stack(&[], 0);
    assert!(matches!(run(Command::Export, &no_assets(), &mut l), Ok(Action::ExportUnavailable)));
    assert!(matches!(run(Command::Quit, &no_assets(), &mut l), Ok(Action::Quit)));
}

#[test]
fn extensions() {
    assert!(is_document_extension(b"amyfx"));
    assert!(is_document_extension(b"AMYFX"));
    assert!(!is_document_extension(b"amyf"));
    assert!(!is_document_extension(b"png"));
    assert!(is_raster_extension(b"PnG"));
    assert!(!is_raster_extension(b"jpg"));
    assert!(bytes_eq_ignore_ascii_case(b"aB1", b"Ab1"));
    assert!(!bytes_eq_ignore_ascii_case(b"a[", b"a{"));
}

#[test]
fn shader_names() {
    assert_eq!(
        shader_name(Some("f".to_string()), Some("v".to_string())),
        Some("f_v".to_string())
    );
    assert_eq!(shader_name(Some("f".to_string()), None), Some("f".to_string()));
    assert_eq!(shader_name(None, Some("v".to_string())), Some("v".to_string()));
    assert_eq!(shader_name(None, None), None);
}

#[test]
fn link_plans() {
    assert_eq!(link_plan(AssetKind::Shader, ContentKind::Group), Ok(LinkPlan::AddEffect));
    assert_eq!(link_plan(AssetKind::Shader, ContentKind::Asset), Ok(LinkPlan::AddEffect));
    assert_eq!(link_plan(AssetKind::Raster, ContentKind::Asset), Ok(LinkPlan::Retarget));
    assert_eq!(
        link_plan(AssetKind::Raster, ContentKind::Unique { blank: true }),
        Ok(LinkPlan::ReplaceArtwork { warn: false })
    );
    assert_eq!(
        link_plan(AssetKind::Raster, ContentKind::Unique { blank: false }),
        Ok(LinkPlan::ReplaceArtwork { warn: true })
    );
    assert_eq!(
        link_plan(AssetKind::Raster, ContentKind::Group),
        Err(LinkError::OverrideGroup)
    );
}

#[test]
fn runnable_commands() {
    assert!(runnable_check(&Command::Quit));
    assert!(runnable_check(&Command::Link { from: AssetPos::Index(0), to: LayerPos::Current }));
    assert!(!runnable_check(&Command::Link { from: AssetPos::Basic, to: LayerPos::Current }));
    assert!(!runnable_check(&Command::Reload { what: AssetPos::Basic }));
    assert!(runnable_check(&open(None, Some(file("a.png", "png")), None, None)));
    assert!(!runnable_check(&open(None, Some(file("a.png", "png")), Some(file("b.fs", "fs")), None)));
    assert!(runnable_check(&open(None, None, Some(file("b.fs", "fs")), Some(file("c.vs", "vs")))));
}
