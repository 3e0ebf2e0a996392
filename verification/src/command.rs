//! The editor's commands and the decisions they take.
//!
//! [`run`] carries out what a command does to the layer stack and the asset
//! list, and hands back an [`Action`] for the work that needs the graphics
//! context or the file system: drawing lists, making buffers, loading files.

use vstd::prelude::*;

use crate::asset_pos::{AssetPos, SelectAssetError};
use crate::assets::Assets;
use crate::command_error::{LinkError, RemoveLayerError, ReorderLayersError, SwitchLayerError};
use crate::layer_pos::{cursor_ok, LayerPos, SelectLayerError};
use crate::layers::{first_select_error, selection_mask, spec_remove, spec_reorder, Layers};
use crate::mask::lemma_one_flag;
use crate::std_bridge::string_push_str;

verus! {

/// What the editor knows of a path given to `open`: its file name, read
/// lossily as text, and its extension as raw bytes.
#[derive(Debug, Clone)]
pub struct FileInfo {
    pub file_name: Option<String>,
    pub extension: Option<Vec<u8>>,
}

/// A command typed at the editor's prompt.
#[derive(Debug)]
pub enum Command {
    /// List the layers, or the assets.
    List { assets: bool, dbg: bool },
    /// Create a raster layer, or a group, at `at`.
    Create { is_group: bool, name: String, at: LayerPos },
    /// Link an asset to a layer.
    Link { from: AssetPos, to: LayerPos },
    /// Reload an asset from its source.
    Reload { what: AssetPos },
    /// Move a layer to the place of another.
    Reorder { from: LayerPos, to: LayerPos },
    /// Remove layers; no position means the active layer.
    Remove { positions: Vec<LayerPos> },
    /// Make a layer the active one.
    Target { to: LayerPos },
    /// Open a document or a raster file, or load a shader.
    Open {
        name: Option<String>,
        path: Option<FileInfo>,
        fs_path: Option<FileInfo>,
        vs_path: Option<FileInfo>,
    },
    /// Export the picture.
    Export,
    /// Save the session and close the editor.
    Quit,
}

/// The name a new asset gets: the one given, or `asset <n>` with `n` the
/// number of assets before it.
#[derive(Debug, Clone, PartialEq, Eq)]
pub enum AssetName {
    Given(String),
    Numbered(usize),
}

/// What is left to do after [`run`].
#[derive(Debug)]
pub enum Action<L> {
    /// Nothing.
    Continue,
    /// Save the session and stop.
    Quit,
    ListAssets { dbg: bool },
    ListLayers { dbg: bool },
    /// Make the layer's buffer, then insert the layer at `at`.
    Create { is_group: bool, name: String, at: LayerPos },
    /// Link the asset at index `asset` to the layer at index `layer`.
    Link { asset: usize, layer: usize },
    /// Reload the asset at index `asset`.
    Reload { asset: usize },
    /// Warn that the move left the order as it was.
    OrderUnchanged,
    /// Report the removed layers, with their former indices.
    Removed(Vec<(usize, L)>),
    /// Replace the session with the document at the path.
    OpenDocument,
    /// Load the path as a raster asset.
    OpenRaster { name: AssetName },
    /// Load the shader paths as a shader asset.
    OpenShader { name: AssetName },
    /// Warn that there was nothing to open.
    NothingToOpen,
    /// Report that exporting is not available.
    ExportUnavailable,
}

/// Why a command failed.
#[derive(Debug, Clone, Copy, PartialEq, Eq)]
pub enum StepError {
    Link(LinkError),
    Reload(SelectAssetError),
    ReorderLayers(ReorderLayersError),
    RemoveLayer(RemoveLayerError),
    SwitchLayer(SwitchLayerError),
}

/// The lower-case form of an ASCII letter; other bytes are unchanged.
pub open spec fn ascii_lower(b: u8) -> u8 {
    if 65 <= b <= 90 {
        (b + 32) as u8
    } else {
        b
    }
}

/// `a` and `b` are equal up to the case of ASCII letters.
pub open spec fn eq_ignore_ascii_case(a: Seq<u8>, b: Seq<u8>) -> bool {
    a.len() == b.len() && forall|i: int| 0 <= i < a.len() ==> ascii_lower(a[i]) == ascii_lower(b[i])
}

/// The extension of a saved document, `amyfx`.
pub open spec fn document_extension() -> Seq<u8> {
    seq![97u8, 109u8, 121u8, 102u8, 120u8]
}

/// The extension of a raster file, `png`.
pub open spec fn raster_extension() -> Seq<u8> {
    seq![112u8, 110u8, 103u8]
}

fn lower(b: u8) -> (r: u8)
    ensures
        r == ascii_lower(b),
{
    if 65 <= b && b <= 90 {
        b + 32
    } else {
        b
    }
}

/// Compares two byte strings, ignoring the case of ASCII letters.
pub fn bytes_eq_ignore_ascii_case(a: &[u8], b: &[u8]) -> (r: bool)
    ensures
        r == eq_ignore_ascii_case(a@, b@),
{
    if a.len() != b.len() {
        return false;
    }
    let mut i: usize = 0;
    while i < a.len()
        invariant
            a.len() == b.len(),
            i <= a.len(),
            forall|j: int| 0 <= j < i ==> ascii_lower(a@[j]) == ascii_lower(b@[j]),
        decreases a.len() - i,
    {
        if lower(a[i]) != lower(b[i]) {
            return false;
        }
        i = i + 1;
    }
    true
}

/// Whether an extension names a saved document.
pub fn is_document_extension(ext: &[u8]) -> (r: bool)
    ensures
        r == eq_ignore_ascii_case(ext@, document_extension()),
{
    let want: [u8; 5] = [97, 109, 121, 102, 120];
    proof {
        assert(want@ =~= document_extension());
    }
    bytes_eq_ignore_ascii_case(ext, want.as_slice())
}

/// Whether an extension names a raster file that can be loaded.
pub fn is_raster_extension(ext: &[u8]) -> (r: bool)
    ensures
        r == eq_ignore_ascii_case(ext@, raster_extension()),
{
    let want: [u8; 3] = [112, 110, 103];
    proof {
        assert(want@ =~= raster_extension());
    }
    bytes_eq_ignore_ascii_case(ext, want.as_slice())
}

pub open spec fn opt_text(s: Option<String>) -> Option<Seq<char>> {
    match s {
        Some(t) => Some(t@),
        None => None,
    }
}

pub open spec fn file_name_of(f: Option<FileInfo>) -> Option<Seq<char>> {
    match f {
        Some(info) => opt_text(info.file_name),
        None => None,
    }
}

/// The name a shader gets from its file names: both joined by `_`, the
/// fragment shader's first, or the one there is.
pub open spec fn spec_shader_name(fs: Option<Seq<char>>, vs: Option<Seq<char>>) -> Option<Seq<char>> {
    match (fs, vs) {
        (Some(f), Some(v)) => Some(f + seq!['_'] + v),
        (Some(x), None) => Some(x),
        (None, Some(x)) => Some(x),
        (None, None) => None,
    }
}

/// `n` is the name chosen from `name` or else `fallback`, or the numbered
/// name when neither is there.
pub open spec fn named(n: AssetName, name: Option<Seq<char>>, fallback: Option<Seq<char>>, count: usize) -> bool {
    match (name, fallback) {
        (Some(t), _) => n matches AssetName::Given(s) && s@ == t,
        (None, Some(t)) => n matches AssetName::Given(s) && s@ == t,
        (None, None) => n == AssetName::Numbered(count),
    }
}

fn file_name(f: Option<FileInfo>) -> (r: Option<String>)
    ensures
        opt_text(r) == file_name_of(f),
{
    match f {
        Some(info) => info.file_name,
        None => None,
    }
}

/// The name a shader gets from its file names, if it has any.
pub fn shader_name(fs: Option<String>, vs: Option<String>) -> (r: Option<String>)
    ensures
        opt_text(r) == spec_shader_name(opt_text(fs), opt_text(vs)),
{
    match (fs, vs) {
        (Some(mut f), Some(v)) => {
            string_push_str(&mut f, "_");
            proof {
                reveal_strlit("_");
            }
            string_push_str(&mut f, v.as_str());
            Some(f)
        },
        (Some(x), None) => Some(x),
        (None, Some(x)) => Some(x),
        (None, None) => None,
    }
}

fn choose_name(name: Option<String>, fallback: Option<String>, count: usize) -> (r: AssetName)
    ensures
        named(r, opt_text(name), opt_text(fallback), count),
{
    match name {
        Some(n) => AssetName::Given(n),
        None => match fallback {
            Some(f) => AssetName::Given(f),
            None => AssetName::Numbered(count),
        },
    }
}

/// The positions a removal names: those given, or the active layer when none
/// is given.
pub open spec fn removal_targets(positions: Seq<LayerPos>) -> Seq<LayerPos> {
    if positions.len() == 0 {
        seq![LayerPos::Current]
    } else {
        positions
    }
}

/// The commands that [`run`] takes: asset positions are indices, and a file
/// to open comes without shader paths.
pub open spec fn runnable(cmd: Command) -> bool {
    match cmd {
        Command::Link { from, .. } => from is Index,
        Command::Reload { what } => what is Index,
        Command::Open { path, fs_path, vs_path, .. } => path is Some ==> (fs_path is None
            && vs_path is None),
        _ => true,
    }
}

/// Whether [`run`] takes `cmd`.
pub fn runnable_check(cmd: &Command) -> (r: bool)
    ensures
        r == runnable(*cmd),
{
    match cmd {
        Command::Link { from, .. } => matches!(from, AssetPos::Index(_)),
        Command::Reload { what } => matches!(what, AssetPos::Index(_)),
        Command::Open { path, fs_path, vs_path, .. } => path.is_none() || (fs_path.is_none()
            && vs_path.is_none()),
        _ => true,
    }
}

/// Carries out `cmd` on the layer stack and says what is left to do.
pub fn run<L, A>(cmd: Command, assets: &Assets<A>, layers: &mut Layers<L>) -> (r: Result<
    Action<L>,
    StepError,
>)
    requires
        runnable(cmd),
    ensures
        match cmd {
            Command::Reorder { from, to } => match spec_reorder(
                old(layers).items(),
                old(layers).cursor(),
                from,
                to,
            ) {
                Ok(items) => {
                    &&& final(layers).items() == items
                    &&& final(layers).cursor() == old(layers).cursor()
                    &&& r matches Ok(a) && (a is Continue || a is OrderUnchanged)
                    &&& (r matches Ok(Action::OrderUnchanged) <==> from.spec_select_idx(
                        old(layers).cursor(),
                        old(layers).items().len() as usize,
                    ) == to.spec_select_idx(
                        old(layers).cursor(),
                        old(layers).items().len() as usize,
                    ))
                },
                Err(e) => {
                    &&& r matches Err(StepError::ReorderLayers(e2)) && e2 == e
                    &&& final(layers).items() == old(layers).items()
                    &&& final(layers).cursor() == old(layers).cursor()
                },
            },
            Command::Remove { positions } => match spec_remove(
                old(layers).items(),
                old(layers).cursor(),
                removal_targets(positions@),
            ) {
                Ok((items, curr, removed)) => {
                    &&& r matches Ok(Action::Removed(v)) && v@ == removed
                    &&& final(layers).items() == items
                    &&& final(layers).cursor() == curr
                },
                Err(e) => {
                    &&& r matches Err(StepError::RemoveLayer(e2)) && e2 == e
                    &&& final(layers).items() == old(layers).items()
                    &&& final(layers).cursor() == old(layers).cursor()
                },
            },
            Command::Target { to } => {
                &&& final(layers).items() == old(layers).items()
                &&& match to.spec_select_idx(
                    old(layers).cursor(),
                    old(layers).items().len() as usize,
                ) {
                    Ok(i) => r matches Ok(Action::Continue) && final(layers).cursor() == i,
                    Err(e) => {
                        &&& r matches Err(StepError::SwitchLayer(SwitchLayerError::Select(e2)))
                            && e2 == e
                        &&& final(layers).cursor() == old(layers).cursor()
                    },
                }
            },
            _ => {
                &&& final(layers).items() == old(layers).items()
                &&& final(layers).cursor() == old(layers).cursor()
                &&& match cmd {
                    Command::List { assets: a, dbg } => if a {
                        r matches Ok(Action::ListAssets { dbg: d }) && d == dbg
                    } else {
                        r matches Ok(Action::ListLayers { dbg: d }) && d == dbg
                    },
                    Command::Create { is_group, name, at } => r matches Ok(
                        Action::Create { is_group: g, name: n, at: a },
                    ) && g == is_group && n == name && a == at,
                    Command::Link { from, to } => match from.spec_select_asset_idx(
                        assets.items().len() as usize,
                    ) {
                        Err(e) => r matches Err(StepError::Link(LinkError::SelectAsset(e2)))
                            && e2 == e,
                        Ok(ai) => match to.spec_select_idx(
                            old(layers).cursor(),
                            old(layers).items().len() as usize,
                        ) {
                            Err(e) => r matches Err(StepError::Link(LinkError::SelectLayer(e2)))
                                && e2 == e,
                            Ok(li) => r matches Ok(Action::Link { asset, layer }) && asset == ai
                                && layer == li,
                        },
                    },
                    Command::Reload { what } => match what.spec_select_asset_idx(
                        assets.items().len() as usize,
                    ) {
                        Err(e) => r matches Err(StepError::Reload(e2)) && e2 == e,
                        Ok(ai) => r matches Ok(Action::Reload { asset }) && asset == ai,
                    },
                    Command::Open { name, path, fs_path, vs_path } => match path {
                        Some(info) => if info.extension matches Some(ext)
                            && eq_ignore_ascii_case(ext@, document_extension()) {
                            r matches Ok(Action::OpenDocument)
                        } else {
                            r matches Ok(Action::OpenRaster { name: n }) && named(
                                n,
                                opt_text(name),
                                opt_text(info.file_name),
                                assets.items().len() as usize,
                            )
                        },
                        None => if fs_path is None && vs_path is None {
                            r matches Ok(Action::NothingToOpen)
                        } else {
                            r matches Ok(Action::OpenShader { name: n }) && named(
                                n,
                                opt_text(name),
                                spec_shader_name(file_name_of(fs_path), file_name_of(vs_path)),
                                assets.items().len() as usize,
                            )
                        },
                    },
                    Command::Export => r matches Ok(Action::ExportUnavailable),
                    Command::Quit => r matches Ok(Action::Quit),
                    _ => false,
                }
            },
        },
{
    match cmd {
        Command::List { assets: a, dbg } => {
            if a {
                Ok(Action::ListAssets { dbg })
            } else {
                Ok(Action::ListLayers { dbg })
            }
        },
        Command::Create { is_group, name, at } => Ok(Action::Create { is_group, name, at }),
        Command::Link { from, to } => {
            let asset = match from.select_asset_idx(assets.len()) {
                Ok(i) => i,
                Err(e) => return Err(StepError::Link(LinkError::SelectAsset(e))),
            };
            let layer = match layers.select_idx(to) {
                Ok(i) => i,
                Err(e) => return Err(StepError::Link(LinkError::SelectLayer(e))),
            };
            Ok(Action::Link { asset, layer })
        },
        Command::Reload { what } => match what.select_asset_idx(assets.len()) {
            Ok(asset) => Ok(Action::Reload { asset }),
            Err(e) => Err(StepError::Reload(e)),
        },
        Command::Reorder { from, to } => match layers.reorder(from, to) {
            Ok(true) => Ok(Action::Continue),
            Ok(false) => Ok(Action::OrderUnchanged),
            Err(e) => Err(StepError::ReorderLayers(e)),
        },
        Command::Remove { positions } => {
            let targets = if positions.len() == 0 {
                let mut v: Vec<LayerPos> = Vec::new();
                v.push(LayerPos::Current);
                v
            } else {
                positions
            };
            proof {
                assert(targets@ =~= removal_targets(positions@));
            }
            match layers.remove(targets) {
                Ok(v) => Ok(Action::Removed(v)),
                Err(e) => Err(StepError::RemoveLayer(e)),
            }
        },
        Command::Target { to } => match layers.set_target(to) {
            Ok(()) => Ok(Action::Continue),
            Err(e) => Err(StepError::SwitchLayer(SwitchLayerError::Select(e))),
        },
        Command::Open { name, path, fs_path, vs_path } => match path {
            Some(info) => {
                let is_doc = match &info.extension {
                    Some(ext) => is_document_extension(ext.as_slice()),
                    None => false,
                };
                if is_doc {
                    Ok(Action::OpenDocument)
                } else {
                    Ok(Action::OpenRaster { name: choose_name(name, info.file_name, assets.len()) })
                }
            },
            None => {
                if fs_path.is_none() && vs_path.is_none() {
                    Ok(Action::NothingToOpen)
                } else {
                    let fallback = shader_name(file_name(fs_path), file_name(vs_path));
                    Ok(Action::OpenShader { name: choose_name(name, fallback, assets.len()) })
                }
            },
        },
        Command::Export => Ok(Action::ExportUnavailable),
        Command::Quit => Ok(Action::Quit),
    }
}

/// Which kind of asset is being linked.
#[derive(Debug, Clone, Copy, PartialEq, Eq, Structural)]
pub enum AssetKind {
    Raster,
    Shader,
}

/// What a layer shows, as far as linking is concerned. `blank` says whether
/// a layer's own artwork is empty.
#[derive(Debug, Clone, Copy, PartialEq, Eq, Structural)]
pub enum ContentKind {
    Unique { blank: bool },
    Asset,
    Group,
}

/// How a link changes a layer.
#[derive(Debug, Clone, Copy, PartialEq, Eq, Structural)]
pub enum LinkPlan {
    /// Show the raster asset in place of the one shown before.
    Retarget,
    /// Show the raster asset in place of the layer's own artwork; `warn`
    /// says that artwork is not empty and will be lost.
    ReplaceArtwork { warn: bool },
    /// Add the shader asset as an effect.
    AddEffect,
}

/// Decides how linking an asset changes a layer: a shader becomes an effect
/// of any layer; a raster is shown by a layer that is not a group.
pub fn link_plan(asset: AssetKind, content: ContentKind) -> (r: Result<LinkPlan, LinkError>)
    ensures
        r == match asset {
            AssetKind::Shader => Ok(LinkPlan::AddEffect),
            AssetKind::Raster => match content {
                ContentKind::Asset => Ok(LinkPlan::Retarget),
                ContentKind::Unique { blank } => Ok(LinkPlan::ReplaceArtwork { warn: !blank }),
                ContentKind::Group => Err(LinkError::OverrideGroup),
            },
        },
{
    match asset {
        AssetKind::Shader => Ok(LinkPlan::AddEffect),
        AssetKind::Raster => match content {
            ContentKind::Asset => Ok(LinkPlan::Retarget),
            ContentKind::Unique { blank } => Ok(LinkPlan::ReplaceArtwork { warn: !blank }),
            ContentKind::Group => Err(LinkError::OverrideGroup),
        },
    }
}

/// A removal with no positions takes out exactly the active layer: the
/// other layers keep their order, the removed layer comes back with its
/// index, and the cursor moves down by one unless it was at the bottom.
pub proof fn law_remove_without_positions_takes_active<L>(items: Seq<L>, curr: usize)
    requires
        0 < items.len() <= usize::MAX,
        cursor_ok(curr, items.len() as usize),
    ensures
        spec_remove(items, curr, removal_targets(Seq::<LayerPos>::empty())) == Ok::<
            (Seq<L>, usize, Seq<(usize, L)>),
            RemoveLayerError,
        >(
            (
                items.remove(curr as int),
                if curr > 0 {
                    (curr - 1) as usize
                } else {
                    0
                },
                seq![(curr, items[curr as int])],
            ),
        ),
{
    let n = items.len() as usize;
    let pos = removal_targets(Seq::<LayerPos>::empty());
    assert(pos =~= seq![LayerPos::Current]);
    assert(pos.drop_last() =~= Seq::<LayerPos>::empty());
    assert(first_select_error(pos.drop_last(), curr, n) is None);
    assert(pos.last() == LayerPos::Current);
    assert(LayerPos::Current.spec_select_idx(curr, n) == Ok::<usize, SelectLayerError>(curr));
    assert(first_select_error(pos, curr, n) is None);
    let m = selection_mask(pos, curr, n);
    assert forall|j: int| 0 <= j < m.len() implies (m[j] <==> j == curr) by {
        if j == curr {
            assert(pos[0].spec_select_idx(curr, n) == Ok::<usize, SelectLayerError>(j as usize));
        }
    }
    lemma_one_flag(items, m, curr as int);
    lemma_one_flag(items.take(curr + 1), m.take(curr + 1), curr as int);
}

} // verus!
