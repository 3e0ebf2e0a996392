//! Checking a document's layers against its assets: a layer that shows an
//! asset must name an existing raster, and an effect must name an existing
//! shader.

use vstd::prelude::*;

use crate::asset_pos::{AssetPos, SelectAssetError};
use crate::document::{
    asset_models, lemma_layers_model, layer_model, layers_model, Asset, AssetContent,
    AssetContentModel, AssetModel, Effect, Layer, LayerContent, LayerContentModel, LayerModel,
};

verus! {

broadcast use vstd::std_specs::vec::group_vec_axioms;

/// Why a document's layers do not fit its assets.
#[derive(Debug, Clone, Copy, PartialEq, Eq, Structural)]
pub enum LinkCheckError {
    /// A position names no asset.
    SelectAsset(SelectAssetError),
    /// A layer shows a shader.
    RasterMismatch,
    /// An effect names a raster.
    EffectMismatch,
}

pub open spec fn is_shader_asset(a: AssetModel) -> bool {
    a.data is Shader
}

/// What is wrong with `p` as the position of a shader (`want_shader`) or of
/// a raster, if anything.
pub open spec fn pos_problem(assets: Seq<AssetModel>, p: AssetPos, want_shader: bool) -> Option<
    LinkCheckError,
> {
    match p.spec_select_asset_idx(assets.len() as usize) {
        Err(e) => Some(LinkCheckError::SelectAsset(e)),
        Ok(i) => if is_shader_asset(assets[i as int]) == want_shader {
            None
        } else if want_shader {
            Some(LinkCheckError::EffectMismatch)
        } else {
            Some(LinkCheckError::RasterMismatch)
        },
    }
}

/// The problem of the first effect, in order, that has one.
pub open spec fn effects_problem(assets: Seq<AssetModel>, effects: Seq<Effect>) -> Option<
    LinkCheckError,
>
    decreases effects.len(),
{
    if effects.len() == 0 {
        None
    } else {
        match effects_problem(assets, effects.drop_last()) {
            Some(e) => Some(e),
            None => pos_problem(assets, effects.last().asset, true),
        }
    }
}

/// The first problem of a layer: in what it shows, then in its effects.
pub open spec fn layer_problem(assets: Seq<AssetModel>, m: LayerModel) -> Option<LinkCheckError>
    decreases m,
{
    match content_problem(assets, m.content) {
        Some(e) => Some(e),
        None => effects_problem(assets, m.effects),
    }
}

pub open spec fn content_problem(assets: Seq<AssetModel>, c: LayerContentModel) -> Option<
    LinkCheckError,
>
    decreases c,
{
    match c {
        LayerContentModel::Unique { .. } => None,
        LayerContentModel::Asset { pos } => pos_problem(assets, pos, false),
        LayerContentModel::Group { children } => layer_seq_problem(assets, children),
    }
}

/// The problem of the first layer, in order, that has one.
pub open spec fn layer_seq_problem(assets: Seq<AssetModel>, s: Seq<LayerModel>) -> Option<
    LinkCheckError,
>
    decreases s,
{
    if s.len() == 0 {
        None
    } else {
        match layer_seq_problem(assets, s.subrange(0, s.len() - 1)) {
            Some(e) => Some(e),
            None => layer_problem(assets, s[s.len() - 1]),
        }
    }
}

/// No position in the effects is the built-in one.
pub open spec fn effects_indexed(effects: Seq<Effect>) -> bool {
    forall|i: int| 0 <= i < effects.len() ==> (#[trigger] effects[i]).asset is Index
}

/// No position in a layer tree is the built-in one.
pub open spec fn layer_indexed(m: LayerModel) -> bool
    decreases m,
{
    content_indexed(m.content) && effects_indexed(m.effects)
}

pub open spec fn content_indexed(c: LayerContentModel) -> bool
    decreases c,
{
    match c {
        LayerContentModel::Unique { .. } => true,
        LayerContentModel::Asset { pos } => pos is Index,
        LayerContentModel::Group { children } => layer_seq_indexed(children),
    }
}

pub open spec fn layer_seq_indexed(s: Seq<LayerModel>) -> bool
    decreases s,
{
    if s.len() == 0 {
        true
    } else {
        layer_seq_indexed(s.subrange(0, s.len() - 1)) && layer_indexed(s[s.len() - 1])
    }
}

fn is_shader(a: &Asset) -> (r: bool)
    ensures
        r == is_shader_asset(a@),
{
    match &a.data {
        AssetContent::Shader { .. } => true,
        AssetContent::Raster { .. } => false,
    }
}

fn check_pos(assets: &[Asset], p: AssetPos, want_shader: bool) -> (r: Result<(), LinkCheckError>)
    requires
        p is Index,
    ensures
        r == match pos_problem(asset_models(assets@), p, want_shader) {
            Some(e) => Err(e),
            None => Ok::<(), LinkCheckError>(()),
        },
{
    let i = match p.select_asset_idx(assets.len()) {
        Ok(i) => i,
        Err(e) => return Err(LinkCheckError::SelectAsset(e)),
    };
    if is_shader(&assets[i]) == want_shader {
        Ok(())
    } else if want_shader {
        Err(LinkCheckError::EffectMismatch)
    } else {
        Err(LinkCheckError::RasterMismatch)
    }
}

/// A run of effects with a problem keeps it first however it goes on.
proof fn lemma_effects_problem_extends(assets: Seq<AssetModel>, s: Seq<Effect>, k: int)
    requires
        0 <= k <= s.len(),
        effects_problem(assets, s.take(k)) is Some,
    ensures
        effects_problem(assets, s) == effects_problem(assets, s.take(k)),
    decreases s.len() - k,
{
    if k == s.len() {
        assert(s.take(k) =~= s);
    } else {
        assert(s.take(k + 1).drop_last() =~= s.take(k));
        lemma_effects_problem_extends(assets, s, k + 1);
    }
}

/// A run of layers with a problem keeps it first however it goes on.
proof fn lemma_layer_seq_problem_extends(assets: Seq<AssetModel>, s: Seq<LayerModel>, k: int)
    requires
        0 <= k <= s.len(),
        layer_seq_problem(assets, s.take(k)) is Some,
    ensures
        layer_seq_problem(assets, s) == layer_seq_problem(assets, s.take(k)),
    decreases s.len() - k,
{
    if k == s.len() {
        assert(s.take(k) =~= s);
    } else {
        assert(s.take(k + 1).subrange(0, k) =~= s.take(k));
        lemma_layer_seq_problem_extends(assets, s, k + 1);
    }
}

fn check_effects(assets: &[Asset], effects: &Vec<Effect>) -> (r: Result<(), LinkCheckError>)
    requires
        effects_indexed(effects@),
    ensures
        r == match effects_problem(asset_models(assets@), effects@) {
            Some(e) => Err(e),
            None => Ok::<(), LinkCheckError>(()),
        },
{
    let ghost m = asset_models(assets@);
    let mut i: usize = 0;
    while i < effects.len()
        invariant
            i <= effects.len(),
            m == asset_models(assets@),
            effects_indexed(effects@),
            effects_problem(m, effects@.take(i as int)) is None,
        decreases effects.len() - i,
    {
        proof {
            assert(effects@.take(i + 1).drop_last() =~= effects@.take(i as int));
            assert(effects@[i as int].asset is Index);
        }
        match check_pos(assets, effects[i].asset, true) {
            Ok(()) => {},
            Err(e) => {
                proof {
                    lemma_effects_problem_extends(m, effects@, i + 1);
                }
                return Err(e);
            },
        }
        i = i + 1;
    }
    proof {
        assert(effects@.take(effects.len() as int) =~= effects@);
    }
    Ok(())
}

fn check_layer(assets: &[Asset], l: &Layer) -> (r: Result<(), LinkCheckError>)
    requires
        layer_indexed(l@),
    ensures
        r == match layer_problem(asset_models(assets@), l@) {
            Some(e) => Err(e),
            None => Ok::<(), LinkCheckError>(()),
        },
    decreases l,
{
    check_content(assets, &l.content)?;
    check_effects(assets, &l.effects)
}

fn check_content(assets: &[Asset], c: &LayerContent) -> (r: Result<(), LinkCheckError>)
    requires
        content_indexed(c@),
    ensures
        r == match content_problem(asset_models(assets@), c@) {
            Some(e) => Err(e),
            None => Ok::<(), LinkCheckError>(()),
        },
    decreases c,
{
    match c {
        LayerContent::Unique { .. } => Ok(()),
        LayerContent::Asset { pos } => check_pos(assets, *pos, false),
        LayerContent::Group { children } => {
            proof {
                lemma_layers_model(children@);
            }
            check_layer_list(assets, children)
        },
    }
}

fn check_layer_list(assets: &[Asset], list: &Vec<Layer>) -> (r: Result<(), LinkCheckError>)
    requires
        layer_seq_indexed(layers_model(list@)),
    ensures
        r == match layer_seq_problem(asset_models(assets@), layers_model(list@)) {
            Some(e) => Err(e),
            None => Ok::<(), LinkCheckError>(()),
        },
    decreases list,
{
    let ghost am = asset_models(assets@);
    let ghost m = layers_model(list@);
    proof {
        lemma_layers_model(list@);
        lemma_seq_indexed_each(m);
    }
    let mut i: usize = 0;
    while i < list.len()
        invariant
            i <= list.len(),
            am == asset_models(assets@),
            m == layers_model(list@),
            m.len() == list@.len(),
            forall|j: int| 0 <= j < list@.len() ==> #[trigger] m[j] == layer_model(list@[j]),
            forall|j: int| 0 <= j < m.len() ==> layer_indexed(#[trigger] m[j]),
            layer_seq_problem(am, m.take(i as int)) is None,
        decreases list.len() - i,
    {
        proof {
            assert(m.take(i + 1).subrange(0, i as int) =~= m.take(i as int));
            assert(m[i as int] == layer_model(list@[i as int]));
        }
        match check_layer(assets, &list[i]) {
            Ok(()) => {},
            Err(e) => {
                proof {
                    lemma_layer_seq_problem_extends(am, m, i + 1);
                }
                return Err(e);
            },
        }
        i = i + 1;
    }
    proof {
        assert(m.take(list.len() as int) =~= m);
    }
    Ok(())
}

/// Every layer of an indexed run is indexed.
proof fn lemma_seq_indexed_each(s: Seq<LayerModel>)
    requires
        layer_seq_indexed(s),
    ensures
        forall|j: int| 0 <= j < s.len() ==> layer_indexed(#[trigger] s[j]),
    decreases s.len(),
{
    if s.len() > 0 {
        let init = s.subrange(0, s.len() - 1);
        lemma_seq_indexed_each(init);
        assert forall|j: int| 0 <= j < s.len() implies layer_indexed(#[trigger] s[j]) by {
            if j < s.len() - 1 {
                assert(s[j] == init[j]);
            }
        }
    }
}

/// Checks that every asset position in the layers names an existing asset of
/// the right kind: a raster for what a layer shows, a shader for an effect.
/// The first problem in document order is returned.
pub fn check_links(assets: &[Asset], layers: &Vec<Layer>) -> (r: Result<(), LinkCheckError>)
    requires
        layer_seq_indexed(layers_model(layers@)),
    ensures
        r == match layer_seq_problem(asset_models(assets@), layers_model(layers@)) {
            Some(e) => Err(e),
            None => Ok::<(), LinkCheckError>(()),
        },
{
    check_layer_list(assets, layers)
}

fn effects_all_indexed(effects: &Vec<Effect>) -> (r: bool)
    ensures
        r == effects_indexed(effects@),
{
    let mut i: usize = 0;
    while i < effects.len()
        invariant
            i <= effects.len(),
            forall|j: int| 0 <= j < i ==> (#[trigger] effects@[j]).asset is Index,
        decreases effects.len() - i,
    {
        if let AssetPos::Basic = effects[i].asset {
            return false;
        }
        i = i + 1;
    }
    true
}

fn layer_all_indexed(l: &Layer) -> (r: bool)
    ensures
        r == layer_indexed(l@),
    decreases l,
{
    content_all_indexed(&l.content) && effects_all_indexed(&l.effects)
}

fn content_all_indexed(c: &LayerContent) -> (r: bool)
    ensures
        r == content_indexed(c@),
    decreases c,
{
    match c {
        LayerContent::Unique { .. } => true,
        LayerContent::Asset { pos } => match pos {
            AssetPos::Index(_) => true,
            AssetPos::Basic => false,
        },
        LayerContent::Group { children } => layer_list_all_indexed(children),
    }
}

/// Whether no asset position in the layers is the built-in one, which names
/// no asset and cannot be checked.
pub fn layer_list_all_indexed(list: &Vec<Layer>) -> (r: bool)
    ensures
        r == layer_seq_indexed(layers_model(list@)),
    decreases list,
{
    let ghost m = layers_model(list@);
    proof {
        lemma_layers_model(list@);
    }
    let mut i: usize = 0;
    while i < list.len()
        invariant
            i <= list.len(),
            m == layers_model(list@),
            m.len() == list@.len(),
            forall|j: int| 0 <= j < list@.len() ==> #[trigger] m[j] == layer_model(list@[j]),
            layer_seq_indexed(m.take(i as int)),
        decreases list.len() - i,
    {
        proof {
            assert(m.take(i + 1).subrange(0, i as int) =~= m.take(i as int));
            assert(m[i as int] == layer_model(list@[i as int]));
        }
        if !layer_all_indexed(&list[i]) {
            proof {
                if layer_seq_indexed(m) {
                    lemma_seq_indexed_prefix(m, i + 1);
                }
            }
            return false;
        }
        i = i + 1;
    }
    proof {
        assert(m.take(list.len() as int) =~= m);
    }
    true
}

/// A run is indexed only if each of its prefixes is.
proof fn lemma_seq_indexed_prefix(s: Seq<LayerModel>, k: int)
    requires
        0 <= k <= s.len(),
        layer_seq_indexed(s),
    ensures
        layer_seq_indexed(s.take(k)),
    decreases s.len() - k,
{
    if k == s.len() {
        assert(s.take(k) =~= s);
    } else {
        lemma_seq_indexed_prefix(s, k + 1);
        assert(s.take(k + 1).subrange(0, k) =~= s.take(k));
    }
}

} // verus!
