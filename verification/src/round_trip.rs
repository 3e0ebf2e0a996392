//! Reading a document gives back what writing it stored.
//!
//! Each `lemma_*_round_trip` says: where the encoding of a model is stored at
//! `pos`, the matching decoder returns that model and the position just past
//! the encoding. The sizes that the format stores as 64-bit counts must fit
//! in `usize`; the `*_fits` predicates say so.

use vstd::prelude::*;

use crate::asset_pos::AssetPos;
use crate::codec::{
    dec_u8, enc_bytes, enc_str, enc_u32, enc_u8, enc_usize, lemma_bytes_round_trip,
    lemma_stored_split, lemma_str_round_trip, lemma_u32_round_trip, lemma_u8_round_trip,
    lemma_usize_round_trip, stored_at, Fault,
};
use crate::document::{
    blend_code, dec_asset, dec_asset_content, dec_asset_pos, dec_asset_seq, dec_assets,
    dec_blending, dec_content, dec_effect_seq, dec_effects, dec_layer, dec_layer_seq, dec_layers,
    dec_document, dec_matrix, dec_opt_bytes, enc_asset, enc_document, enc_asset_content, enc_asset_pos, enc_asset_seq,
    enc_assets, enc_blending, enc_color, enc_content, enc_effect, enc_effect_seq, enc_effects,
    enc_layer, enc_layer_seq, enc_layers, enc_matrix, enc_opt_bytes, shader_flags,
    AssetContentModel, AssetModel, Blending, Effect, LayerContentModel, LayerModel,
    RasterSrcModel, TAG_ASSET, TAG_BASIC, TAG_FILE, TAG_GROUP, TAG_INDEX, TAG_RASTER, TAG_SHADER,
    TAG_UNIQUE,
};
use vstd::utf8::encode_utf8;

verus! {

/// Text whose UTF-8 form has a length that fits in `usize`.
pub open spec fn str_fits(t: Seq<char>) -> bool {
    encode_utf8(t).len() <= usize::MAX
}

pub open spec fn opt_bytes_fit(p: Option<Seq<u8>>) -> bool {
    match p {
        Some(b) => b.len() <= usize::MAX,
        None => true,
    }
}

pub open spec fn asset_content_fits(c: AssetContentModel) -> bool {
    match c {
        AssetContentModel::Raster { src: RasterSrcModel::File(p) } => p.len() <= usize::MAX,
        AssetContentModel::Shader { src } => opt_bytes_fit(src.vs_path) && opt_bytes_fit(
            src.fs_path,
        ),
    }
}

pub open spec fn asset_fits(a: AssetModel) -> bool {
    str_fits(a.name) && asset_content_fits(a.data)
}

pub open spec fn assets_fit(s: Seq<AssetModel>) -> bool {
    &&& s.len() <= usize::MAX
    &&& forall|i: int| 0 <= i < s.len() ==> #[trigger] asset_fits(s[i])
}

pub open spec fn layer_fits(m: LayerModel) -> bool
    decreases m,
{
    &&& str_fits(m.name)
    &&& content_fits(m.content)
    &&& m.effects.len() <= usize::MAX
    &&& m.transform.len() == 16
}

pub open spec fn content_fits(c: LayerContentModel) -> bool
    decreases c,
{
    match c {
        LayerContentModel::Unique { image } => image.len() <= usize::MAX,
        LayerContentModel::Asset { .. } => true,
        LayerContentModel::Group { children } => children.len() <= usize::MAX && layer_seq_fits(
            children,
        ),
    }
}

pub open spec fn layer_seq_fits(s: Seq<LayerModel>) -> bool
    decreases s,
{
    if s.len() == 0 {
        true
    } else {
        layer_seq_fits(s.subrange(0, s.len() - 1)) && layer_fits(s[s.len() - 1])
    }
}

/// Splits a stored concatenation of three parts.
pub proof fn lemma_stored_split3(s: Seq<u8>, pos: int, a: Seq<u8>, b: Seq<u8>, c: Seq<u8>)
    requires
        stored_at(s, pos, a + b + c),
    ensures
        stored_at(s, pos, a),
        stored_at(s, pos + a.len(), b),
        stored_at(s, pos + a.len() + b.len(), c),
{
    lemma_stored_split(s, pos, a + b, c);
    lemma_stored_split(s, pos, a, b);
}

pub proof fn lemma_asset_pos_round_trip(s: Seq<u8>, pos: int, p: AssetPos)
    requires
        stored_at(s, pos, enc_asset_pos(p)),
    ensures
        dec_asset_pos(s, pos) == Ok::<(AssetPos, int), Fault>((p, pos + enc_asset_pos(p).len())),
{
    match p {
        AssetPos::Basic => {
            lemma_u8_round_trip(s, pos, TAG_BASIC);
        },
        AssetPos::Index(x) => {
            lemma_stored_split(s, pos, enc_u8(TAG_INDEX), enc_usize(x));
            lemma_u8_round_trip(s, pos, TAG_INDEX);
            lemma_usize_round_trip(s, pos + 1, x);
        },
    }
}

pub proof fn lemma_opt_bytes_round_trip(s: Seq<u8>, pos: int, p: Option<Seq<u8>>)
    requires
        stored_at(s, pos, enc_opt_bytes(p)),
        opt_bytes_fit(p),
    ensures
        dec_opt_bytes(s, pos, p is Some) == Ok::<(Option<Seq<u8>>, int), Fault>(
            (p, pos + enc_opt_bytes(p).len()),
        ),
{
    if let Some(b) = p {
        lemma_bytes_round_trip(s, pos, b);
    }
}

pub proof fn lemma_asset_content_round_trip(s: Seq<u8>, pos: int, c: AssetContentModel)
    requires
        stored_at(s, pos, enc_asset_content(c)),
        asset_content_fits(c),
    ensures
        dec_asset_content(s, pos) == Ok::<(AssetContentModel, int), Fault>(
            (c, pos + enc_asset_content(c).len()),
        ),
{
    match c {
        AssetContentModel::Raster { src } => {
            let RasterSrcModel::File(path) = src;
            assert(enc_asset_content(c) =~= enc_u8(TAG_RASTER) + enc_u8(TAG_FILE) + enc_bytes(
                path,
            ));
            lemma_stored_split3(s, pos, enc_u8(TAG_RASTER), enc_u8(TAG_FILE), enc_bytes(path));
            lemma_u8_round_trip(s, pos, TAG_RASTER);
            lemma_u8_round_trip(s, pos + 1, TAG_FILE);
            lemma_bytes_round_trip(s, pos + 2, path);
        },
        AssetContentModel::Shader { src } => {
            let flags = shader_flags(src);
            let vs = enc_opt_bytes(src.vs_path);
            let fs = enc_opt_bytes(src.fs_path);
            assert(enc_asset_content(c) =~= enc_u8(TAG_SHADER) + enc_u8(flags) + vs + fs);
            lemma_stored_split(s, pos, enc_u8(TAG_SHADER) + enc_u8(flags) + vs, fs);
            lemma_stored_split3(s, pos, enc_u8(TAG_SHADER), enc_u8(flags), vs);
            lemma_u8_round_trip(s, pos, TAG_SHADER);
            lemma_u8_round_trip(s, pos + 1, flags);
            lemma_opt_bytes_round_trip(s, pos + 2, src.vs_path);
            lemma_opt_bytes_round_trip(s, pos + 2 + vs.len(), src.fs_path);
        },
    }
}

pub proof fn lemma_asset_round_trip(s: Seq<u8>, pos: int, a: AssetModel)
    requires
        stored_at(s, pos, enc_asset(a)),
        asset_fits(a),
    ensures
        dec_asset(s, pos) == Ok::<(AssetModel, int), Fault>((a, pos + enc_asset(a).len())),
{
    lemma_stored_split(s, pos, enc_str(a.name), enc_asset_content(a.data));
    lemma_str_round_trip(s, pos, a.name);
    lemma_asset_content_round_trip(s, pos + enc_str(a.name).len(), a.data);
}

pub proof fn lemma_asset_seq_round_trip(s: Seq<u8>, pos: int, list: Seq<AssetModel>)
    requires
        stored_at(s, pos, enc_asset_seq(list)),
        forall|i: int| 0 <= i < list.len() ==> #[trigger] asset_fits(list[i]),
    ensures
        dec_asset_seq(s, pos, list.len()) == Ok::<(Seq<AssetModel>, int), Fault>(
            (list, pos + enc_asset_seq(list).len()),
        ),
    decreases list.len(),
{
    if list.len() > 0 {
        let init = list.drop_last();
        lemma_stored_split(s, pos, enc_asset_seq(init), enc_asset(list.last()));
        assert forall|i: int| 0 <= i < init.len() implies #[trigger] asset_fits(init[i]) by {
            assert(init[i] == list[i]);
        }
        lemma_asset_seq_round_trip(s, pos, init);
        assert(asset_fits(list[list.len() - 1]));
        lemma_asset_round_trip(s, pos + enc_asset_seq(init).len(), list.last());
        assert(init.push(list.last()) =~= list);
        assert((list.len() - 1) as nat == init.len());
    } else {
        assert(list =~= Seq::<AssetModel>::empty());
    }
}

/// Reading the asset list gives back the list that was written.
pub proof fn lemma_assets_round_trip(s: Seq<u8>, pos: int, list: Seq<AssetModel>)
    requires
        stored_at(s, pos, enc_assets(list)),
        assets_fit(list),
    ensures
        dec_assets(s, pos) == Ok::<(Seq<AssetModel>, int), Fault>(
            (list, pos + enc_assets(list).len()),
        ),
{
    lemma_stored_split(s, pos, enc_usize(list.len() as usize), enc_asset_seq(list));
    lemma_usize_round_trip(s, pos, list.len() as usize);
    lemma_asset_seq_round_trip(s, pos + 8, list);
}

pub proof fn lemma_effect_seq_round_trip(s: Seq<u8>, pos: int, list: Seq<Effect>)
    requires
        stored_at(s, pos, enc_effect_seq(list)),
    ensures
        dec_effect_seq(s, pos, list.len()) == Ok::<(Seq<Effect>, int), Fault>(
            (list, pos + enc_effect_seq(list).len()),
        ),
    decreases list.len(),
{
    if list.len() > 0 {
        let init = list.drop_last();
        lemma_stored_split(s, pos, enc_effect_seq(init), enc_effect(list.last()));
        lemma_effect_seq_round_trip(s, pos, init);
        lemma_asset_pos_round_trip(s, pos + enc_effect_seq(init).len(), list.last().asset);
        assert(init.push(list.last()) =~= list);
        assert((list.len() - 1) as nat == init.len());
    } else {
        assert(list =~= Seq::<Effect>::empty());
    }
}

pub proof fn lemma_effects_round_trip(s: Seq<u8>, pos: int, list: Seq<Effect>)
    requires
        stored_at(s, pos, enc_effects(list)),
        list.len() <= usize::MAX,
    ensures
        dec_effects(s, pos) == Ok::<(Seq<Effect>, int), Fault>(
            (list, pos + enc_effects(list).len()),
        ),
{
    lemma_stored_split(s, pos, enc_usize(list.len() as usize), enc_effect_seq(list));
    lemma_usize_round_trip(s, pos, list.len() as usize);
    lemma_effect_seq_round_trip(s, pos + 8, list);
}

pub proof fn lemma_blending_round_trip(s: Seq<u8>, pos: int, b: Blending)
    requires
        stored_at(s, pos, enc_blending(b)),
    ensures
        dec_blending(s, pos) == Ok::<(Blending, int), Fault>((b, pos + 5)),
{
    lemma_stored_split(s, pos, enc_u8(blend_code(b.mode)), enc_color(b.tint));
    lemma_u8_round_trip(s, pos, blend_code(b.mode));
    let t = s.subrange(pos + 1, pos + 5);
    assert(t[0] == s[pos + 1] && t[1] == s[pos + 2] && t[2] == s[pos + 3] && t[3] == s[pos + 4]);
}

pub proof fn lemma_matrix_round_trip(s: Seq<u8>, pos: int, t: Seq<u32>)
    requires
        stored_at(s, pos, enc_matrix(t)),
    ensures
        enc_matrix(t).len() == 4 * t.len(),
        dec_matrix(s, pos, t.len()) == Ok::<(Seq<u32>, int), Fault>((t, pos + 4 * t.len())),
    decreases t.len(),
{
    if t.len() > 0 {
        let init = t.drop_last();
        lemma_stored_split(s, pos, enc_matrix(init), enc_u32(t.last()));
        lemma_matrix_round_trip(s, pos, init);
        lemma_u32_round_trip(s, pos + 4 * init.len(), t.last());
        assert(init.push(t.last()) =~= t);
        assert((t.len() - 1) as nat == init.len());
    } else {
        assert(t =~= Seq::<u32>::empty());
    }
}

pub proof fn lemma_layer_round_trip(s: Seq<u8>, pos: int, m: LayerModel)
    requires
        stored_at(s, pos, enc_layer(m)),
        layer_fits(m),
    ensures
        dec_layer(s, pos) == Ok::<(LayerModel, int), Fault>((m, pos + enc_layer(m).len())),
    decreases m,
{
    let a = enc_str(m.name);
    let b = enc_content(m.content);
    let c = enc_effects(m.effects);
    let d = enc_blending(m.blend);
    let e = enc_matrix(m.transform);
    assert(enc_layer(m) == a + b + c + d + e);
    lemma_stored_split(s, pos, a + b + c + d, e);
    lemma_stored_split(s, pos, a + b + c, d);
    lemma_stored_split3(s, pos, a, b, c);
    lemma_str_round_trip(s, pos, m.name);
    lemma_content_round_trip(s, pos + a.len(), m.content);
    lemma_effects_round_trip(s, pos + a.len() + b.len(), m.effects);
    lemma_blending_round_trip(s, pos + a.len() + b.len() + c.len(), m.blend);
    lemma_matrix_round_trip(s, pos + a.len() + b.len() + c.len() + d.len(), m.transform);
    assert(m.transform.len() == 16);
}

pub proof fn lemma_content_round_trip(s: Seq<u8>, pos: int, c: LayerContentModel)
    requires
        stored_at(s, pos, enc_content(c)),
        content_fits(c),
    ensures
        dec_content(s, pos) == Ok::<(LayerContentModel, int), Fault>(
            (c, pos + enc_content(c).len()),
        ),
    decreases c,
{
    match c {
        LayerContentModel::Unique { image } => {
            lemma_stored_split(s, pos, enc_u8(TAG_UNIQUE), enc_bytes(image));
            lemma_u8_round_trip(s, pos, TAG_UNIQUE);
            lemma_bytes_round_trip(s, pos + 1, image);
        },
        LayerContentModel::Asset { pos: a } => {
            lemma_stored_split(s, pos, enc_u8(TAG_ASSET), enc_asset_pos(a));
            lemma_u8_round_trip(s, pos, TAG_ASSET);
            lemma_asset_pos_round_trip(s, pos + 1, a);
        },
        LayerContentModel::Group { children } => {
            let n = enc_usize(children.len() as usize);
            lemma_stored_split3(s, pos, enc_u8(TAG_GROUP), n, enc_layer_seq(children));
            lemma_u8_round_trip(s, pos, TAG_GROUP);
            lemma_usize_round_trip(s, pos + 1, children.len() as usize);
            lemma_layer_seq_round_trip(s, pos + 9, children);
        },
    }
}

pub proof fn lemma_layer_seq_round_trip(s: Seq<u8>, pos: int, list: Seq<LayerModel>)
    requires
        stored_at(s, pos, enc_layer_seq(list)),
        layer_seq_fits(list),
    ensures
        dec_layer_seq(s, pos, list.len()) == Ok::<(Seq<LayerModel>, int), Fault>(
            (list, pos + enc_layer_seq(list).len()),
        ),
    decreases list,
{
    if list.len() > 0 {
        let init = list.subrange(0, list.len() - 1);
        let last = list[list.len() - 1];
        lemma_stored_split(s, pos, enc_layer_seq(init), enc_layer(last));
        lemma_layer_seq_round_trip(s, pos, init);
        lemma_layer_round_trip(s, pos + enc_layer_seq(init).len(), last);
        assert(init.push(last) =~= list);
        assert((list.len() - 1) as nat == init.len());
    } else {
        assert(list =~= Seq::<LayerModel>::empty());
    }
}

/// Reading the layer stack gives back the layers and the active index that
/// were written.
pub proof fn lemma_layers_round_trip(s: Seq<u8>, pos: int, list: Seq<LayerModel>, curr: usize)
    requires
        stored_at(s, pos, enc_layers(list, curr)),
        list.len() <= usize::MAX,
        layer_seq_fits(list),
    ensures
        dec_layers(s, pos) == Ok::<((Seq<LayerModel>, usize), int), Fault>(
            ((list, curr), pos + enc_layers(list, curr).len()),
        ),
{
    let n = enc_usize(list.len() as usize);
    let body = enc_layer_seq(list);
    lemma_stored_split3(s, pos, n, body, enc_usize(curr));
    lemma_usize_round_trip(s, pos, list.len() as usize);
    lemma_layer_seq_round_trip(s, pos + 8, list);
    lemma_usize_round_trip(s, pos + 8 + body.len(), curr);
}

/// Reading a written document gives back the assets, the layers and the
/// active index that were written.
pub proof fn law_document_round_trip(assets: Seq<AssetModel>, list: Seq<LayerModel>, curr: usize)
    requires
        assets_fit(assets),
        list.len() <= usize::MAX,
        layer_seq_fits(list),
    ensures
        dec_document(enc_document(assets, list, curr)) == Ok::<
            (Seq<AssetModel>, Seq<LayerModel>, usize),
            Fault,
        >((assets, list, curr)),
{
    let s = enc_document(assets, list, curr);
    let a = enc_assets(assets);
    let l = enc_layers(list, curr);
    assert(s.subrange(0, s.len() as int) =~= a + l);
    lemma_stored_split(s, 0, a, l);
    lemma_assets_round_trip(s, 0, assets);
    lemma_layers_round_trip(s, a.len() as int, list, curr);
}

} // verus!
