//! The saved document: its assets and its layer tree, as plain values, and
//! their byte format.
//!
//! Each record type has a model (its view) built from sequences; the format
//! is given by `enc_*` and `dec_*` spec functions over models, and the
//! writers and readers are proved against them.

use vstd::prelude::*;

use crate::asset_pos::AssetPos;
use crate::codec::{
    dec_bytes, dec_str, dec_u32, dec_u8, dec_usize, enc_bytes, enc_str, enc_u32, enc_u8,
    enc_usize, outcome, outcome_map, outcome_view, read_bytes, read_string, read_u32, read_u8,
    read_usize, write_bytes, write_str, write_u32, write_u8, write_usize, DeStringError,
    DeUsizeError, Fallible, Fault, ReadError,
};
use std::num::TryFromIntError;
use std::string::FromUtf8Error;

verus! {

broadcast use vstd::std_specs::vec::group_vec_axioms;

/// Where a raster asset is loaded from: the bytes of a file path.
#[derive(Debug, Clone)]
pub enum RasterSrc {
    File(Vec<u8>),
}

/// Where a shader asset is loaded from: the bytes of the vertex and fragment
/// shader paths, each optional.
#[derive(Debug, Clone)]
pub struct ShaderSrc {
    pub vs_path: Option<Vec<u8>>,
    pub fs_path: Option<Vec<u8>>,
}

/// What kind of asset, and where it comes from.
#[derive(Debug, Clone)]
pub enum AssetContent {
    Raster { src: RasterSrc },
    Shader { src: ShaderSrc },
}

/// A named asset as the document stores it.
#[derive(Debug, Clone)]
pub struct Asset {
    pub name: String,
    pub data: AssetContent,
}

/// A shader effect on a layer, by the position of its asset.
#[derive(Debug, Clone, Copy, PartialEq, Eq, Hash, Structural)]
pub struct Effect {
    pub asset: AssetPos,
}

/// How a layer is blended onto what lies below it.
#[derive(Debug, Clone, Copy, PartialEq, Eq, Hash, Structural)]
pub enum BlendMode {
    Alpha,
    Additive,
    Multiplied,
    AddColors,
    SubtractColors,
    AlphaPremultiply,
    Custom,
    CustomSeparate,
}

/// An 8-bit RGBA color.
#[derive(Debug, Clone, Copy, PartialEq, Eq, Hash, Structural)]
pub struct Color {
    pub r: u8,
    pub g: u8,
    pub b: u8,
    pub a: u8,
}

/// Blend mode and tint of a layer.
#[derive(Debug, Clone, Copy, PartialEq, Eq, Hash, Structural)]
pub struct Blending {
    pub mode: BlendMode,
    pub tint: Color,
}

/// What a layer shows.
#[derive(Debug)]
pub enum LayerContent {
    /// Its own raster, as PNG bytes.
    Unique { image: Vec<u8> },
    /// A raster asset.
    Asset { pos: AssetPos },
    /// Child layers, bottom to top.
    Group { children: Vec<Layer> },
}

/// A layer as the document stores it. `transform` holds the bit patterns of
/// the 4x4 matrix entries in the order `m0, m4, m8, m12, m1, ..., m15`.
#[derive(Debug)]
pub struct Layer {
    pub name: String,
    pub content: LayerContent,
    pub effects: Vec<Effect>,
    pub blend: Blending,
    pub transform: [u32; 16],
}

// ---- models ----

pub enum RasterSrcModel {
    File(Seq<u8>),
}

pub struct ShaderSrcModel {
    pub vs_path: Option<Seq<u8>>,
    pub fs_path: Option<Seq<u8>>,
}

pub enum AssetContentModel {
    Raster { src: RasterSrcModel },
    Shader { src: ShaderSrcModel },
}

pub struct AssetModel {
    pub name: Seq<char>,
    pub data: AssetContentModel,
}

pub enum LayerContentModel {
    Unique { image: Seq<u8> },
    Asset { pos: AssetPos },
    Group { children: Seq<LayerModel> },
}

pub struct LayerModel {
    pub name: Seq<char>,
    pub content: LayerContentModel,
    pub effects: Seq<Effect>,
    pub blend: Blending,
    pub transform: Seq<u32>,
}

pub open spec fn opt_bytes(p: Option<Vec<u8>>) -> Option<Seq<u8>> {
    match p {
        Some(v) => Some(v@),
        None => None,
    }
}

impl View for RasterSrc {
    type V = RasterSrcModel;

    open spec fn view(&self) -> RasterSrcModel {
        match self {
            RasterSrc::File(p) => RasterSrcModel::File(p@),
        }
    }
}

impl View for ShaderSrc {
    type V = ShaderSrcModel;

    open spec fn view(&self) -> ShaderSrcModel {
        ShaderSrcModel { vs_path: opt_bytes(self.vs_path), fs_path: opt_bytes(self.fs_path) }
    }
}

impl View for AssetContent {
    type V = AssetContentModel;

    open spec fn view(&self) -> AssetContentModel {
        match self {
            AssetContent::Raster { src } => AssetContentModel::Raster { src: src@ },
            AssetContent::Shader { src } => AssetContentModel::Shader { src: src@ },
        }
    }
}

impl View for Asset {
    type V = AssetModel;

    open spec fn view(&self) -> AssetModel {
        AssetModel { name: self.name@, data: self.data@ }
    }
}

pub open spec fn layer_model(l: Layer) -> LayerModel
    decreases l,
{
    LayerModel {
        name: l.name@,
        content: content_model(l.content),
        effects: l.effects@,
        blend: l.blend,
        transform: l.transform@,
    }
}

pub open spec fn content_model(c: LayerContent) -> LayerContentModel
    decreases c,
{
    match c {
        LayerContent::Unique { image } => LayerContentModel::Unique { image: image@ },
        LayerContent::Asset { pos } => LayerContentModel::Asset { pos },
        LayerContent::Group { children } => LayerContentModel::Group {
            children: layers_model(children@),
        },
    }
}

pub open spec fn layers_model(s: Seq<Layer>) -> Seq<LayerModel>
    decreases s,
{
    if s.len() == 0 {
        Seq::empty()
    } else {
        layers_model(s.subrange(0, s.len() - 1)).push(layer_model(s[s.len() - 1]))
    }
}

impl View for Layer {
    type V = LayerModel;

    open spec fn view(&self) -> LayerModel {
        layer_model(*self)
    }
}

impl View for LayerContent {
    type V = LayerContentModel;

    open spec fn view(&self) -> LayerContentModel {
        content_model(*self)
    }
}

// ---- tags ----

pub const TAG_BASIC: u8 = 42; // '*'
pub const TAG_INDEX: u8 = 35; // '#'
pub const TAG_FILE: u8 = 102; // 'f'
pub const TAG_RASTER: u8 = 114; // 'r'
pub const TAG_SHADER: u8 = 115; // 's'
pub const TAG_UNIQUE: u8 = 117; // 'u'
pub const TAG_ASSET: u8 = 97; // 'a'
pub const TAG_GROUP: u8 = 103; // 'g'

/// The stored number of a blend mode.
pub open spec fn blend_code(m: BlendMode) -> u8 {
    match m {
        BlendMode::Alpha => 0,
        BlendMode::Additive => 1,
        BlendMode::Multiplied => 2,
        BlendMode::AddColors => 3,
        BlendMode::SubtractColors => 4,
        BlendMode::AlphaPremultiply => 5,
        BlendMode::Custom => 6,
        BlendMode::CustomSeparate => 7,
    }
}

/// The blend mode stored as `x`, if any.
pub open spec fn blend_from_code(x: u8) -> Option<BlendMode> {
    if x == 0 {
        Some(BlendMode::Alpha)
    } else if x == 1 {
        Some(BlendMode::Additive)
    } else if x == 2 {
        Some(BlendMode::Multiplied)
    } else if x == 3 {
        Some(BlendMode::AddColors)
    } else if x == 4 {
        Some(BlendMode::SubtractColors)
    } else if x == 5 {
        Some(BlendMode::AlphaPremultiply)
    } else if x == 6 {
        Some(BlendMode::Custom)
    } else if x == 7 {
        Some(BlendMode::CustomSeparate)
    } else {
        None
    }
}

// ---- encodings ----

pub open spec fn enc_asset_pos(p: AssetPos) -> Seq<u8> {
    match p {
        AssetPos::Basic => enc_u8(TAG_BASIC),
        AssetPos::Index(x) => enc_u8(TAG_INDEX) + enc_usize(x),
    }
}

pub open spec fn enc_raster_src(r: RasterSrcModel) -> Seq<u8> {
    match r {
        RasterSrcModel::File(p) => enc_u8(TAG_FILE) + enc_bytes(p),
    }
}

pub open spec fn enc_opt_bytes(p: Option<Seq<u8>>) -> Seq<u8> {
    match p {
        Some(b) => enc_bytes(b),
        None => Seq::empty(),
    }
}

/// Bit 1 marks a vertex shader path, bit 0 a fragment shader path.
pub open spec fn shader_flags(s: ShaderSrcModel) -> u8 {
    ((if s.vs_path is Some { 2int } else { 0int }) + (if s.fs_path is Some { 1int } else { 0int })) as u8
}

pub open spec fn enc_shader_src(s: ShaderSrcModel) -> Seq<u8> {
    enc_u8(shader_flags(s)) + enc_opt_bytes(s.vs_path) + enc_opt_bytes(s.fs_path)
}

pub open spec fn enc_asset_content(c: AssetContentModel) -> Seq<u8> {
    match c {
        AssetContentModel::Raster { src } => enc_u8(TAG_RASTER) + enc_raster_src(src),
        AssetContentModel::Shader { src } => enc_u8(TAG_SHADER) + enc_shader_src(src),
    }
}

pub open spec fn enc_asset(a: AssetModel) -> Seq<u8> {
    enc_str(a.name) + enc_asset_content(a.data)
}

pub open spec fn enc_asset_seq(s: Seq<AssetModel>) -> Seq<u8>
    decreases s.len(),
{
    if s.len() == 0 {
        Seq::empty()
    } else {
        enc_asset_seq(s.drop_last()) + enc_asset(s.last())
    }
}

/// The asset list: its length, then each asset.
pub open spec fn enc_assets(s: Seq<AssetModel>) -> Seq<u8> {
    enc_usize(s.len() as usize) + enc_asset_seq(s)
}

pub open spec fn enc_effect(e: Effect) -> Seq<u8> {
    enc_asset_pos(e.asset)
}

pub open spec fn enc_effect_seq(s: Seq<Effect>) -> Seq<u8>
    decreases s.len(),
{
    if s.len() == 0 {
        Seq::empty()
    } else {
        enc_effect_seq(s.drop_last()) + enc_effect(s.last())
    }
}

pub open spec fn enc_effects(s: Seq<Effect>) -> Seq<u8> {
    enc_usize(s.len() as usize) + enc_effect_seq(s)
}

pub open spec fn enc_color(c: Color) -> Seq<u8> {
    seq![c.r, c.g, c.b, c.a]
}

pub open spec fn enc_blending(b: Blending) -> Seq<u8> {
    enc_u8(blend_code(b.mode)) + enc_color(b.tint)
}

pub open spec fn enc_matrix(t: Seq<u32>) -> Seq<u8>
    decreases t.len(),
{
    if t.len() == 0 {
        Seq::empty()
    } else {
        enc_matrix(t.drop_last()) + enc_u32(t.last())
    }
}

pub open spec fn enc_layer(m: LayerModel) -> Seq<u8>
    decreases m,
{
    enc_str(m.name) + enc_content(m.content) + enc_effects(m.effects) + enc_blending(m.blend)
        + enc_matrix(m.transform)
}

pub open spec fn enc_content(c: LayerContentModel) -> Seq<u8>
    decreases c,
{
    match c {
        LayerContentModel::Unique { image } => enc_u8(TAG_UNIQUE) + enc_bytes(image),
        LayerContentModel::Asset { pos } => enc_u8(TAG_ASSET) + enc_asset_pos(pos),
        LayerContentModel::Group { children } => enc_u8(TAG_GROUP) + enc_usize(
            children.len() as usize,
        ) + enc_layer_seq(children),
    }
}

pub open spec fn enc_layer_seq(s: Seq<LayerModel>) -> Seq<u8>
    decreases s,
{
    if s.len() == 0 {
        Seq::empty()
    } else {
        enc_layer_seq(s.subrange(0, s.len() - 1)) + enc_layer(s[s.len() - 1])
    }
}

/// The layer stack: its length, each layer, then the active index.
pub open spec fn enc_layers(list: Seq<LayerModel>, curr: usize) -> Seq<u8> {
    enc_usize(list.len() as usize) + enc_layer_seq(list) + enc_usize(curr)
}

// ---- decodings ----

pub open spec fn dec_asset_pos(s: Seq<u8>, pos: int) -> Result<(AssetPos, int), Fault> {
    match dec_u8(s, pos) {
        Ok((t, p)) => if t == TAG_BASIC {
            Ok((AssetPos::Basic, p))
        } else if t == TAG_INDEX {
            match dec_usize(s, p) {
                Ok((x, q)) => Ok((AssetPos::Index(x), q)),
                Err(f) => Err(f),
            }
        } else {
            Err(Fault::Invalid)
        },
        Err(f) => Err(f),
    }
}

pub open spec fn dec_raster_src(s: Seq<u8>, pos: int) -> Result<(RasterSrcModel, int), Fault> {
    match dec_u8(s, pos) {
        Ok((t, p)) => if t == TAG_FILE {
            match dec_bytes(s, p) {
                Ok((b, q)) => Ok((RasterSrcModel::File(b), q)),
                Err(f) => Err(f),
            }
        } else {
            Err(Fault::UnknownVariant(t))
        },
        Err(f) => Err(f),
    }
}

pub open spec fn dec_opt_bytes(s: Seq<u8>, pos: int, present: bool) -> Result<(Option<Seq<u8>>, int), Fault> {
    if present {
        match dec_bytes(s, pos) {
            Ok((b, q)) => Ok((Some(b), q)),
            Err(f) => Err(f),
        }
    } else {
        Ok((None, pos))
    }
}

pub open spec fn dec_shader_src(s: Seq<u8>, pos: int) -> Result<(ShaderSrcModel, int), Fault> {
    match dec_u8(s, pos) {
        Ok((flags, p)) => if flags > 3 {
            Err(Fault::UnknownVariant(flags))
        } else {
            match dec_opt_bytes(s, p, flags >= 2) {
                Ok((vs, q)) => match dec_opt_bytes(s, q, flags % 2 == 1) {
                    Ok((fs, r)) => Ok((ShaderSrcModel { vs_path: vs, fs_path: fs }, r)),
                    Err(f) => Err(f),
                },
                Err(f) => Err(f),
            }
        },
        Err(f) => Err(f),
    }
}

pub open spec fn dec_asset_content(s: Seq<u8>, pos: int) -> Result<(AssetContentModel, int), Fault> {
    match dec_u8(s, pos) {
        Ok((t, p)) => if t == TAG_RASTER {
            match dec_raster_src(s, p) {
                Ok((r, q)) => Ok((AssetContentModel::Raster { src: r }, q)),
                Err(f) => Err(f),
            }
        } else if t == TAG_SHADER {
            match dec_shader_src(s, p) {
                Ok((r, q)) => Ok((AssetContentModel::Shader { src: r }, q)),
                Err(f) => Err(f),
            }
        } else {
            Err(Fault::UnknownVariant(t))
        },
        Err(f) => Err(f),
    }
}

pub open spec fn dec_asset(s: Seq<u8>, pos: int) -> Result<(AssetModel, int), Fault> {
    match dec_str(s, pos) {
        Ok((name, p)) => match dec_asset_content(s, p) {
            Ok((data, q)) => Ok((AssetModel { name, data }, q)),
            Err(f) => Err(f),
        },
        Err(f) => Err(f),
    }
}

/// `k` assets, one after another.
pub open spec fn dec_asset_seq(s: Seq<u8>, pos: int, k: nat) -> Result<(Seq<AssetModel>, int), Fault>
    decreases k,
{
    if k == 0 {
        Ok((Seq::empty(), pos))
    } else {
        match dec_asset_seq(s, pos, (k - 1) as nat) {
            Ok((v, p)) => match dec_asset(s, p) {
                Ok((a, q)) => Ok((v.push(a), q)),
                Err(f) => Err(f),
            },
            Err(f) => Err(f),
        }
    }
}

pub open spec fn dec_assets(s: Seq<u8>, pos: int) -> Result<(Seq<AssetModel>, int), Fault> {
    match dec_usize(s, pos) {
        Ok((n, p)) => dec_asset_seq(s, p, n as nat),
        Err(f) => Err(f),
    }
}

pub open spec fn dec_effect(s: Seq<u8>, pos: int) -> Result<(Effect, int), Fault> {
    match dec_asset_pos(s, pos) {
        Ok((a, p)) => Ok((Effect { asset: a }, p)),
        Err(f) => Err(f),
    }
}

pub open spec fn dec_effect_seq(s: Seq<u8>, pos: int, k: nat) -> Result<(Seq<Effect>, int), Fault>
    decreases k,
{
    if k == 0 {
        Ok((Seq::empty(), pos))
    } else {
        match dec_effect_seq(s, pos, (k - 1) as nat) {
            Ok((v, p)) => match dec_effect(s, p) {
                Ok((e, q)) => Ok((v.push(e), q)),
                Err(f) => Err(f),
            },
            Err(f) => Err(f),
        }
    }
}

pub open spec fn dec_effects(s: Seq<u8>, pos: int) -> Result<(Seq<Effect>, int), Fault> {
    match dec_usize(s, pos) {
        Ok((n, p)) => dec_effect_seq(s, p, n as nat),
        Err(f) => Err(f),
    }
}

pub open spec fn dec_color(s: Seq<u8>, pos: int) -> Result<(Color, int), Fault> {
    if 0 <= pos && pos + 4 <= s.len() {
        Ok((Color { r: s[pos], g: s[pos + 1], b: s[pos + 2], a: s[pos + 3] }, pos + 4))
    } else {
        Err(Fault::Eof)
    }
}

pub open spec fn dec_blending(s: Seq<u8>, pos: int) -> Result<(Blending, int), Fault> {
    match dec_u8(s, pos) {
        Ok((code, p)) => match blend_from_code(code) {
            Some(mode) => match dec_color(s, p) {
                Ok((tint, q)) => Ok((Blending { mode, tint }, q)),
                Err(f) => Err(f),
            },
            None => Err(Fault::UnknownValue(code)),
        },
        Err(f) => Err(f),
    }
}

/// `k` matrix entries.
pub open spec fn dec_matrix(s: Seq<u8>, pos: int, k: nat) -> Result<(Seq<u32>, int), Fault>
    decreases k,
{
    if k == 0 {
        Ok((Seq::empty(), pos))
    } else {
        match dec_matrix(s, pos, (k - 1) as nat) {
            Ok((v, p)) => match dec_u32(s, p) {
                Ok((x, q)) => Ok((v.push(x), q)),
                Err(f) => Err(f),
            },
            Err(f) => Err(f),
        }
    }
}

pub open spec fn dec_layer(s: Seq<u8>, pos: int) -> Result<(LayerModel, int), Fault>
    decreases s.len() - pos, 0int, 0nat,
{
    match dec_str(s, pos) {
        Ok((name, p1)) => match dec_content(s, p1) {
            Ok((content, p2)) => match dec_effects(s, p2) {
                Ok((effects, p3)) => match dec_blending(s, p3) {
                    Ok((blend, p4)) => match dec_matrix(s, p4, 16) {
                        Ok((transform, p5)) => Ok(
                            (LayerModel { name, content, effects, blend, transform }, p5),
                        ),
                        Err(f) => Err(f),
                    },
                    Err(f) => Err(f),
                },
                Err(f) => Err(f),
            },
            Err(f) => Err(f),
        },
        Err(f) => Err(f),
    }
}

pub open spec fn dec_content(s: Seq<u8>, pos: int) -> Result<(LayerContentModel, int), Fault>
    decreases s.len() - pos, 0int, 0nat,
{
    match dec_u8(s, pos) {
        Ok((t, p)) => if t == TAG_UNIQUE {
            match dec_bytes(s, p) {
                Ok((image, q)) => Ok((LayerContentModel::Unique { image }, q)),
                Err(f) => Err(f),
            }
        } else if t == TAG_ASSET {
            match dec_asset_pos(s, p) {
                Ok((a, q)) => Ok((LayerContentModel::Asset { pos: a }, q)),
                Err(f) => Err(f),
            }
        } else if t == TAG_GROUP {
            match dec_usize(s, p) {
                Ok((n, q)) => match dec_layer_seq(s, q, n as nat) {
                    Ok((children, r)) => Ok((LayerContentModel::Group { children }, r)),
                    Err(f) => Err(f),
                },
                Err(f) => Err(f),
            }
        } else {
            Err(Fault::UnknownVariant(t))
        },
        Err(f) => Err(f),
    }
}

/// `k` layers, one after another.
pub open spec fn dec_layer_seq(s: Seq<u8>, pos: int, k: nat) -> Result<(Seq<LayerModel>, int), Fault>
    decreases s.len() - pos, 1int, k,
{
    if pos < 0 || pos > s.len() {
        Err(Fault::Eof)
    } else if k == 0 {
        Ok((Seq::empty(), pos))
    } else {
        match dec_layer_seq(s, pos, (k - 1) as nat) {
            Ok((v, p)) => if pos <= p <= s.len() {
                match dec_layer(s, p) {
                    Ok((l, q)) => Ok((v.push(l), q)),
                    Err(f) => Err(f),
                }
            } else {
                Err(Fault::Eof)
            },
            Err(f) => Err(f),
        }
    }
}

/// The layer stack and its active index.
pub open spec fn dec_layers(s: Seq<u8>, pos: int) -> Result<((Seq<LayerModel>, usize), int), Fault> {
    match dec_usize(s, pos) {
        Ok((n, p)) => match dec_layer_seq(s, p, n as nat) {
            Ok((list, q)) => match dec_usize(s, q) {
                Ok((curr, r)) => Ok(((list, curr), r)),
                Err(f) => Err(f),
            },
            Err(f) => Err(f),
        },
        Err(f) => Err(f),
    }
}

// ---- errors ----

/// Why reading an enumeration failed.
#[derive(Debug)]
pub enum DeEnumError {
    Conversion(TryFromIntError),
    Read(ReadError),
    UnknownVariant(u8),
}

impl Fallible for DeEnumError {
    open spec fn fault(&self) -> Fault {
        match self {
            DeEnumError::Conversion(_) => Fault::Conversion,
            DeEnumError::Read(e) => e.fault(),
            DeEnumError::UnknownVariant(x) => Fault::UnknownVariant(*x),
        }
    }
}

/// Why reading a named enumeration failed.
#[derive(Debug)]
pub enum DeStrEnumError {
    Conversion(TryFromIntError),
    Read(ReadError),
    Utf8(FromUtf8Error),
    UnknownVariant(u8),
}

impl Fallible for DeStrEnumError {
    open spec fn fault(&self) -> Fault {
        match self {
            DeStrEnumError::Conversion(_) => Fault::Conversion,
            DeStrEnumError::Read(e) => e.fault(),
            DeStrEnumError::Utf8(_) => Fault::Utf8,
            DeStrEnumError::UnknownVariant(x) => Fault::UnknownVariant(*x),
        }
    }
}

/// Why reading a layer failed.
#[derive(Debug)]
pub enum DeLayerError {
    Conversion(TryFromIntError),
    Read(ReadError),
    Utf8(FromUtf8Error),
    UnknownVariant(u8),
}

impl Fallible for DeLayerError {
    open spec fn fault(&self) -> Fault {
        match self {
            DeLayerError::Conversion(_) => Fault::Conversion,
            DeLayerError::Read(e) => e.fault(),
            DeLayerError::Utf8(_) => Fault::Utf8,
            DeLayerError::UnknownVariant(x) => Fault::UnknownVariant(*x),
        }
    }
}

impl DeEnumError {
    pub fn from_usize(e: DeUsizeError) -> (r: Self)
        ensures
            r.fault() == e.fault(),
    {
        match e {
            DeUsizeError::Conversion(e) => DeEnumError::Conversion(e),
            DeUsizeError::Read(e) => DeEnumError::Read(e),
        }
    }
}

impl DeStrEnumError {
    pub fn from_usize(e: DeUsizeError) -> (r: Self)
        ensures
            r.fault() == e.fault(),
    {
        match e {
            DeUsizeError::Conversion(e) => DeStrEnumError::Conversion(e),
            DeUsizeError::Read(e) => DeStrEnumError::Read(e),
        }
    }

    pub fn from_string(e: DeStringError) -> (r: Self)
        ensures
            r.fault() == e.fault(),
    {
        match e {
            DeStringError::Conversion(e) => DeStrEnumError::Conversion(e),
            DeStringError::Read(e) => DeStrEnumError::Read(e),
            DeStringError::Utf8(e) => DeStrEnumError::Utf8(e),
        }
    }

    pub fn from_enum(e: DeEnumError) -> (r: Self)
        ensures
            r.fault() == e.fault(),
    {
        match e {
            DeEnumError::Conversion(e) => DeStrEnumError::Conversion(e),
            DeEnumError::Read(e) => DeStrEnumError::Read(e),
            DeEnumError::UnknownVariant(x) => DeStrEnumError::UnknownVariant(x),
        }
    }
}

impl DeLayerError {
    pub fn from_usize(e: DeUsizeError) -> (r: Self)
        ensures
            r.fault() == e.fault(),
    {
        match e {
            DeUsizeError::Conversion(e) => DeLayerError::Conversion(e),
            DeUsizeError::Read(e) => DeLayerError::Read(e),
        }
    }

    pub fn from_string(e: DeStringError) -> (r: Self)
        ensures
            r.fault() == e.fault(),
    {
        match e {
            DeStringError::Conversion(e) => DeLayerError::Conversion(e),
            DeStringError::Read(e) => DeLayerError::Read(e),
            DeStringError::Utf8(e) => DeLayerError::Utf8(e),
        }
    }
}

// ---- writers ----

pub open spec fn asset_models(s: Seq<Asset>) -> Seq<AssetModel> {
    s.map_values(|a: Asset| a@)
}

pub fn write_asset_pos(dst: &mut Vec<u8>, p: AssetPos)
    ensures
        final(dst)@ == old(dst)@ + enc_asset_pos(p),
{
    match p {
        AssetPos::Basic => write_u8(dst, TAG_BASIC),
        AssetPos::Index(x) => {
            write_u8(dst, TAG_INDEX);
            write_usize(dst, x);
            proof {
                assert(final(dst)@ =~= old(dst)@ + enc_asset_pos(p));
            }
        },
    }
}

pub fn write_raster_src(dst: &mut Vec<u8>, r: &RasterSrc)
    ensures
        final(dst)@ == old(dst)@ + enc_raster_src(r@),
{
    match r {
        RasterSrc::File(path) => {
            write_u8(dst, TAG_FILE);
            write_bytes(dst, path.as_slice());
            proof {
                assert(final(dst)@ =~= old(dst)@ + enc_raster_src(r@));
            }
        },
    }
}

pub fn write_opt_bytes(dst: &mut Vec<u8>, p: &Option<Vec<u8>>)
    ensures
        final(dst)@ == old(dst)@ + enc_opt_bytes(opt_bytes(*p)),
{
    match p {
        Some(b) => write_bytes(dst, b.as_slice()),
        None => {
            proof {
                assert(old(dst)@ =~= old(dst)@ + enc_opt_bytes(opt_bytes(*p)));
            }
        },
    }
}

pub fn write_shader_src(dst: &mut Vec<u8>, s: &ShaderSrc)
    ensures
        final(dst)@ == old(dst)@ + enc_shader_src(s@),
{
    let vs: u8 = if s.vs_path.is_some() {
        2
    } else {
        0
    };
    let fs: u8 = if s.fs_path.is_some() {
        1
    } else {
        0
    };
    write_u8(dst, vs + fs);
    write_opt_bytes(dst, &s.vs_path);
    write_opt_bytes(dst, &s.fs_path);
    proof {
        assert(final(dst)@ =~= old(dst)@ + enc_shader_src(s@));
    }
}

pub fn write_asset_content(dst: &mut Vec<u8>, c: &AssetContent)
    ensures
        final(dst)@ == old(dst)@ + enc_asset_content(c@),
{
    match c {
        AssetContent::Raster { src } => {
            write_u8(dst, TAG_RASTER);
            write_raster_src(dst, src);
        },
        AssetContent::Shader { src } => {
            write_u8(dst, TAG_SHADER);
            write_shader_src(dst, src);
        },
    }
    proof {
        assert(final(dst)@ =~= old(dst)@ + enc_asset_content(c@));
    }
}

pub fn write_asset(dst: &mut Vec<u8>, a: &Asset)
    ensures
        final(dst)@ == old(dst)@ + enc_asset(a@),
{
    write_str(dst, a.name.as_str());
    write_asset_content(dst, &a.data);
    proof {
        assert(final(dst)@ =~= old(dst)@ + enc_asset(a@));
    }
}

/// Writes the asset list: its length, then each asset.
pub fn write_assets(dst: &mut Vec<u8>, assets: &[Asset])
    ensures
        final(dst)@ == old(dst)@ + enc_assets(asset_models(assets@)),
{
    let ghost m = asset_models(assets@);
    write_usize(dst, assets.len());
    let ghost start = dst@;
    let mut i: usize = 0;
    while i < assets.len()
        invariant
            i <= assets.len(),
            m == asset_models(assets@),
            start == old(dst)@ + enc_usize(assets@.len() as usize),
            dst@ == start + enc_asset_seq(m.take(i as int)),
        decreases assets.len() - i,
    {
        proof {
            assert(m.take(i + 1).drop_last() =~= m.take(i as int));
        }
        write_asset(dst, &assets[i]);
        proof {
            assert(dst@ =~= start + enc_asset_seq(m.take(i + 1)));
        }
        i = i + 1;
    }
    proof {
        assert(m.take(assets.len() as int) =~= m);
        assert(final(dst)@ =~= old(dst)@ + enc_assets(m));
    }
}

pub fn write_effects(dst: &mut Vec<u8>, effects: &[Effect])
    ensures
        final(dst)@ == old(dst)@ + enc_effects(effects@),
{
    let ghost m = effects@;
    write_usize(dst, effects.len());
    let ghost start = dst@;
    let mut i: usize = 0;
    while i < effects.len()
        invariant
            i <= effects.len(),
            m == effects@,
            start == old(dst)@ + enc_usize(effects@.len() as usize),
            dst@ == start + enc_effect_seq(m.take(i as int)),
        decreases effects.len() - i,
    {
        proof {
            assert(m.take(i + 1).drop_last() =~= m.take(i as int));
        }
        write_asset_pos(dst, effects[i].asset);
        proof {
            assert(dst@ =~= start + enc_effect_seq(m.take(i + 1)));
        }
        i = i + 1;
    }
    proof {
        assert(m.take(effects.len() as int) =~= m);
        assert(final(dst)@ =~= old(dst)@ + enc_effects(m));
    }
}

pub fn blend_mode_code(m: BlendMode) -> (r: u8)
    ensures
        r == blend_code(m),
{
    match m {
        BlendMode::Alpha => 0,
        BlendMode::Additive => 1,
        BlendMode::Multiplied => 2,
        BlendMode::AddColors => 3,
        BlendMode::SubtractColors => 4,
        BlendMode::AlphaPremultiply => 5,
        BlendMode::Custom => 6,
        BlendMode::CustomSeparate => 7,
    }
}

pub fn write_blending(dst: &mut Vec<u8>, b: Blending)
    ensures
        final(dst)@ == old(dst)@ + enc_blending(b),
{
    write_u8(dst, blend_mode_code(b.mode));
    write_u8(dst, b.tint.r);
    write_u8(dst, b.tint.g);
    write_u8(dst, b.tint.b);
    write_u8(dst, b.tint.a);
    proof {
        assert(final(dst)@ =~= old(dst)@ + enc_blending(b));
    }
}

pub fn write_matrix(dst: &mut Vec<u8>, t: &[u32; 16])
    ensures
        final(dst)@ == old(dst)@ + enc_matrix(t@),
{
    let ghost m = t@;
    let ghost start = dst@;
    let mut i: usize = 0;
    while i < 16
        invariant
            i <= 16,
            m == t@,
            m.len() == 16,
            start == old(dst)@,
            dst@ == start + enc_matrix(m.take(i as int)),
        decreases 16 - i,
    {
        proof {
            assert(m.take(i + 1).drop_last() =~= m.take(i as int));
        }
        write_u32(dst, t[i]);
        proof {
            assert(dst@ =~= start + enc_matrix(m.take(i + 1)));
        }
        i = i + 1;
    }
    proof {
        assert(m.take(16) =~= m);
    }
}

/// The model of a list of layers is the model of each layer.
pub proof fn lemma_layers_model(s: Seq<Layer>)
    ensures
        layers_model(s).len() == s.len(),
        forall|i: int| 0 <= i < s.len() ==> #[trigger] layers_model(s)[i] == layer_model(s[i]),
    decreases s.len(),
{
    if s.len() > 0 {
        lemma_layers_model(s.subrange(0, s.len() - 1));
    }
}

pub fn write_layer(dst: &mut Vec<u8>, l: &Layer)
    ensures
        final(dst)@ == old(dst)@ + enc_layer(l@),
    decreases l,
{
    write_str(dst, l.name.as_str());
    write_content(dst, &l.content);
    write_effects(dst, l.effects.as_slice());
    write_blending(dst, l.blend);
    write_matrix(dst, &l.transform);
    proof {
        assert(final(dst)@ =~= old(dst)@ + enc_layer(l@));
    }
}

pub fn write_content(dst: &mut Vec<u8>, c: &LayerContent)
    ensures
        final(dst)@ == old(dst)@ + enc_content(c@),
    decreases c,
{
    match c {
        LayerContent::Unique { image } => {
            write_u8(dst, TAG_UNIQUE);
            write_bytes(dst, image.as_slice());
        },
        LayerContent::Asset { pos } => {
            write_u8(dst, TAG_ASSET);
            write_asset_pos(dst, *pos);
        },
        LayerContent::Group { children } => {
            write_u8(dst, TAG_GROUP);
            write_layer_list(dst, children);
            proof {
                lemma_layers_model(children@);
            }
        },
    }
    proof {
        assert(final(dst)@ =~= old(dst)@ + enc_content(c@));
    }
}

/// Writes a list of layers: its length, then each layer.
pub fn write_layer_list(dst: &mut Vec<u8>, list: &Vec<Layer>)
    ensures
        final(dst)@ == old(dst)@ + enc_usize(list@.len() as usize) + enc_layer_seq(
            layers_model(list@),
        ),
    decreases list,
{
    let ghost m = layers_model(list@);
    proof {
        lemma_layers_model(list@);
    }
    write_usize(dst, list.len());
    let ghost start = dst@;
    let mut i: usize = 0;
    while i < list.len()
        invariant
            i <= list.len(),
            m == layers_model(list@),
            m.len() == list@.len(),
            forall|j: int| 0 <= j < list@.len() ==> #[trigger] m[j] == layer_model(list@[j]),
            start == old(dst)@ + enc_usize(list@.len() as usize),
            dst@ == start + enc_layer_seq(m.take(i as int)),
        decreases list.len() - i,
    {
        proof {
            assert(m.take(i + 1).subrange(0, i as int) =~= m.take(i as int));
        }
        write_layer(dst, &list[i]);
        proof {
            assert(dst@ =~= start + enc_layer_seq(m.take(i + 1)));
        }
        i = i + 1;
    }
    proof {
        assert(m.take(list.len() as int) =~= m);
    }
}

/// Writes the layer stack: its layers, then the active index.
pub fn write_layers(dst: &mut Vec<u8>, list: &Vec<Layer>, curr: usize)
    ensures
        final(dst)@ == old(dst)@ + enc_layers(layers_model(list@), curr),
{
    proof {
        lemma_layers_model(list@);
    }
    write_layer_list(dst, list);
    write_usize(dst, curr);
    proof {
        assert(final(dst)@ =~= old(dst)@ + enc_layers(layers_model(list@), curr));
    }
}

// ---- readers ----

pub fn read_asset_pos(src: &[u8], pos: usize) -> (r: Result<(AssetPos, usize), DeUsizeError>)
    ensures
        outcome(r) == dec_asset_pos(src@, pos as int),
{
    let (t, p) = match read_u8(src, pos) {
        Ok(x) => x,
        Err(e) => return Err(DeUsizeError::Read(e)),
    };
    if t == TAG_BASIC {
        Ok((AssetPos::Basic, p))
    } else if t == TAG_INDEX {
        let (x, q) = read_usize(src, p)?;
        Ok((AssetPos::Index(x), q))
    } else {
        Err(DeUsizeError::Read(ReadError::Invalid))
    }
}

pub fn read_raster_src(src: &[u8], pos: usize) -> (r: Result<(RasterSrc, usize), DeEnumError>)
    ensures
        outcome_view(r) == dec_raster_src(src@, pos as int),
{
    let (t, p) = match read_u8(src, pos) {
        Ok(x) => x,
        Err(e) => return Err(DeEnumError::Read(e)),
    };
    if t == TAG_FILE {
        match read_bytes(src, p) {
            Ok((b, q)) => Ok((RasterSrc::File(b), q)),
            Err(e) => Err(DeEnumError::from_usize(e)),
        }
    } else {
        Err(DeEnumError::UnknownVariant(t))
    }
}

pub fn read_opt_bytes(src: &[u8], pos: usize, present: bool) -> (r: Result<
    (Option<Vec<u8>>, usize),
    DeUsizeError,
>)
    ensures
        outcome_map(r, |v: Option<Vec<u8>>| opt_bytes(v)) == dec_opt_bytes(src@, pos as int, present),
{
    if present {
        let (b, q) = read_bytes(src, pos)?;
        Ok((Some(b), q))
    } else {
        Ok((None, pos))
    }
}

pub fn read_shader_src(src: &[u8], pos: usize) -> (r: Result<(ShaderSrc, usize), DeEnumError>)
    ensures
        outcome_view(r) == dec_shader_src(src@, pos as int),
{
    let (flags, p) = match read_u8(src, pos) {
        Ok(x) => x,
        Err(e) => return Err(DeEnumError::Read(e)),
    };
    if flags > 3 {
        return Err(DeEnumError::UnknownVariant(flags));
    }
    let (vs_path, q) = match read_opt_bytes(src, p, flags >= 2) {
        Ok(x) => x,
        Err(e) => return Err(DeEnumError::from_usize(e)),
    };
    let (fs_path, r) = match read_opt_bytes(src, q, flags % 2 == 1) {
        Ok(x) => x,
        Err(e) => return Err(DeEnumError::from_usize(e)),
    };
    Ok((ShaderSrc { vs_path, fs_path }, r))
}

pub fn read_asset_content(src: &[u8], pos: usize) -> (r: Result<(AssetContent, usize), DeEnumError>)
    ensures
        outcome_view(r) == dec_asset_content(src@, pos as int),
{
    let (t, p) = match read_u8(src, pos) {
        Ok(x) => x,
        Err(e) => return Err(DeEnumError::Read(e)),
    };
    if t == TAG_RASTER {
        let (r, q) = read_raster_src(src, p)?;
        Ok((AssetContent::Raster { src: r }, q))
    } else if t == TAG_SHADER {
        let (s, q) = read_shader_src(src, p)?;
        Ok((AssetContent::Shader { src: s }, q))
    } else {
        Err(DeEnumError::UnknownVariant(t))
    }
}

pub fn read_asset(src: &[u8], pos: usize) -> (r: Result<(Asset, usize), DeStrEnumError>)
    ensures
        outcome_view(r) == dec_asset(src@, pos as int),
{
    let (name, p) = match read_string(src, pos) {
        Ok(x) => x,
        Err(e) => return Err(DeStrEnumError::from_string(e)),
    };
    match read_asset_content(src, p) {
        Ok((data, q)) => Ok((Asset { name, data }, q)),
        Err(e) => Err(DeStrEnumError::from_enum(e)),
    }
}

/// Once a run of assets fails, every longer run fails the same way.
pub proof fn lemma_asset_seq_fails_on(s: Seq<u8>, pos: int, k: nat, m: nat)
    requires
        dec_asset_seq(s, pos, k) is Err,
        k <= m,
    ensures
        dec_asset_seq(s, pos, m) == dec_asset_seq(s, pos, k),
    decreases m,
{
    if m > k {
        lemma_asset_seq_fails_on(s, pos, k, (m - 1) as nat);
    }
}

/// Reads the asset list: its length, then each asset.
pub fn read_assets(src: &[u8], pos: usize) -> (r: Result<(Vec<Asset>, usize), DeStrEnumError>)
    ensures
        outcome_map(r, |v: Vec<Asset>| asset_models(v@)) == dec_assets(src@, pos as int),
{
    let (n, p0) = match read_usize(src, pos) {
        Ok(x) => x,
        Err(e) => return Err(DeStrEnumError::from_usize(e)),
    };
    let mut list: Vec<Asset> = Vec::new();
    let mut p = p0;
    let mut i: usize = 0;
    proof {
        assert(asset_models(list@) =~= Seq::<AssetModel>::empty());
    }
    while i < n
        invariant
            i <= n,
            dec_usize(src@, pos as int) == Ok::<(usize, int), Fault>((n, p0 as int)),
            dec_asset_seq(src@, p0 as int, i as nat) == Ok::<(Seq<AssetModel>, int), Fault>(
                (asset_models(list@), p as int),
            ),
        decreases n - i,
    {
        match read_asset(src, p) {
            Ok((a, q)) => {
                proof {
                    assert(asset_models(list@.push(a)) =~= asset_models(list@).push(a@));
                }
                list.push(a);
                p = q;
            },
            Err(e) => {
                proof {
                    lemma_asset_seq_fails_on(src@, p0 as int, (i + 1) as nat, n as nat);
                }
                return Err(e);
            },
        }
        i = i + 1;
    }
    Ok((list, p))
}

pub fn read_effect_list(src: &[u8], pos: usize) -> (r: Result<(Vec<Effect>, usize), DeUsizeError>)
    ensures
        outcome_view(r) == dec_effects(src@, pos as int),
        r matches Ok((_, q)) ==> pos < q <= src@.len(),
{
    let (n, p0) = read_usize(src, pos)?;
    let mut list: Vec<Effect> = Vec::new();
    let mut p = p0;
    let mut i: usize = 0;
    while i < n
        invariant
            i <= n,
            dec_usize(src@, pos as int) == Ok::<(usize, int), Fault>((n, p0 as int)),
            pos < p0 <= p <= src@.len(),
            dec_effect_seq(src@, p0 as int, i as nat) == Ok::<(Seq<Effect>, int), Fault>(
                (list@, p as int),
            ),
        decreases n - i,
    {
        match read_asset_pos(src, p) {
            Ok((a, q)) => {
                list.push(Effect { asset: a });
                p = q;
            },
            Err(e) => {
                proof {
                    lemma_effect_seq_fails_on(src@, p0 as int, (i + 1) as nat, n as nat);
                }
                return Err(e);
            },
        }
        i = i + 1;
    }
    Ok((list, p))
}

/// Once a run of effects fails, every longer run fails the same way.
pub proof fn lemma_effect_seq_fails_on(s: Seq<u8>, pos: int, k: nat, m: nat)
    requires
        dec_effect_seq(s, pos, k) is Err,
        k <= m,
    ensures
        dec_effect_seq(s, pos, m) == dec_effect_seq(s, pos, k),
    decreases m,
{
    if m > k {
        lemma_effect_seq_fails_on(s, pos, k, (m - 1) as nat);
    }
}

pub fn read_blending(src: &[u8], pos: usize) -> (r: Result<(Blending, usize), ReadError>)
    ensures
        outcome(r) == dec_blending(src@, pos as int),
        r matches Ok((_, q)) ==> pos < q <= src@.len(),
{
    let (code, p) = read_u8(src, pos)?;
    let mode = if code == 0 {
        BlendMode::Alpha
    } else if code == 1 {
        BlendMode::Additive
    } else if code == 2 {
        BlendMode::Multiplied
    } else if code == 3 {
        BlendMode::AddColors
    } else if code == 4 {
        BlendMode::SubtractColors
    } else if code == 5 {
        BlendMode::AlphaPremultiply
    } else if code == 6 {
        BlendMode::Custom
    } else if code == 7 {
        BlendMode::CustomSeparate
    } else {
        return Err(ReadError::UnknownVariant(code));
    };
    if src.len() >= 4 && p <= src.len() - 4 {
        let tint = Color { r: src[p], g: src[p + 1], b: src[p + 2], a: src[p + 3] };
        Ok((Blending { mode, tint }, p + 4))
    } else {
        Err(ReadError::UnexpectedEof)
    }
}

/// Once a run of matrix entries fails, every longer run fails the same way.
pub proof fn lemma_matrix_fails_on(s: Seq<u8>, pos: int, k: nat, m: nat)
    requires
        dec_matrix(s, pos, k) is Err,
        k <= m,
    ensures
        dec_matrix(s, pos, m) == dec_matrix(s, pos, k),
    decreases m,
{
    if m > k {
        lemma_matrix_fails_on(s, pos, k, (m - 1) as nat);
    }
}

pub fn read_matrix(src: &[u8], pos: usize) -> (r: Result<([u32; 16], usize), ReadError>)
    ensures
        outcome_view(r) == dec_matrix(src@, pos as int, 16),
        r matches Ok((_, q)) ==> pos < q <= src@.len(),
{
    let mut t: [u32; 16] = [0u32; 16];
    let mut p = pos;
    let mut i: usize = 0;
    proof {
        assert(t@.take(0) =~= Seq::<u32>::empty());
    }
    while i < 16
        invariant
            i <= 16,
            t@.len() == 16,
            pos + 4 * i == p,
            p <= src@.len() || i == 0,
            dec_matrix(src@, pos as int, i as nat) == Ok::<(Seq<u32>, int), Fault>(
                (t@.take(i as int), p as int),
            ),
        decreases 16 - i,
    {
        match read_u32(src, p) {
            Ok((x, q)) => {
                let ghost before = t@;
                t[i] = x;
                proof {
                    assert(t@.take(i + 1) =~= before.take(i as int).push(x));
                }
                p = q;
            },
            Err(e) => {
                proof {
                    lemma_matrix_fails_on(src@, pos as int, (i + 1) as nat, 16);
                }
                return Err(e);
            },
        }
        i = i + 1;
    }
    proof {
        assert(t@.take(16) =~= t@);
    }
    Ok((t, p))
}

/// Once a run of layers fails, every longer run fails the same way.
pub proof fn lemma_layer_seq_fails_on(s: Seq<u8>, pos: int, k: nat, m: nat)
    requires
        dec_layer_seq(s, pos, k) is Err,
        k <= m,
    ensures
        dec_layer_seq(s, pos, m) == dec_layer_seq(s, pos, k),
    decreases m,
{
    if m > k {
        lemma_layer_seq_fails_on(s, pos, k, (m - 1) as nat);
    }
}

/// The model of a list grown by one layer.
pub proof fn lemma_layers_model_push(s: Seq<Layer>, l: Layer)
    ensures
        layers_model(s.push(l)) == layers_model(s).push(layer_model(l)),
{
    assert(s.push(l).subrange(0, s.len() as int) =~= s);
}

pub fn read_layer(src: &[u8], pos: usize) -> (r: Result<(Layer, usize), DeLayerError>)
    ensures
        outcome_view(r) == dec_layer(src@, pos as int),
        r matches Ok((_, q)) ==> pos < q <= src@.len(),
    decreases src@.len() - pos, 0int, 0nat,
{
    let (name, p1) = match read_string(src, pos) {
        Ok(x) => x,
        Err(e) => return Err(DeLayerError::from_string(e)),
    };
    let (content, p2) = read_content(src, p1)?;
    let (effects, p3) = match read_effect_list(src, p2) {
        Ok(x) => x,
        Err(e) => return Err(DeLayerError::from_usize(e)),
    };
    let (blend, p4) = match read_blending(src, p3) {
        Ok(x) => x,
        Err(e) => return Err(DeLayerError::Read(e)),
    };
    let (transform, p5) = match read_matrix(src, p4) {
        Ok(x) => x,
        Err(e) => return Err(DeLayerError::Read(e)),
    };
    Ok((Layer { name, content, effects, blend, transform }, p5))
}

pub fn read_content(src: &[u8], pos: usize) -> (r: Result<(LayerContent, usize), DeLayerError>)
    ensures
        outcome_view(r) == dec_content(src@, pos as int),
        r matches Ok((_, q)) ==> pos < q <= src@.len(),
    decreases src@.len() - pos, 0int, 0nat,
{
    let (t, p) = match read_u8(src, pos) {
        Ok(x) => x,
        Err(e) => return Err(DeLayerError::Read(e)),
    };
    if t == TAG_UNIQUE {
        match read_bytes(src, p) {
            Ok((image, q)) => Ok((LayerContent::Unique { image }, q)),
            Err(e) => Err(DeLayerError::from_usize(e)),
        }
    } else if t == TAG_ASSET {
        match read_asset_pos(src, p) {
            Ok((a, q)) => Ok((LayerContent::Asset { pos: a }, q)),
            Err(e) => Err(DeLayerError::from_usize(e)),
        }
    } else if t == TAG_GROUP {
        let (n, q) = match read_usize(src, p) {
            Ok(x) => x,
            Err(e) => return Err(DeLayerError::from_usize(e)),
        };
        let (children, r) = read_layer_seq(src, q, n)?;
        Ok((LayerContent::Group { children }, r))
    } else {
        Err(DeLayerError::UnknownVariant(t))
    }
}

/// Reads `n` layers, one after another.
fn read_layer_seq(src: &[u8], pos: usize, n: usize) -> (r: Result<(Vec<Layer>, usize), DeLayerError>)
    requires
        pos <= src@.len(),
    ensures
        outcome_map(r, |v: Vec<Layer>| layers_model(v@)) == dec_layer_seq(src@, pos as int, n as nat),
        r matches Ok((_, q)) ==> pos <= q <= src@.len(),
    decreases src@.len() - pos, 1int, 0nat,
{
    let mut list: Vec<Layer> = Vec::new();
    let mut p = pos;
    let mut i: usize = 0;
    while i < n
        invariant
            i <= n,
            pos <= p <= src@.len(),
            dec_layer_seq(src@, pos as int, i as nat) == Ok::<(Seq<LayerModel>, int), Fault>(
                (layers_model(list@), p as int),
            ),
        decreases n - i,
    {
        match read_layer(src, p) {
            Ok((l, q)) => {
                proof {
                    lemma_layers_model_push(list@, l);
                }
                list.push(l);
                p = q;
            },
            Err(e) => {
                proof {
                    lemma_layer_seq_fails_on(src@, pos as int, (i + 1) as nat, n as nat);
                }
                return Err(e);
            },
        }
        i = i + 1;
    }
    Ok((list, p))
}

/// Reads the layer stack: its layers, then the active index.
pub fn read_layers(src: &[u8], pos: usize) -> (r: Result<((Vec<Layer>, usize), usize), DeLayerError>)
    ensures
        outcome_map(r, |v: (Vec<Layer>, usize)| (layers_model(v.0@), v.1)) == dec_layers(
            src@,
            pos as int,
        ),
{
    let (n, p) = match read_usize(src, pos) {
        Ok(x) => x,
        Err(e) => return Err(DeLayerError::from_usize(e)),
    };
    let (list, q) = read_layer_seq(src, p, n)?;
    let (curr, r) = match read_usize(src, q) {
        Ok(x) => x,
        Err(e) => return Err(DeLayerError::from_usize(e)),
    };
    Ok(((list, curr), r))
}

// ---- the whole document ----

/// A saved document: its assets, then its layer stack.
pub open spec fn enc_document(assets: Seq<AssetModel>, list: Seq<LayerModel>, curr: usize) -> Seq<u8> {
    enc_assets(assets) + enc_layers(list, curr)
}

/// What a document holds: its assets, its layers and the active index.
/// Bytes after the layer stack are not read.
pub open spec fn dec_document(s: Seq<u8>) -> Result<(Seq<AssetModel>, Seq<LayerModel>, usize), Fault> {
    match dec_assets(s, 0) {
        Ok((assets, p)) => match dec_layers(s, p) {
            Ok(((list, curr), _)) => Ok((assets, list, curr)),
            Err(f) => Err(f),
        },
        Err(f) => Err(f),
    }
}

/// A document as read: its assets, its layers and the active index, not yet
/// checked against each other.
#[derive(Debug)]
pub struct Document {
    pub assets: Vec<Asset>,
    pub layers: Vec<Layer>,
    pub curr: usize,
}

/// Why reading a document failed.
#[derive(Debug)]
pub enum ReadDocumentError {
    Assets(DeStrEnumError),
    Layers(DeLayerError),
}

impl Fallible for ReadDocumentError {
    open spec fn fault(&self) -> Fault {
        match self {
            ReadDocumentError::Assets(e) => e.fault(),
            ReadDocumentError::Layers(e) => e.fault(),
        }
    }
}

/// Writes a document: its assets, then its layer stack.
pub fn write_document(dst: &mut Vec<u8>, assets: &[Asset], layers: &Vec<Layer>, curr: usize)
    ensures
        final(dst)@ == old(dst)@ + enc_document(asset_models(assets@), layers_model(layers@), curr),
{
    write_assets(dst, assets);
    write_layers(dst, layers, curr);
    proof {
        assert(final(dst)@ =~= old(dst)@ + enc_document(
            asset_models(assets@),
            layers_model(layers@),
            curr,
        ));
    }
}

/// Reads a document from the start of `src`.
pub fn read_document(src: &[u8]) -> (r: Result<Document, ReadDocumentError>)
    ensures
        match r {
            Ok(d) => dec_document(src@) == Ok::<(Seq<AssetModel>, Seq<LayerModel>, usize), Fault>(
                (asset_models(d.assets@), layers_model(d.layers@), d.curr),
            ),
            Err(e) => dec_document(src@) == Err::<(Seq<AssetModel>, Seq<LayerModel>, usize), Fault>(
                e.fault(),
            ),
        },
{
    let (assets, p) = match read_assets(src, 0) {
        Ok(x) => x,
        Err(e) => return Err(ReadDocumentError::Assets(e)),
    };
    let ((layers, curr), _) = match read_layers(src, p) {
        Ok(x) => x,
        Err(e) => return Err(ReadDocumentError::Layers(e)),
    };
    Ok(Document { assets, layers, curr })
}

} // verus!
