//! The byte-level building blocks of the document format: little-endian
//! integers, length-prefixed byte strings and UTF-8 text.
//!
//! Every reader takes the whole input and a position and returns the value
//! with the position after it. Its contract relates it to a `dec_*` spec
//! function over the same input and position; every writer appends the bytes
//! of an `enc_*` spec function.

use vstd::prelude::*;

use crate::std_bridge::string_from_utf8;
use std::num::TryFromIntError;
use std::string::FromUtf8Error;
use vstd::bytes::{
    lemma_auto_spec_u32_to_from_le_bytes, lemma_auto_spec_u64_to_from_le_bytes,
    spec_u32_from_le_bytes, spec_u32_to_le_bytes, spec_u64_from_le_bytes, spec_u64_to_le_bytes,
    u32_from_le_bytes, u32_to_le_bytes, u64_from_le_bytes, u64_to_le_bytes,
};
use vstd::slice::{slice_subrange, slice_to_vec};
use vstd::utf8::{decode_utf8, encode_utf8, encode_utf8_decode_utf8, encode_utf8_valid_utf8, valid_utf8};

verus! {

/// What went wrong while reading, leaving out the error payloads.
pub enum Fault {
    /// The input ended early.
    Eof,
    /// A stored size does not fit in `usize`.
    Conversion,
    /// Stored text is not UTF-8.
    Utf8,
    /// A stored position tag is not recognized.
    Invalid,
    /// A stored variant tag of a record is not recognized.
    UnknownVariant(u8),
    /// A stored enumeration value, such as a blend mode, is not recognized.
    UnknownValue(u8),
}

/// Errors that say which [`Fault`] they stand for. Within one error type,
/// each fault comes from exactly one variant.
pub trait Fallible {
    spec fn fault(&self) -> Fault;
}

/// A reading from the input: the value and the position after it, or the
/// fault.
pub open spec fn outcome<T, E: Fallible>(r: Result<(T, usize), E>) -> Result<(T, int), Fault> {
    match r {
        Ok((v, p)) => Ok((v, p as int)),
        Err(e) => Err(e.fault()),
    }
}

/// Like [`outcome`], with the value taken by its view.
pub open spec fn outcome_view<T: View, E: Fallible>(r: Result<(T, usize), E>) -> Result<
    (T::V, int),
    Fault,
> {
    match r {
        Ok((v, p)) => Ok((v@, p as int)),
        Err(e) => Err(e.fault()),
    }
}

/// Like [`outcome`], with the value taken through `f`.
pub open spec fn outcome_map<T, M, E: Fallible>(r: Result<(T, usize), E>, f: spec_fn(T) -> M) -> Result<
    (M, int),
    Fault,
> {
    match r {
        Ok((v, p)) => Ok((f(v), p as int)),
        Err(e) => Err(e.fault()),
    }
}

/// Why reading bytes failed.
#[derive(Debug, Clone, Copy, PartialEq, Eq, Hash, Structural)]
pub enum ReadError {
    /// The input ended before the value did.
    UnexpectedEof,
    /// A position tag is neither `*` nor `#`: the file is invalid or
    /// corrupted.
    Invalid,
    /// A stored enumeration value is not known.
    UnknownVariant(u8),
}

impl Fallible for ReadError {
    open spec fn fault(&self) -> Fault {
        match self {
            ReadError::UnexpectedEof => Fault::Eof,
            ReadError::Invalid => Fault::Invalid,
            ReadError::UnknownVariant(x) => Fault::UnknownValue(*x),
        }
    }
}

/// Why reading a size failed.
#[derive(Debug)]
pub enum DeUsizeError {
    Conversion(TryFromIntError),
    Read(ReadError),
}

impl Fallible for DeUsizeError {
    open spec fn fault(&self) -> Fault {
        match self {
            DeUsizeError::Conversion(_) => Fault::Conversion,
            DeUsizeError::Read(e) => e.fault(),
        }
    }
}

/// Why reading text failed.
#[derive(Debug)]
pub enum DeStringError {
    Conversion(TryFromIntError),
    Read(ReadError),
    Utf8(FromUtf8Error),
}

impl Fallible for DeStringError {
    open spec fn fault(&self) -> Fault {
        match self {
            DeStringError::Conversion(_) => Fault::Conversion,
            DeStringError::Read(e) => e.fault(),
            DeStringError::Utf8(_) => Fault::Utf8,
        }
    }
}

impl From<DeUsizeError> for DeStringError {
    fn from(e: DeUsizeError) -> (r: Self) {
        match e {
            DeUsizeError::Conversion(e) => DeStringError::Conversion(e),
            DeUsizeError::Read(e) => DeStringError::Read(e),
        }
    }
}

impl vstd::std_specs::convert::FromSpecImpl<DeUsizeError> for DeStringError {
    open spec fn obeys_from_spec() -> bool {
        true
    }

    open spec fn from_spec(e: DeUsizeError) -> DeStringError {
        match e {
            DeUsizeError::Conversion(e) => DeStringError::Conversion(e),
            DeUsizeError::Read(e) => DeStringError::Read(e),
        }
    }
}

// ---- encodings ----

pub open spec fn enc_u8(b: u8) -> Seq<u8> {
    seq![b]
}

pub open spec fn enc_u32(x: u32) -> Seq<u8> {
    spec_u32_to_le_bytes(x)
}

pub open spec fn enc_u64(x: u64) -> Seq<u8> {
    spec_u64_to_le_bytes(x)
}

/// A size is stored as a 64-bit little-endian integer on every system.
pub open spec fn enc_usize(x: usize) -> Seq<u8> {
    enc_u64(x as u64)
}

/// Bytes are stored as their count followed by the bytes themselves.
pub open spec fn enc_bytes(b: Seq<u8>) -> Seq<u8> {
    enc_usize(b.len() as usize) + b
}

/// Text is stored as its UTF-8 bytes.
pub open spec fn enc_str(s: Seq<char>) -> Seq<u8> {
    enc_bytes(encode_utf8(s))
}

// ---- decodings ----

pub open spec fn dec_u8(s: Seq<u8>, pos: int) -> Result<(u8, int), Fault> {
    if 0 <= pos < s.len() {
        Ok((s[pos], pos + 1))
    } else {
        Err(Fault::Eof)
    }
}

pub open spec fn dec_u32(s: Seq<u8>, pos: int) -> Result<(u32, int), Fault> {
    if 0 <= pos && pos + 4 <= s.len() {
        Ok((spec_u32_from_le_bytes(s.subrange(pos, pos + 4)), pos + 4))
    } else {
        Err(Fault::Eof)
    }
}

pub open spec fn dec_u64(s: Seq<u8>, pos: int) -> Result<(u64, int), Fault> {
    if 0 <= pos && pos + 8 <= s.len() {
        Ok((spec_u64_from_le_bytes(s.subrange(pos, pos + 8)), pos + 8))
    } else {
        Err(Fault::Eof)
    }
}

pub open spec fn dec_usize(s: Seq<u8>, pos: int) -> Result<(usize, int), Fault> {
    match dec_u64(s, pos) {
        Ok((v, p)) => if v <= usize::MAX {
            Ok((v as usize, p))
        } else {
            Err(Fault::Conversion)
        },
        Err(f) => Err(f),
    }
}

pub open spec fn dec_bytes(s: Seq<u8>, pos: int) -> Result<(Seq<u8>, int), Fault> {
    match dec_usize(s, pos) {
        Ok((len, p)) => if p + len <= s.len() {
            Ok((s.subrange(p, p + len), p + len))
        } else {
            Err(Fault::Eof)
        },
        Err(f) => Err(f),
    }
}

pub open spec fn dec_str(s: Seq<u8>, pos: int) -> Result<(Seq<char>, int), Fault> {
    match dec_bytes(s, pos) {
        Ok((b, p)) => if valid_utf8(b) {
            Ok((decode_utf8(b), p))
        } else {
            Err(Fault::Utf8)
        },
        Err(f) => Err(f),
    }
}

// ---- writers ----

pub fn write_u8(dst: &mut Vec<u8>, b: u8)
    ensures
        final(dst)@ == old(dst)@ + enc_u8(b),
{
    dst.push(b);
    proof {
        assert(final(dst)@ =~= old(dst)@ + enc_u8(b));
    }
}

pub fn write_u32(dst: &mut Vec<u8>, x: u32)
    ensures
        final(dst)@ == old(dst)@ + enc_u32(x),
{
    let mut b = u32_to_le_bytes(x);
    dst.append(&mut b);
}

pub fn write_u64(dst: &mut Vec<u8>, x: u64)
    ensures
        final(dst)@ == old(dst)@ + enc_u64(x),
{
    let mut b = u64_to_le_bytes(x);
    dst.append(&mut b);
}

pub fn write_usize(dst: &mut Vec<u8>, x: usize)
    ensures
        final(dst)@ == old(dst)@ + enc_usize(x),
{
    write_u64(dst, x as u64);
}

pub fn write_bytes(dst: &mut Vec<u8>, b: &[u8])
    ensures
        final(dst)@ == old(dst)@ + enc_bytes(b@),
{
    write_usize(dst, b.len());
    let mut v = slice_to_vec(b);
    dst.append(&mut v);
    proof {
        assert(final(dst)@ =~= old(dst)@ + enc_bytes(b@));
    }
}

pub fn write_str(dst: &mut Vec<u8>, s: &str)
    ensures
        final(dst)@ == old(dst)@ + enc_str(s@),
{
    write_bytes(dst, s.as_bytes());
}

// ---- readers ----

pub fn read_u8(src: &[u8], pos: usize) -> (r: Result<(u8, usize), ReadError>)
    ensures
        outcome(r) == dec_u8(src@, pos as int),
{
    if pos < src.len() {
        Ok((src[pos], pos + 1))
    } else {
        Err(ReadError::UnexpectedEof)
    }
}

pub fn read_u32(src: &[u8], pos: usize) -> (r: Result<(u32, usize), ReadError>)
    ensures
        outcome(r) == dec_u32(src@, pos as int),
{
    if src.len() >= 4 && pos <= src.len() - 4 {
        let b = slice_subrange(src, pos, pos + 4);
        Ok((u32_from_le_bytes(b), pos + 4))
    } else {
        Err(ReadError::UnexpectedEof)
    }
}

pub fn read_u64(src: &[u8], pos: usize) -> (r: Result<(u64, usize), ReadError>)
    ensures
        outcome(r) == dec_u64(src@, pos as int),
{
    if src.len() >= 8 && pos <= src.len() - 8 {
        let b = slice_subrange(src, pos, pos + 8);
        Ok((u64_from_le_bytes(b), pos + 8))
    } else {
        Err(ReadError::UnexpectedEof)
    }
}

pub fn read_usize(src: &[u8], pos: usize) -> (r: Result<(usize, usize), DeUsizeError>)
    ensures
        outcome(r) == dec_usize(src@, pos as int),
{
    match read_u64(src, pos) {
        Err(e) => Err(DeUsizeError::Read(e)),
        Ok((v, p)) => match usize::try_from(v) {
            Ok(x) => Ok((x, p)),
            Err(e) => Err(DeUsizeError::Conversion(e)),
        },
    }
}

pub fn read_bytes(src: &[u8], pos: usize) -> (r: Result<(Vec<u8>, usize), DeUsizeError>)
    ensures
        outcome_view(r) == dec_bytes(src@, pos as int),
{
    let (len, p) = read_usize(src, pos)?;
    if len <= src.len() - p {
        let v = slice_to_vec(slice_subrange(src, p, p + len));
        Ok((v, p + len))
    } else {
        Err(DeUsizeError::Read(ReadError::UnexpectedEof))
    }
}

pub fn read_string(src: &[u8], pos: usize) -> (r: Result<(String, usize), DeStringError>)
    ensures
        outcome_view(r) == dec_str(src@, pos as int),
{
    let (bytes, p) = match read_bytes(src, pos) {
        Ok(x) => x,
        Err(e) => return Err(DeStringError::from(e)),
    };
    match string_from_utf8(bytes) {
        Ok(s) => Ok((s, p)),
        Err(e) => Err(DeStringError::Utf8(e)),
    }
}

// ---- round trips ----

/// Reading at `pos` sees `e` when `e` is stored there.
pub open spec fn stored_at(s: Seq<u8>, pos: int, e: Seq<u8>) -> bool {
    0 <= pos && pos + e.len() <= s.len() && s.subrange(pos, pos + e.len()) == e
}

pub proof fn lemma_stored_split(s: Seq<u8>, pos: int, a: Seq<u8>, b: Seq<u8>)
    requires
        stored_at(s, pos, a + b),
    ensures
        stored_at(s, pos, a),
        stored_at(s, pos + a.len(), b),
{
    let whole = s.subrange(pos, pos + (a + b).len());
    assert(whole == a + b);
    assert forall|i: int| 0 <= i < a.len() implies #[trigger] s.subrange(pos, pos + a.len())[i]
        == a[i] by {
        assert(whole[i] == s[pos + i]);
        assert((a + b)[i] == a[i]);
    }
    assert(s.subrange(pos, pos + a.len()) =~= a);
    assert forall|i: int| 0 <= i < b.len() implies #[trigger] s.subrange(
        pos + a.len(),
        pos + a.len() + b.len(),
    )[i] == b[i] by {
        assert(whole[a.len() + i] == s[pos + a.len() + i]);
        assert((a + b)[a.len() + i] == b[i]);
    }
    assert(s.subrange(pos + a.len(), pos + a.len() + b.len()) =~= b);
}

pub proof fn lemma_u8_round_trip(s: Seq<u8>, pos: int, b: u8)
    requires
        stored_at(s, pos, enc_u8(b)),
    ensures
        dec_u8(s, pos) == Ok::<(u8, int), Fault>((b, pos + 1)),
{
    assert(s[pos] == s.subrange(pos, pos + 1)[0]);
}

pub proof fn lemma_u32_round_trip(s: Seq<u8>, pos: int, x: u32)
    requires
        stored_at(s, pos, enc_u32(x)),
    ensures
        enc_u32(x).len() == 4,
        dec_u32(s, pos) == Ok::<(u32, int), Fault>((x, pos + 4)),
{
    lemma_auto_spec_u32_to_from_le_bytes();
}

pub proof fn lemma_u64_round_trip(s: Seq<u8>, pos: int, x: u64)
    requires
        stored_at(s, pos, enc_u64(x)),
    ensures
        enc_u64(x).len() == 8,
        dec_u64(s, pos) == Ok::<(u64, int), Fault>((x, pos + 8)),
{
    lemma_auto_spec_u64_to_from_le_bytes();
}

pub proof fn lemma_usize_round_trip(s: Seq<u8>, pos: int, x: usize)
    requires
        stored_at(s, pos, enc_usize(x)),
    ensures
        enc_usize(x).len() == 8,
        dec_usize(s, pos) == Ok::<(usize, int), Fault>((x, pos + 8)),
{
    lemma_u64_round_trip(s, pos, x as u64);
}

pub proof fn lemma_bytes_round_trip(s: Seq<u8>, pos: int, b: Seq<u8>)
    requires
        stored_at(s, pos, enc_bytes(b)),
        b.len() <= usize::MAX,
    ensures
        enc_bytes(b).len() == 8 + b.len(),
        dec_bytes(s, pos) == Ok::<(Seq<u8>, int), Fault>((b, pos + 8 + b.len())),
{
    lemma_stored_split(s, pos, enc_usize(b.len() as usize), b);
    lemma_usize_round_trip(s, pos, b.len() as usize);
}

pub proof fn lemma_str_round_trip(s: Seq<u8>, pos: int, t: Seq<char>)
    requires
        stored_at(s, pos, enc_str(t)),
        encode_utf8(t).len() <= usize::MAX,
    ensures
        enc_str(t).len() == 8 + encode_utf8(t).len(),
        dec_str(s, pos) == Ok::<(Seq<char>, int), Fault>((t, pos + enc_str(t).len())),
{
    lemma_bytes_round_trip(s, pos, encode_utf8(t));
    encode_utf8_valid_utf8(t);
    encode_utf8_decode_utf8(t);
}

} // verus!
