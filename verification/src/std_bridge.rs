//! Contracts for the few standard-library items that the verified code
//! calls and that vstd leaves unspecified.

use vstd::prelude::*;

use crate::text::{decimal, signed_value, unsigned_value};
use std::collections::TryReserveError;
use std::num::ParseIntError;
use std::string::FromUtf8Error;
use vstd::utf8::{decode_utf8, valid_utf8};

verus! {

/// `<TryReserveError as Clone>::clone`. Nothing is claimed of the copy: the
/// type is opaque here and the library never inspects it.
pub assume_specification[ <TryReserveError as Clone>::clone ](e: &TryReserveError) -> TryReserveError;

/// `std::num::ParseIntError`, carried through unread.
#[verifier::external_type_specification]
#[verifier::external_body]
pub struct ExParseIntError(ParseIntError);

/// `<usize as FromStr>::from_str`. Its documentation: the text is an optional
/// `+` followed by one or more decimal digits, nothing else; a value above
/// `usize::MAX` is an error. The contract says exactly that; which
/// `ParseIntError` kind comes back is not stated.
#[verifier::external_body]
pub(crate) fn parse_usize(s: &str) -> (r: Result<usize, ParseIntError>)
    ensures
        r is Ok <==> (unsigned_value(s@) matches Some(v) && v <= usize::MAX),
        r matches Ok(v) ==> unsigned_value(s@) == Some(v as int),
{
    s.parse::<usize>()
}

/// `<isize as FromStr>::from_str`. Its documentation: the text is an optional
/// `+` or `-` followed by one or more decimal digits, nothing else; a value
/// outside the `isize` range is an error. The contract says exactly that;
/// which `ParseIntError` kind comes back is not stated.
#[verifier::external_body]
pub(crate) fn parse_isize(s: &str) -> (r: Result<isize, ParseIntError>)
    ensures
        r is Ok <==> (signed_value(s@) matches Some(v) && isize::MIN <= v <= isize::MAX),
        r matches Ok(v) ==> signed_value(s@) == Some(v as int),
{
    s.parse::<isize>()
}

/// `Vec::capacity`. What the allocator handed out is not stated.
#[verifier::external_body]
pub(crate) fn vec_capacity<T>(v: &Vec<T>) -> usize {
    v.capacity()
}

/// `std::string::FromUtf8Error`, carried through unread.
#[verifier::external_type_specification]
#[verifier::external_body]
pub struct ExFromUtf8Error(FromUtf8Error);

/// `String::from_utf8`. Its documentation: the bytes become a `String`
/// exactly when they are valid UTF-8, and the string holds the characters
/// they encode. The contract states that; the error's contents are not
/// stated.
#[verifier::external_body]
pub(crate) fn string_from_utf8(v: Vec<u8>) -> (r: Result<String, FromUtf8Error>)
    ensures
        r is Ok <==> valid_utf8(v@),
        r matches Ok(s) ==> s@ == decode_utf8(v@),
{
    String::from_utf8(v)
}

/// `String::push_str`. Its documentation: the text is appended to the
/// string.
#[verifier::external_body]
pub(crate) fn string_push_str(s: &mut String, t: &str)
    ensures
        final(s)@ == old(s)@ + t@,
{
    s.push_str(t)
}

/// `<usize as ToString>::to_string`. Its documentation: an integer is
/// written in decimal, without sign or leading zeros.
#[verifier::external_body]
pub(crate) fn usize_to_string(n: usize) -> (r: String)
    ensures
        r@ == decimal(n as nat),
{
    n.to_string()
}

} // verus!
