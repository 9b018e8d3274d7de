//! The functions of the standard library and of `rand` that the proxy calls and
//! whose behaviour is taken as documented.

use vstd::prelude::*;
use vstd::utf8::{encode_utf8, valid_utf8};

use crate::text::{decimal, parse_i32, parse_u64, signed_decimal};

verus! {

/// Draws a number with `rand::random`. Any number may come back.
#[verifier::external_body]
pub(crate) fn random_i32() -> (n: i32) {
    rand::random::<i32>()
}

/// Turns bytes into a string with `String::from_utf8`: it succeeds on valid
/// UTF-8, and the string is the one that the bytes encode.
#[verifier::external_body]
pub(crate) fn string_from_utf8(bytes: Vec<u8>) -> (res: Option<String>)
    ensures
        res is Some <==> valid_utf8(bytes@),
        res matches Some(s) ==> encode_utf8(s@) == bytes@,
{
    String::from_utf8(bytes).ok()
}

/// Writes a number with `u64::to_string`: its decimal digits, without leading
/// zeros.
#[verifier::external_body]
pub(crate) fn u64_to_string(n: u64) -> (s: String)
    ensures
        encode_utf8(s@) == decimal(n as nat),
{
    n.to_string()
}

/// Writes a number with `i32::to_string`: its decimal digits, without leading
/// zeros, after a minus sign where it is negative.
#[verifier::external_body]
pub(crate) fn i32_to_string(n: i32) -> (s: String)
    ensures
        encode_utf8(s@) == signed_decimal(n as int),
{
    n.to_string()
}

/// Reads a number with `str::parse::<u64>`: an optional plus sign and then only
/// decimal digits, at least one, whose value fits.
#[verifier::external_body]
pub(crate) fn string_to_u64(s: &str) -> (res: Option<u64>)
    ensures
        res == parse_u64(encode_utf8(s@)),
{
    s.parse::<u64>().ok()
}

/// Reads a number with `str::parse::<i32>`: an optional plus or minus sign and
/// then only decimal digits, at least one, whose value fits.
#[verifier::external_body]
pub(crate) fn string_to_i32(s: &str) -> (res: Option<i32>)
    ensures
        res == parse_i32(encode_utf8(s@)),
{
    s.parse::<i32>().ok()
}

} // verus!
