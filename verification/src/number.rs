//! Numbers of JSON.

use vstd::prelude::*;

verus! {

/// The number as an unsigned 64-bit integer, if it is one.
pub uninterp spec fn number_u64(number: serde_json::Number) -> Option<u64>;

/// The JSON number that an unsigned integer is.
pub uninterp spec fn number_of(n: u64) -> serde_json::Number;

/// The JSON number that a signed integer is.
pub uninterp spec fn number_of_signed(n: i64) -> serde_json::Number;

/// `serde_json::Number::as_u64`.
pub assume_specification[ serde_json::Number::as_u64 ](
    number: &serde_json::Number,
) -> (r: Option<u64>)
    ensures
        r == number_u64(*number),
;

/// Calls `serde_json::Number::from` on an unsigned integer. The number reads back as the integer.
#[verifier::external_body]
pub(crate) fn from_u64(n: u64) -> (r: serde_json::Number)
    ensures
        r == number_of(n),
        number_u64(r) == Some(n),
{
    serde_json::Number::from(n)
}

/// Calls `serde_json::Number::from` on a signed integer. An integer that is not negative reads
/// back; a negative one is no unsigned integer.
#[verifier::external_body]
pub(crate) fn from_i64(n: i64) -> (r: serde_json::Number)
    ensures
        r == number_of_signed(n),
        number_u64(r) == (if n >= 0 {
            Some(n as u64)
        } else {
            None
        }),
{
    serde_json::Number::from(n)
}

} // verus!
