//! JSON numbers. The library carries them as `serde_json::Number` and reads
//! one thing from them: whether a number is an unsigned integer, and which.
use vstd::prelude::*;

verus! {

/// What `serde_json::Number::as_u64` returns for a number.
pub uninterp spec fn number_as_u64(n: serde_json::Number) -> Option<u64>;

/// A number as this library sees it.
pub enum NumberModel {
    /// An integer in `0 ..= u64::MAX`.
    Unsigned(u64),
    /// Any other number: negative, fractional or with an exponent.
    Other(serde_json::Number),
}

/// The model of a number: its value where it is an unsigned integer, the
/// number itself otherwise.
pub open spec fn number_model(n: serde_json::Number) -> NumberModel {
    match number_as_u64(n) {
        Some(u) => NumberModel::Unsigned(u),
        None => NumberModel::Other(n),
    }
}

/// `serde_json::Number::as_u64`: the value of a number that is an integer
/// between zero and `u64::MAX`, `None` for every other number. The contract
/// gives that result its name and claims nothing more.
pub assume_specification[ serde_json::Number::as_u64 ](n: &serde_json::Number) -> (out: Option<u64>)
    ensures
        out == number_as_u64(*n),
;

/// `Clone` for `serde_json::Number`: the copy is the same number.
pub assume_specification[ <serde_json::Number as Clone>::clone ](n: &serde_json::Number) -> (out:
    serde_json::Number)
    ensures
        out == *n,
;

/// `From<u64>` for `serde_json::Number`: the number made from `u` is the
/// unsigned integer `u`, so that `as_u64` gives `u` back.
#[verifier::external_body]
pub(crate) fn number_from_u64(u: u64) -> (out: serde_json::Number)
    ensures
        number_as_u64(out) == Some(u),
{
    serde_json::Number::from(u)
}

} // verus!
