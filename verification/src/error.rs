//! Why decoding or encoding failed.
use crate::field::Field;
use vstd::prelude::*;

verus! {

/// A failure of decoding or encoding. One failure fails the whole call: no
/// partial result is handed out.
#[derive(Debug, Clone, Copy, PartialEq, Eq, Structural)]
pub enum ClaimsError {
    /// The text is not JSON, or the JSON value is not an object.
    MalformedInput,
    /// The key of a registered claim is present, with a value of another
    /// type than the claim has.
    ShapeMismatch(Field),
    /// The JSON writer could not write the value.
    MalformedOutput,
}

} // verus!
