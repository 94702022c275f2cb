//! The types of `serde_json` that pass through this library. Verus sees
//! nothing inside a value of them: all that is known of one is what the
//! functions that take or return it say.
use vstd::prelude::*;

verus! {

/// `serde_json::Value`, a JSON value as `serde_json` holds it.
#[verifier::external_type_specification]
#[verifier::external_body]
pub struct ExValue(serde_json::Value);

/// `serde_json::Number`, a JSON number as `serde_json` holds it.
#[verifier::external_type_specification]
#[verifier::external_body]
pub struct ExNumber(serde_json::Number);

/// `serde_json::Error`, the error of `serde_json`'s reader and writer.
#[verifier::external_type_specification]
#[verifier::external_body]
pub struct ExError(serde_json::Error);

} // verus!
