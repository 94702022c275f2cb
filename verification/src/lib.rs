//! Typed claims for JSON Web Tokens.
//!
//! A token payload is one flat JSON object. Seven of its keys are registered
//! by RFC 7519 and carry fixed types; every other key is a private claim whose
//! value is kept as it came. [`claims::Claims`] holds the two parts side by
//! side, and its contracts say exactly which object a payload decodes from and
//! encodes to.
pub mod claims;
pub mod entries;
pub mod error;
pub mod field;
pub mod json;
pub mod number;
pub mod order;
pub mod outside;
pub mod text;
