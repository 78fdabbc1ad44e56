//! A strongly typed data model for the Open Container Initiative (OCI)
//! specifications: image index documents, runtime configuration blocks, and
//! distribution (registry) error responses.
//!
//! Every entity is an immutable value type with an explicit JSON codec:
//! serialization follows the field order, naming convention, and omission
//! rules of the written specification, and the round-trip laws are proved.

pub mod distribution;
pub mod error;
pub mod image;
pub mod json;
pub mod runtime;
