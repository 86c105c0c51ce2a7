//! TXFS: a compact binary selector format that commits, through a single
//! 32-byte digest, to a chosen subset of a transaction's fields.
//!
//! The selector byte stream is decoded strictly left to right; every selector
//! has exactly one valid encoding, and trailing or non-minimal encodings are
//! rejected. The digest layers per-field-group hashes ("midstates") into one
//! outer SHA-256 hash.

pub mod codec;
pub mod digest;
pub mod error;
pub mod hashing;
pub mod laws;
pub mod schema;
pub mod script;
pub mod select;
pub mod tx;
