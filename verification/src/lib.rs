//! Client-side SDK for a dynamically-typed runtime that speaks a compact
//! binary wire protocol.
//!
//! The crate parses a self-describing ABI block (symbols, types, functions)
//! into an indexed type system, and drives a recursive serializer and
//! deserializer over runtime-tagged values whose framing is determined by
//! that type system: nullable bitsets, attribute-level static types that
//! elide per-value tag bytes, polymorphic attribute dispatch, and
//! symbol-versus-string disambiguation inside one length prefix.

pub mod abi;
pub mod core_types;
pub mod deserialize;
pub mod error;
pub mod gc_object;
pub mod laws;
pub mod primitive;
pub mod reader;
pub mod serialize;
pub mod value;
pub mod varint;
pub mod wire;

pub use varint::{zigzag_decode, zigzag_encode};
