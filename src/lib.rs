//! Typed values to and from CLVM nodes held in a `clvmr::Allocator`.
//!
//! A node stands for a `Tree`: an atom (a byte string) or a pair of trees.
//! Each encoder stores a value and returns a node whose tree is a spec
//! function of the value; each decoder reads a node and returns exactly what
//! the matching spec function gives for its tree, value or error.
//!
//! Encoding writes into the allocator and can only fail when the allocator
//! has reached one of its limits: every encoder states what it writes
//! (`Room`) and that it succeeds whenever the allocator has room for that.
//!
//! - `integer`: the shortest two's-complement atoms; a decoder accepts any
//!   atom whose value fits the target type, padded ones included. The types
//!   go up to 64 bits: values travel as `i128` within [-2^64, 2^64), which
//!   leaves no room for `u128` or `i128` themselves.
//! - `primitives`: booleans, byte strings, fixed-size arrays, text, nil and
//!   optional values (`None` is nil, so an optional value is only used
//!   around types that never encode to nil).
//! - `frame`: tuple, list and curry framing of already-stored fields.
//! - `tagged`: enums with an integer discriminant (`u8` unless declared
//!   otherwise) in front of the payload.
//! - `coin_proof`: lineage proofs, decoded by trying each shape in turn.
//! - `policy`: hooks for a spend-processing pipeline.
pub mod arena;
pub mod error;
pub mod integer;
pub mod primitives;
pub mod frame;
pub mod tagged;
pub mod coin_proof;
pub mod policy;
