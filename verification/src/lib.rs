//! Sequence-operation engine for Python-style text and byte-string
//! primitives: index-range normalization, split, strip, find/count,
//! padding, join, partition, prefix/suffix removal, line splitting,
//! zero-fill, case classification, and tuple-aware predicate dispatch.
//!
//! Subjects are byte buffers addressed by element; results are either
//! borrowed sub-views of the input or freshly built buffers, exactly as
//! each operation's semantics demand.

pub mod args;
pub mod buffer;
pub mod case;
pub mod coerce;
pub mod dispatch;
pub mod errors;
pub mod join;
pub mod lines;
pub mod pad;
pub mod ranges;
pub mod search;
pub mod split;
pub mod strip;
