//! A minimal archive container format.
//!
//! An archive is a flat byte stream: an eight-byte identifier followed by
//! zero or more entries, each entry a path box (tag `PTH`, a two-byte
//! big-endian length, the path bytes) immediately followed by a data box
//! (tag `DAT`, an eight-byte big-endian length, the file contents).
//! This crate holds the format contract itself: the framing primitives,
//! the encoder from an in-memory entry list to the byte stream, and the
//! decoder back, together with proofs that the two are inverse.

pub mod archive;
pub mod decode;
pub mod format;
pub mod laws;
pub mod paths;
