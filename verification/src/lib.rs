//! A point-cloud loading pipeline: interprets a byte sequence as consecutive
//! 3-byte coordinate triplets, packs each triplet into a 24-bit key, sorts the
//! keys, merges duplicates while counting their extra occurrences, and derives
//! for every surviving point the inputs of a spherical projection together
//! with an exact rational color.
//!
//! The renderer that consumes the points (GPU upload, camera, draw loop) is an
//! external collaborator and is not part of this crate.

pub mod color;
pub mod dedup;
pub mod pack;
pub mod pipeline;
pub mod point;
pub mod sort;
