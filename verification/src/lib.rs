//! A codec for a chunk-based image container: a fixed signature followed by
//! length-prefixed, checksum-protected chunks, each classified by a
//! four-letter type.
//!
//! Every function here carries a contract over a mathematical model of its
//! data (byte sequences and plain records), and Verus proves each body against
//! its contract.

pub mod checksum;
pub mod chunk;
pub mod chunk_type;
pub mod commands;
pub mod endian;
pub mod png;
pub mod text;
