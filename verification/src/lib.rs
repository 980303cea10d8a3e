//! A verified model of the PNG byte container: validated 4-byte chunk type
//! codes, length-prefixed and checksummed chunk records, and the whole-file
//! container with its signature and header/trailer invariants.

pub mod chunk;
pub mod chunk_type;
pub mod commands;
pub mod png;
pub mod codec;
pub mod error;

pub use error::PngError;
