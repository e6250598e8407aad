//! Chunk-level model of PNG files: chunk types, checksummed chunks, and the
//! container that frames them behind the eight-byte file signature.

pub mod checksum;
pub mod chunk;
pub mod chunk_type;
pub mod commands;
pub mod endian;
pub mod png;
pub mod text;

pub use chunk::{Chunk, ChunkError};
pub use chunk_type::{ChunkType, ChunkTypeError};
pub use commands::{decode, encode, remove, Error};
pub use png::{Png, PngError};
