//! Chunk-level manipulation of PNG byte streams.
//!
//! - [`chunk_type`]: the four-letter chunk type code and its property bits.
//! - [`chunk`]: one chunk, its CRC-32 and its wire format.
//! - [`png`]: a whole stream, the signature followed by chunks in file order,
//!   with append, find and remove.
//! - [`commands`]: hiding a message in a stream, reading it back, removing
//!   it, and dumping the stream as text.
//! - [`utils`], [`wire`], [`text`]: bounds-checked slicing, big-endian
//!   fields, and text formatting.
//!
//! Each type has a view (`@`) that says what it holds, and each function
//! states its result over those views.

pub mod chunk;
pub mod chunk_type;
pub mod commands;
pub mod png;
pub mod text;
pub mod utils;
pub mod wire;

pub use chunk::{Chunk, ChunkError};
pub use chunk_type::{ChunkType, ChunkTypeError};
pub use png::{Png, PngError};
