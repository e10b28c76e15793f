//! The byte stream between client and server: variable-length integers,
//! frames, the compressed envelope and the stream cipher.

pub mod buffer;
pub mod compression;
pub mod connection;
pub mod encryption;
pub mod frame;
pub mod packets;
pub mod text;
pub mod varint;
