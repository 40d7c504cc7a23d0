//! Framing and multiplexing for a media transport that runs over one
//! bidirectional control stream and many unidirectional object streams.
//!
//! Everything here works on bytes that have already arrived or are about to be
//! written: the caller owns the streams and feeds the library from them.

pub mod blob;
pub mod buffer;
pub mod coding;
pub mod control;
pub mod list;
pub mod message;
pub mod object;
pub mod objects;
pub mod session;
pub mod varint;
pub mod wire;
