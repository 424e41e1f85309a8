//! A minimal HTTP/1.1 origin-server core: an incremental request parser, a
//! response serializer, and virtual-host path resolution.
//!
//! The connection loop, socket I/O, and filesystem access live outside this
//! crate; the core only decides which path to open and which bytes to emit.

pub mod config;
pub mod helper;
pub mod http_parser;
pub mod server;
