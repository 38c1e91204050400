//! A small persistent graph store: entities with named properties, interned
//! string values, a binary wire format for transactions, a dot-path resolver
//! and a replayable write-ahead log format.

pub mod bytes;
pub mod codec;
pub mod space;
pub mod path;
pub mod json;
pub mod executor;
pub mod log;
pub mod client;
pub mod config;
pub mod text;
