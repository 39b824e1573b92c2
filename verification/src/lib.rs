//! A Bitcask-style key-value store: an append-only record log, an in-memory
//! key directory, compact hint files, and the planning logic for rebuild,
//! merge and the interactive front ends.

pub mod bench;
pub mod codec;
pub mod config;
pub mod crc;
pub mod engine;
pub mod error;
pub mod merge;
pub mod record;
pub mod index;
pub mod storage;
pub mod text;
pub mod recovery;
pub mod tui;
pub mod tracer;
