//! The in-memory index from keys to record locations.
pub mod keydir;
