//! The on-disk layout: data file names, the data file catalog, and hint
//! files.
pub mod data_file;
pub mod file_set;
pub mod hint_file;
