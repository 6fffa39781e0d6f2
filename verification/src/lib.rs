//! A media-file sorter: scans a source directory for files with configured
//! extensions, optionally strips a bracketed release-group prefix from each
//! name, and places every file into a destination directory tree, either
//! into an existing subdirectory holding similarly named files or into a
//! freshly created one derived from the file's name.
//!
//! The whole placement logic is verified; the thin layer that touches the
//! real filesystem lives outside this library and feeds it plain values.

pub mod config;
pub mod paths;
pub mod sorter;
pub mod text;
pub mod tree;
