//! A snapshot model of a directory tree and the rules by which a scan
//! builds it: every directory carries its files, its subdirectories, the
//! number of bytes beneath it and, where it could not be read in full, the
//! reason.

pub mod analyzer;
pub mod application;
pub mod drives;
pub mod entry;
pub mod mime;
pub mod scan;
pub mod snapshot;
pub mod text;
pub mod tree;
