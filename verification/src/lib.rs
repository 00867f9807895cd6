//! A verified directory-listing library.
//!
//! The library holds the pure core of a small `ls`-like utility: parsing
//! command-line tokens into a configuration, classifying and rendering one
//! directory entry as a display line, filtering and stably sorting the
//! entries of a directory, and producing the full output of a listing —
//! recursive or not — over a captured snapshot of the directory tree.
//! Reading the filesystem itself (enumerating directories, querying
//! metadata) is left to the surrounding program, which hands the library
//! plain values.

pub mod config;
pub mod entry;
pub mod format;
pub mod sort;
pub mod listing;
pub mod laws;
