//! The `topcoat` command line's static export.

pub mod export;
