//! Directory-bundling library: exclusion rules for a recursive walk and the
//! delimited-block format of the bundle artifact.
//!
//! The library holds the verified core: deciding which entries of a walk are
//! excluded (exact directory match, directory-prefix match for files, exact
//! file match, glob-pattern match) and rendering / extracting the per-file
//! blocks of the output artifact. Walking the filesystem, reading files and
//! writing the artifact are left to the surrounding program.

pub mod block;
pub mod config;
pub mod filter;
pub mod globs;
pub mod select;
pub mod strutil;

