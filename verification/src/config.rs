//! The configuration shape: three exclusion lists.

use vstd::prelude::*;

verus! {

/// The three exclusion lists read from the configuration source.
///
/// `exclude_dirs` and `exclude_files` hold relative paths compared exactly;
/// `exclude_patterns` holds glob patterns. Duplicates are harmless.
pub struct Config {
    pub exclude_dirs: Vec<String>,
    pub exclude_files: Vec<String>,
    pub exclude_patterns: Vec<String>,
}

impl Config {
    /// The all-empty configuration, used when no configuration source exists.
    pub fn empty() -> (c: Config)
        ensures
            c.exclude_dirs@.len() == 0,
            c.exclude_files@.len() == 0,
            c.exclude_patterns@.len() == 0,
    {
        Config { exclude_dirs: Vec::new(), exclude_files: Vec::new(), exclude_patterns: Vec::new() }
    }
}

} // verus!
