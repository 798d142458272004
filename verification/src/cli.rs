//! The process configuration the command line supplies, as plain values:
//! the network port to serve on, the directory to search for configuration
//! files, and the capacity of the response cache.

use vstd::prelude::*;

verus! {

/// The operator's choices.
#[derive(Debug, Clone)]
pub struct Cli {
    /// Network port to use.
    pub port: u16,
    /// Path to look for configuration files.
    pub search_path: String,
    /// Size of the cache, in entries.
    pub cache: usize,
}

} // verus!
