//! Configuration values that the library reads.
use vstd::prelude::*;

verus! {

/// Paths and rule ids to leave out of a check.
#[derive(Debug, Clone)]
pub struct IgnoreConfig {
    pub paths: Vec<String>,
    pub rules: Vec<String>,
}

impl Default for IgnoreConfig {
    fn default() -> (r: Self)
        ensures
            r.paths@.len() == 0,
            r.rules@.len() == 0,
    {
        IgnoreConfig { paths: Vec::new(), rules: Vec::new() }
    }
}

} // verus!
