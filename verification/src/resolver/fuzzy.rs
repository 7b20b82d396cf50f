//! The fuzzy-search tier of symbol resolution. It holds no data yet: workspace
//! symbol queries already match fuzzily.
use vstd::prelude::*;

verus! {

/// The fuzzy-search index.
pub struct FuzzyIndex;

impl FuzzyIndex {
    /// Creates the fuzzy-search index.
    pub fn new() -> (idx: Self)
        ensures
            idx == FuzzyIndex,
    {
        FuzzyIndex
    }
}

impl Default for FuzzyIndex {
    /// The fuzzy-search index.
    fn default() -> (idx: Self)
        ensures
            idx == FuzzyIndex,
    {
        Self::new()
    }
}

} // verus!
