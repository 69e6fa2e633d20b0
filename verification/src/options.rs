//! The settings of a page cache.

use vstd::prelude::*;

verus! {

/// The settings of a page cache.
#[derive(Clone, Copy, Debug)]
pub struct Options {
    /// How many pages may be read from the store at the same time: at least 1.
    pub fetch_concurrency: usize,
    /// For how many pages the eviction advisor keeps track of their use.
    pub cache_capacity_pages: usize,
    /// The share of the tracked pages that the advisor treats as hot, in percent.
    pub advisor_hot_percent: usize,
    /// From how many changed slots on a page is written out as a whole.
    pub full_page_threshold: usize,
}

impl Options {
    /// Whether the settings can be used: at least one fetch at a time, and
    /// a share of at most 100 percent.
    pub open spec fn valid(&self) -> bool {
        self.fetch_concurrency >= 1 && self.advisor_hot_percent <= 100
    }

    /// The settings that are used where none are given: one fetch at a
    /// time, track of 1048576 pages, 20 percent of them hot, and whole pages
    /// from 32 changed slots on.
    pub fn new() -> (r: Self)
        ensures
            r.fetch_concurrency == 1,
            r.cache_capacity_pages == 1048576,
            r.advisor_hot_percent == 20,
            r.full_page_threshold == 32,
            r.valid(),
    {
        Self {
            fetch_concurrency: 1,
            cache_capacity_pages: 1048576,
            advisor_hot_percent: 20,
            full_page_threshold: 32,
        }
    }

    /// Whether the settings can be used.
    pub fn is_valid(&self) -> (r: bool)
        ensures
            r == self.valid(),
    {
        self.fetch_concurrency >= 1 && self.advisor_hot_percent <= 100
    }
}

} // verus!
