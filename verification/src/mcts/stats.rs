//! Counters of one search.

use vstd::prelude::*;

verus! {

/// What one search did.
#[derive(Clone, Copy, Debug, PartialEq, Eq, Structural)]
pub struct SearchStats {
    /// Passes through the tree.
    pub iterations: u32,
    /// Nodes that got their edges.
    pub nodes_expanded: u32,
    /// Simulations run.
    pub simulations: u32,
    /// The depth of the deepest node.
    pub max_depth: u16,
    /// The time the search took, in microseconds.
    pub time_us: u64,
}

impl SearchStats {
    /// Counters at zero.
    pub fn new() -> (stats: Self)
        ensures
            stats == (SearchStats {
                iterations: 0,
                nodes_expanded: 0,
                simulations: 0,
                max_depth: 0,
                time_us: 0,
            }),
    {
        SearchStats { iterations: 0, nodes_expanded: 0, simulations: 0, max_depth: 0, time_us: 0 }
    }

    /// Sets every counter to zero.
    pub fn reset(&mut self)
        ensures
            *final(self) == (SearchStats {
                iterations: 0,
                nodes_expanded: 0,
                simulations: 0,
                max_depth: 0,
                time_us: 0,
            }),
    {
        *self = SearchStats::new();
    }
}

impl Default for SearchStats {
    fn default() -> (stats: Self)
        ensures
            stats == (SearchStats {
                iterations: 0,
                nodes_expanded: 0,
                simulations: 0,
                max_depth: 0,
                time_us: 0,
            }),
    {
        SearchStats::new()
    }
}

/// One more, up to the end of `u32`.
pub open spec fn counted(count: u32) -> u32 {
    if count == u32::MAX {
        count
    } else {
        (count + 1) as u32
    }
}

/// Counts one more; a counter at the end of `u32` stays there.
pub fn count_one(count: u32) -> (next: u32)
    ensures
        next == counted(count),
{
    if count == u32::MAX {
        count
    } else {
        count + 1
    }
}

} // verus!
