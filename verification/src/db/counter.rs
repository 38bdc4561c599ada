//! Monotonic counters used to mint fresh identifiers.
//!
//! Each counter is one named record whose count the store bumps atomically;
//! this type captures what that atomic add does to the record, so callers
//! can rely on every minted value being new.

use vstd::prelude::*;

verus! {

/// A named, monotonically increasing counter.
#[derive(Debug)]
pub struct Counter {
    pub name: String,
    pub count: u64,
}

impl Counter {
    /// Add one to the counter and return the new value, exactly as the
    /// store's atomic add-and-return-new does for the counter's record.
    pub fn increment(&mut self) -> (r: u64)
        requires
            old(self).count < u64::MAX,
        ensures
            final(self).count == old(self).count + 1,
            final(self).name == old(self).name,
            r == final(self).count,
    {
        self.count = self.count + 1;
        self.count
    }
}

} // verus!
