//! Bounded retries: how many times an operation is tried before giving up.

use vstd::prelude::*;

verus! {

/// A budget of attempts: `used` of `limit` taken so far.
pub struct Attempts {
    pub used: u32,
    pub limit: u32,
}

impl Attempts {
    pub open spec fn wf(&self) -> bool {
        self.used <= self.limit
    }

    /// A fresh budget of `limit` attempts.
    pub fn new(limit: u32) -> (a: Self)
        ensures
            a.wf(),
            a.used == 0,
            a.limit == limit,
    {
        Attempts { used: 0, limit }
    }

    /// Takes one attempt when any is left; answers whether one was taken.
    /// Over the life of a budget, exactly `limit` calls answer true.
    pub fn take(&mut self) -> (r: bool)
        requires
            old(self).wf(),
        ensures
            final(self).wf(),
            r == (old(self).used < old(self).limit),
            final(self).limit == old(self).limit,
            final(self).used == (if r { old(self).used + 1 } else { old(self).used as int }),
    {
        if self.used < self.limit {
            self.used = self.used + 1;
            true
        } else {
            false
        }
    }
}

} // verus!
