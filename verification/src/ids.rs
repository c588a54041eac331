//! The allocator of node identifiers: one per parse.
use vstd::prelude::*;

verus! {

/// Issues the identifiers 1, 2, 3, ... in this order, each once. Zero is
/// never issued.
pub struct IdAllocator {
    last: u64,
}

impl IdAllocator {
    /// The identifier issued last, which is also how many were issued; zero
    /// before the first.
    pub closed spec fn issued(&self) -> u64 {
        self.last
    }

    /// How many identifiers can still be issued.
    pub open spec fn spec_remaining(&self) -> u64 {
        (u64::MAX - self.issued()) as u64
    }

    /// An allocator that has issued nothing.
    pub fn new() -> (a: Self)
        ensures
            a.issued() == 0,
    {
        IdAllocator { last: 0 }
    }

    /// The identifier issued last; zero before the first.
    pub fn last_id(&self) -> (n: u64)
        ensures
            n == self.issued(),
    {
        self.last
    }

    /// How many identifiers can still be issued.
    pub fn remaining(&self) -> (n: u64)
        ensures
            n == self.spec_remaining(),
    {
        u64::MAX - self.last
    }

    /// The next identifier: one more than the last. Once `u64::MAX` has
    /// been issued the allocator stays there and issues it again.
    pub fn next_id(&mut self) -> (id: u64)
        ensures
            old(self).issued() < u64::MAX ==> id == old(self).issued() + 1,
            old(self).issued() == u64::MAX ==> id == u64::MAX,
            final(self).issued() == id,
    {
        if self.last < u64::MAX {
            self.last = self.last + 1;
        }
        self.last
    }
}

} // verus!
