use vstd::prelude::*;

verus! {

/// Hands out node and socket identifiers from one counter: each value once,
/// in increasing order, never reused.
pub struct IdAllocator {
    next: u64,
}

impl IdAllocator {
    /// The value that the next call of `fresh` returns.
    pub closed spec fn next_spec(&self) -> nat {
        self.next as nat
    }

    /// A counter whose first identifier is zero.
    pub fn new() -> (r: IdAllocator)
        ensures
            r.next_spec() == 0,
    {
        IdAllocator { next: 0 }
    }

    /// The value that the next call of `fresh` returns.
    pub fn peek(&self) -> (r: u64)
        ensures
            r == self.next_spec(),
    {
        self.next
    }

    /// How many identifiers can still be handed out.
    pub fn remaining(&self) -> (r: u64)
        ensures
            r == u64::MAX - self.next_spec(),
    {
        u64::MAX - self.next
    }

    /// A new identifier, larger than every one handed out before.
    pub fn fresh(&mut self) -> (r: u64)
        requires
            old(self).next_spec() < u64::MAX,
        ensures
            r == old(self).next_spec(),
            final(self).next_spec() == old(self).next_spec() + 1,
    {
        let r = self.next;
        self.next = self.next + 1;
        r
    }
}

} // verus!
