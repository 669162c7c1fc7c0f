//! User ids: a process-wide counter that hands out the next id and wraps
//! around after the largest.
use vstd::prelude::*;

verus! {

/// The counter from which new users get their ids.
pub struct IdCounter {
    next: u8,
}

impl IdCounter {
    /// The id the counter hands out next.
    pub closed spec fn next_id(&self) -> u8 {
        self.next
    }

    /// A counter whose first id is 1.
    pub fn new() -> (r: IdCounter)
        ensures
            r.next_id() == 1,
    {
        IdCounter { next: 1 }
    }

    /// Hands out the next id and moves on by one, from the largest back to 0.
    pub fn assign(&mut self) -> (r: u8)
        ensures
            r == old(self).next_id(),
            final(self).next_id() == (old(self).next_id() + 1) % 256,
    {
        let r = self.next;
        self.next = if self.next == 255 {
            0
        } else {
            self.next + 1
        };
        r
    }
}

} // verus!
