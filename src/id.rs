//! Allocation of node identifiers.
use vstd::prelude::*;

verus! {

/// Issues increasing node identifiers, starting at 1, never reusing one.
#[derive(Clone, Copy, Debug)]
pub struct ChildCounter {
    next: u64,
}

impl ChildCounter {
    /// The identifier that the next call of `generate_id` hands out.
    pub closed spec fn next_id(&self) -> u64 {
        self.next
    }

    pub fn new() -> (r: ChildCounter)
        ensures
            r.next_id() == 1,
    {
        ChildCounter { next: 1 }
    }

    /// Whether one more identifier can be issued.
    pub fn can_generate(&self) -> (r: bool)
        ensures
            r == (self.next_id() < u64::MAX),
    {
        self.next < u64::MAX
    }

    pub fn generate_id(&mut self) -> (id: u64)
        requires
            old(self).next_id() < u64::MAX,
        ensures
            id == old(self).next_id(),
            final(self).next_id() == old(self).next_id() + 1,
    {
        let id = self.next;
        self.next = self.next + 1;
        id
    }
}

} // verus!
