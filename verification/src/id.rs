//! A counter handing out process-unique identifiers, seeded once at startup.

use vstd::prelude::*;

verus! {

pub type ID = u64;

/// Hands out identifiers by counting up from a seed, wrapping at the type's
/// end.
pub struct IDGenerator {
    next_id: u64,
}

impl IDGenerator {
    /// The seed mixes startup time and process id; the caller provides it,
    /// since neither is a function of anything the library can see.
    pub fn new(seed: u64) -> (r: IDGenerator)
        ensures
            r.spec_next_id() == seed,
    {
        IDGenerator { next_id: seed }
    }

    pub closed spec fn spec_next_id(&self) -> u64 {
        self.next_id
    }

    /// The next identifier; successive calls count up, wrapping.
    pub fn generate_id(&mut self) -> (r: ID)
        ensures
            r == old(self).spec_next_id(),
            final(self).spec_next_id() == (old(self).spec_next_id() + 1) % 0x1_0000_0000_0000_0000,
    {
        let id = self.next_id;
        if self.next_id == u64::MAX {
            self.next_id = 0;
        } else {
            self.next_id = self.next_id + 1;
        }
        id
    }
}

} // verus!
