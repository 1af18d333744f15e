use vstd::prelude::*;

verus! {

/// The exact test of the collision pipeline, as far as it keeps state: it counts
/// the contacts that it has reported.
pub struct DefaultNarrowPhase {
    collisions: u64,
}

impl DefaultNarrowPhase {
    /// The number of contacts reported so far.
    pub closed spec fn count(&self) -> nat {
        self.collisions as nat
    }

    /// A narrow phase that has reported no contact yet.
    pub fn new() -> (phase: Self)
        ensures
            phase.count() == 0,
    {
        Self { collisions: 0 }
    }

    /// The number of contacts reported so far.
    pub fn collisions(&self) -> (count: u64)
        ensures
            count == self.count(),
    {
        self.collisions
    }

    /// Counts one more contact.
    pub fn record(&mut self)
        requires
            old(self).count() < u64::MAX,
        ensures
            final(self).count() == old(self).count() + 1,
    {
        self.collisions += 1;
    }
}

} // verus!
