use std::collections::HashSet;
use vstd::prelude::*;

verus! {

broadcast use vstd::std_specs::hash::group_hash_axioms;

/// A handle: a small integer naming one entry of a store.
pub type Id = usize;

/// Hands out handles and takes them back.
///
/// Handles come from a dense range `0..high_water`. A handle that was given back
/// and lies below the greatest handle still in use is kept as a vacancy and handed
/// out again before the range grows. When the greatest handle is given back the
/// range shrinks past it and past every vacancy directly below it, so the top of
/// the range is always in use.
pub struct IdPool {
    next_id: Id,
    free_ids: HashSet<Id>,
}

impl IdPool {
    /// One more than the greatest handle in use; 0 when none is.
    pub closed spec fn high_water(&self) -> nat {
        self.next_id as nat
    }

    /// The handles below the high-water mark that are waiting to be handed out again.
    pub closed spec fn vacant(&self) -> Set<Id> {
        self.free_ids@
    }

    /// The handles in use: those below the high-water mark that are not vacant.
    pub open spec fn live(&self) -> Set<Id> {
        Set::new(|id: Id| id < self.high_water() && !self.vacant().contains(id))
    }

    /// The high-water mark is a machine number, and every vacancy lies strictly
    /// below the top handle of the range, so that the top handle, if there is one,
    /// is in use.
    pub open spec fn wf(&self) -> bool {
        &&& self.high_water() <= usize::MAX
        &&& forall|id: Id| #[trigger] self.vacant().contains(id) ==> id + 1 < self.high_water()
    }

    /// The high-water mark is the least bound of the handles in use: it is 0
    /// exactly when none is in use, and otherwise the handle just below it is.
    pub proof fn lemma_high_water_is_least_bound(&self)
        requires
            self.wf(),
        ensures
            forall|id: Id| #[trigger] self.live().contains(id) ==> id < self.high_water(),
            self.high_water() > 0 ==> self.live().contains((self.high_water() - 1) as Id),
            self.high_water() == 0 <==> self.live() =~= Set::<Id>::empty(),
    {
        if self.high_water() > 0 {
            let top = (self.high_water() - 1) as Id;
            assert(!self.vacant().contains(top));
            assert(self.live().contains(top));
        }
    }

    /// A pool in which no handle is in use.
    pub fn new() -> (pool: Self)
        ensures
            pool.wf(),
            pool.high_water() == 0,
            pool.vacant() =~= Set::<Id>::empty(),
            pool.live() =~= Set::<Id>::empty(),
    {
        Self { next_id: 0, free_ids: HashSet::new() }
    }

    /// Hands out a handle that is not in use. A vacancy is taken if there is one;
    /// which one is not fixed. Otherwise the range grows by one handle.
    pub fn next(&mut self) -> (id: Id)
        requires
            old(self).wf(),
            old(self).vacant() =~= Set::<Id>::empty() ==> old(self).high_water() < usize::MAX,
        ensures
            final(self).wf(),
            !old(self).live().contains(id),
            final(self).live() =~= old(self).live().insert(id),
            old(self).vacant() =~= Set::<Id>::empty() ==> {
                &&& id == old(self).high_water()
                &&& final(self).high_water() == old(self).high_water() + 1
                &&& final(self).vacant() =~= old(self).vacant()
            },
            !(old(self).vacant() =~= Set::<Id>::empty()) ==> {
                &&& old(self).vacant().contains(id)
                &&& final(self).high_water() == old(self).high_water()
                &&& final(self).vacant() =~= old(self).vacant().remove(id)
            },
    {
        let mut found: Option<Id> = None;
        for candidate in free: self.free_ids.iter()
            invariant
                found.is_none() ==> free.index() == 0,
                found.is_some() ==> self.free_ids@.contains(found.unwrap()),
                free.seq().len() == self.free_ids@.len(),
                self.free_ids@.finite(),
            ensures
                found.is_none() ==> self.free_ids@.len() == 0,
        {
            assert(free.seq().unref().to_set().contains(free.seq().unref()[0]));
            found = Some(*candidate);
            break ;
        }
        match found {
            Some(id) => {
                assert(old(self).vacant().contains(id));
                self.free_ids.remove(&id);
                id
            },
            None => {
                assert(self.free_ids@.len() == 0);
                assert(old(self).vacant() =~= Set::<Id>::empty());
                self.next_id += 1;
                self.next_id - 1
            },
        }
    }

    /// Takes a handle back. One that is not in use is ignored.
    pub fn free(&mut self, id: Id)
        requires
            old(self).wf(),
        ensures
            final(self).wf(),
            final(self).live() =~= old(self).live().remove(id),
            final(self).high_water() <= old(self).high_water(),
            id + 1 != old(self).high_water() ==> final(self).high_water() == old(
                self,
            ).high_water(),
            !old(self).live().contains(id) ==> final(self).vacant() =~= old(self).vacant(),
            old(self).live().contains(id) && id + 1 != old(self).high_water()
                ==> final(self).vacant() =~= old(self).vacant().insert(id),
    {
        if let Some(max) = self.max() {
            if id > max {
                return ;
            }
            if id == max {
                assert(!old(self).vacant().contains(id));
                self.next_id -= 1;
                assert forall|v: Id| #[trigger] self.free_ids@.contains(v) implies v < self.next_id by {
                    assert(old(self).vacant().contains(v));
                }
                while self.next_id > 0 && self.free_ids.contains(&(self.next_id - 1))
                    invariant
                        self.next_id < old(self).next_id,
                        forall|v: Id| #[trigger] self.free_ids@.contains(v) ==> v < self.next_id,
                        self.live() =~= old(self).live().remove(id),
                    decreases self.next_id,
                {
                    let top: Id = self.next_id - 1;
                    self.free_ids.remove(&top);
                    self.next_id -= 1;
                }
                assert forall|v: Id| #[trigger] self.vacant().contains(v) implies v + 1
                    < self.high_water() by {
                    assert(self.free_ids@.contains(v));
                }
            } else {
                assert(old(self).vacant().insert(id) =~= self.free_ids@.insert(id));
                self.free_ids.insert(id);
                assert forall|v: Id| #[trigger] self.vacant().contains(v) implies v + 1
                    < self.high_water() by {
                    if v != id {
                        assert(old(self).vacant().contains(v));
                    }
                }
            }
        }
    }

    /// The greatest handle in use, if any is.
    pub fn max(&self) -> (top: Option<Id>)
        ensures
            self.high_water() == 0 ==> top.is_none(),
            self.high_water() > 0 ==> top == Some((self.high_water() - 1) as Id),
    {
        self.next_id.checked_sub(1)
    }
}

} // verus!
