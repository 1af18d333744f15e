use crate::id_pool::{Id, IdPool};
use vstd::prelude::*;

verus! {

/// A sparse store that leaves the choice of handles to an [`IdPool`]: a value
/// lives in the slot that its handle names, and a slot is filled exactly when the
/// pool counts its handle as in use.
pub struct Storage<T> {
    id_pool: IdPool,
    items: Vec<Option<T>>,
}

impl<T> View for Storage<T> {
    type V = Map<Id, T>;

    /// The values in the store, each under its handle.
    closed spec fn view(&self) -> Map<Id, T> {
        Map::new(
            |id: Id| id < self.items@.len() && self.items@[id as int] is Some,
            |id: Id| self.items@[id as int]->0,
        )
    }
}

impl<T> Storage<T> {
    /// One more than the greatest handle in use; 0 when the store is empty.
    pub closed spec fn high_water(&self) -> nat {
        self.items@.len()
    }

    /// The pool is well formed, its high-water mark is the number of slots, and
    /// the handles it counts as in use are those whose slots are filled.
    pub closed spec fn pool_agrees(&self) -> bool {
        &&& self.id_pool.wf()
        &&& self.id_pool.high_water() == self.items@.len()
        &&& forall|id: Id|
            id < self.items@.len() ==> (#[trigger] self.id_pool.live().contains(id)
                <==> self.items@[id as int] is Some)
    }

    /// The high-water mark is a machine number that bounds every handle in use,
    /// and the handle just below it is in use.
    pub open spec fn wf(&self) -> bool {
        &&& self.high_water() <= usize::MAX
        &&& forall|id: Id| #[trigger] self@.contains_key(id) ==> id < self.high_water()
        &&& self.high_water() > 0 ==> self@.contains_key((self.high_water() - 1) as Id)
        &&& self.pool_agrees()
    }

    /// No handle below the high-water mark is vacant.
    pub open spec fn dense(&self) -> bool {
        forall|id: Id| id < self.high_water() ==> #[trigger] self@.contains_key(id)
    }

    /// An empty store.
    pub fn new() -> (store: Self)
        ensures
            store.wf(),
            store@ =~= Map::<Id, T>::empty(),
            store.high_water() == 0,
    {
        Self { id_pool: IdPool::new(), items: Vec::new() }
    }

    /// Puts `item` into the store and returns its handle. A vacancy is filled if
    /// there is one; which one is not fixed. Otherwise the item gets the handle at
    /// the high-water mark, which rises by one.
    pub fn add(&mut self, item: T) -> (id: Id)
        requires
            old(self).wf(),
            old(self).dense() ==> old(self).high_water() < usize::MAX,
        ensures
            final(self).wf(),
            !old(self)@.contains_key(id),
            final(self)@ =~= old(self)@.insert(id, item),
            id <= old(self).high_water(),
            id == old(self).high_water() <==> old(self).dense(),
            final(self).high_water() == if id == old(self).high_water() {
                old(self).high_water() + 1
            } else {
                old(self).high_water()
            },
    {
        proof {
            if old(self).id_pool.vacant() =~= Set::<Id>::empty() {
                assert forall|id: Id| id < old(self).high_water() implies #[trigger] old(
                    self,
                )@.contains_key(id) by {
                    assert(old(self).id_pool.live().contains(id));
                }
            } else {
                let hole = choose|hole: Id| old(self).id_pool.vacant().contains(hole);
                assert(!old(self).id_pool.live().contains(hole));
                assert(!old(self)@.contains_key(hole));
            }
        }
        let id = self.id_pool.next();
        assert(!old(self)@.contains_key(id)) by {
            if id < old(self).items@.len() {
                assert(!old(self).id_pool.live().contains(id));
            }
        }
        if Some(id) == self.id_pool.max() {
            self.items.push(Some(item));
            assert(self.items@.len() == self.items.len());
        } else {
            self.items[id] = Some(item);
        }
        assert forall|other: Id| other < self.items@.len() implies (
        #[trigger] self.id_pool.live().contains(other) <==> self.items@[other as int] is Some) by {
            if other != id {
                assert(old(self).id_pool.live().contains(other) <==> old(
                    self,
                ).items@[other as int] is Some);
            }
        }
        id
    }

    /// Takes the value under `id` out of the store. A handle that holds nothing is
    /// ignored.
    #[verifier::loop_isolation(false)]
    pub fn remove(&mut self, id: Id)
        requires
            old(self).wf(),
        ensures
            final(self).wf(),
            final(self)@ =~= old(self)@.remove(id),
            final(self).high_water() <= old(self).high_water(),
            id + 1 != old(self).high_water() ==> final(self).high_water() == old(
                self,
            ).high_water(),
    {
        let max = match self.id_pool.max() {
            Some(max) => max,
            None => {
                assert(!self@.contains_key(id));
                return ;
            },
        };
        if id > max {
            assert(!self@.contains_key(id));
            return ;
        }
        if id == max {
            self.items.pop();
            while self.items.len() > 0 && self.items[self.items.len() - 1].is_none()
                invariant
                    self.id_pool == old(self).id_pool,
                    self.items@.len() < old(self).items@.len(),
                    self.items@ =~= old(self).items@.subrange(0, self.items@.len() as int),
                    forall|i: int|
                        self.items@.len() <= i < old(self).items@.len() - 1 ==> (#[trigger] old(
                            self,
                        ).items@[i]) is None,
                decreases self.items@.len(),
            {
                self.items.pop();
            }
        } else {
            self.items[id] = None;
        }
        self.id_pool.free(id);
        proof {
            self.id_pool.lemma_high_water_is_least_bound();
            assert forall|other: Id| other < self.items@.len() implies (
            #[trigger] self.id_pool.live().contains(other) <==> self.items@[other as int] is Some) by {
                if other != id {
                    assert(old(self).id_pool.live().contains(other) <==> old(
                        self,
                    ).items@[other as int] is Some);
                }
            }
            if self.id_pool.high_water() > self.items@.len() {
                let top = (self.id_pool.high_water() - 1) as Id;
                assert(self.id_pool.live().contains(top));
                assert(old(self).id_pool.live().contains(top));
                assert(old(self).items@[top as int] is Some);
            }
            if self.id_pool.high_water() < self.items@.len() {
                let top = (self.items@.len() - 1) as Id;
                assert(self.items@[top as int] is Some);
                assert(self.id_pool.live().contains(top));
            }
        }
    }
}

} // verus!
