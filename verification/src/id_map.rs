pub use crate::id_pool::Id;
use std::collections::HashSet;
use vstd::prelude::*;

verus! {

broadcast use vstd::std_specs::hash::group_hash_axioms;

/// The handles in `used` that lie below `bound`, in ascending order.
pub open spec fn handles_below(used: Set<Id>, bound: nat) -> Seq<Id>
    decreases bound,
{
    if bound == 0 {
        Seq::empty()
    } else {
        let rest = handles_below(used, (bound - 1) as nat);
        if used.contains((bound - 1) as Id) {
            rest.push((bound - 1) as Id)
        } else {
            rest
        }
    }
}

/// `handles_below` lists exactly the handles of `used` under `bound`, each once
/// and in ascending order.
pub proof fn lemma_handles_below(used: Set<Id>, bound: nat)
    requires
        bound <= usize::MAX + 1,
    ensures
        forall|k: int|
            0 <= k < handles_below(used, bound).len() ==> used.contains(
                #[trigger] handles_below(used, bound)[k],
            ) && handles_below(used, bound)[k] < bound,
        forall|j: int, k: int|
            0 <= j < k < handles_below(used, bound).len() ==> handles_below(used, bound)[j]
                < handles_below(used, bound)[k],
        forall|id: Id|
            used.contains(id) && id < bound ==> #[trigger] handles_below(used, bound).contains(
                id,
            ),
    decreases bound,
{
    if bound > 0 {
        let below = (bound - 1) as nat;
        let rest = handles_below(used, below);
        let all = handles_below(used, bound);
        lemma_handles_below(used, below);
        assert forall|id: Id| used.contains(id) && id < bound implies #[trigger] all.contains(
            id,
        ) by {
            if id < below {
                assert(rest.contains(id));
                let k = choose|k: int| 0 <= k < rest.len() && rest[k] == id;
                assert(all[k] == id);
            } else {
                assert(all[all.len() - 1] == id);
            }
        }
    }
}

/// A handle that was removed names nothing: looking it up finds no value. It
/// stays so while values are added under other handles. Should `add` hand the
/// same handle out again, it names the new value and nothing of the old one.
pub proof fn lemma_removed_handle_is_stale<T>(before: Map<Id, T>, id: Id, fresh: Id, value: T)
    ensures
        !before.remove(id).contains_key(id),
        fresh != id ==> !before.remove(id).insert(fresh, value).contains_key(id),
        fresh == id ==> before.remove(id).insert(fresh, value)[id] == value,
{
}

/// A sparse store: each value lives under a handle that stays the same until the
/// value is removed.
///
/// Seen from outside, a store is a finite map from handles to values (its view)
/// together with a high-water mark that bounds the handles in use. Handles below
/// the mark that hold nothing are vacancies; `add` fills a vacancy before it
/// raises the mark, and `remove` lowers the mark past every vacancy at the top.
#[derive(Debug)]
pub struct IdMap<T> {
    values: Vec<Option<T>>,
    free_ids: HashSet<Id>,
}

impl<T> View for IdMap<T> {
    type V = Map<Id, T>;

    /// The values in the store, each under its handle.
    closed spec fn view(&self) -> Map<Id, T> {
        Map::new(
            |id: Id| id < self.values@.len() && self.values@[id as int] is Some,
            |id: Id| self.values@[id as int]->0,
        )
    }
}

impl<T> IdMap<T> {
    /// One more than the greatest handle in use; 0 when the store is empty.
    pub closed spec fn high_water(&self) -> nat {
        self.values@.len()
    }

    /// The store's own list of vacancies names exactly the handles below the
    /// high-water mark that hold nothing.
    pub closed spec fn vacancies_recorded(&self) -> bool {
        forall|id: Id|
            #[trigger] self.free_ids@.contains(id) <==> id < self.values@.len()
                && self.values@[id as int] is None
    }

    /// The high-water mark is a machine number that bounds every handle in use,
    /// and the handle just below it is in use.
    pub open spec fn wf(&self) -> bool {
        &&& self.high_water() <= usize::MAX
        &&& forall|id: Id| #[trigger] self@.contains_key(id) ==> id < self.high_water()
        &&& self.high_water() > 0 ==> self@.contains_key((self.high_water() - 1) as Id)
        &&& self.vacancies_recorded()
    }

    /// No handle below the high-water mark is vacant.
    pub open spec fn dense(&self) -> bool {
        forall|id: Id| id < self.high_water() ==> #[trigger] self@.contains_key(id)
    }

    /// An empty store.
    pub fn new() -> (store: Self)
        ensures
            store.wf(),
            store@ =~= Map::<Id, T>::empty(),
            store.high_water() == 0,
    {
        Self { values: Vec::new(), free_ids: HashSet::new() }
    }

    /// Puts `value` into the store and returns its handle. A vacancy is filled if
    /// there is one; which one is not fixed. Otherwise the value gets the handle
    /// at the high-water mark, which rises by one.
    pub fn add(&mut self, value: T) -> (id: Id)
        requires
            old(self).wf(),
        ensures
            final(self).wf(),
            !old(self)@.contains_key(id),
            final(self)@ =~= old(self)@.insert(id, value),
            id <= old(self).high_water(),
            id == old(self).high_water() <==> old(self).dense(),
            final(self).high_water() == if id == old(self).high_water() {
                old(self).high_water() + 1
            } else {
                old(self).high_water()
            },
    {
        let mut found: Option<Id> = None;
        for candidate in free: self.free_ids.iter()
            invariant
                found.is_none() ==> free.index() == 0,
                found.is_some() ==> self.free_ids@.contains(found.unwrap()),
                free.seq().len() == self.free_ids@.len(),
                self.free_ids@.finite(),
            ensures
                found.is_none() ==> self.free_ids@.len() == 0,
        {
            assert(free.seq().unref().to_set().contains(free.seq().unref()[0]));
            found = Some(*candidate);
            break ;
        }
        match found {
            Some(id) => {
                assert(!old(self)@.contains_key(id));
                self.values[id] = Some(value);
                self.free_ids.remove(&id);
                id
            },
            None => {
                assert(self.free_ids@ =~= Set::<Id>::empty());
                assert forall|id: Id| id < old(self).high_water() implies #[trigger] old(
                    self,
                )@.contains_key(id) by {
                    assert(!self.free_ids@.contains(id));
                }
                let id = self.values.len();
                self.values.push(Some(value));
                assert(self.values@.len() == self.values.len());
                id
            },
        }
    }

    /// Takes the value under `id` out of the store. A handle that holds nothing is
    /// ignored.
    pub fn remove(&mut self, id: Id)
        requires
            old(self).wf(),
        ensures
            final(self).wf(),
            final(self)@ =~= old(self)@.remove(id),
            final(self).high_water() <= old(self).high_water(),
            id + 1 != old(self).high_water() ==> final(self).high_water() == old(
                self,
            ).high_water(),
    {
        if id >= self.values.len() {
            return ;
        }
        if id == self.values.len() - 1 {
            self.values.pop();
            while self.values.len() > 0 && self.values[self.values.len() - 1].is_none()
                invariant
                    self.values@.len() < old(self).values@.len(),
                    forall|v: Id|
                        #[trigger] self.free_ids@.contains(v) <==> v < self.values@.len()
                            && self.values@[v as int] is None,
                    self@ =~= old(self)@.remove(id),
                decreases self.values@.len(),
            {
                let top: Id = self.values.len() - 1;
                self.values.pop();
                self.free_ids.remove(&top);
            }
        } else if self.values[id].is_some() {
            self.values[id] = None;
            self.free_ids.insert(id);
        }
    }

    /// Empties the store.
    pub fn clear(&mut self)
        ensures
            final(self).wf(),
            final(self)@ =~= Map::<Id, T>::empty(),
            final(self).high_water() == 0,
    {
        self.values = Vec::new();
        self.free_ids = HashSet::new();
    }

    /// The value under `id`, if the handle holds one.
    pub fn get(&self, id: Id) -> (found: Option<&T>)
        ensures
            match found {
                Some(value) => self@.contains_key(id) && *value == self@[id],
                None => !self@.contains_key(id),
            },
    {
        if id < self.values.len() {
            self.values[id].as_ref()
        } else {
            None
        }
    }

    /// The value under `id`, to be changed in place, if the handle holds one. The
    /// store afterwards holds under `id` whatever the caller leaves there, and is
    /// otherwise as before.
    pub fn get_mut(&mut self, id: Id) -> (found: Option<&mut T>)
        requires
            old(self).wf(),
        ensures
            final(self).wf(),
            final(self).high_water() == old(self).high_water(),
            match found {
                Some(value) => {
                    &&& old(self)@.contains_key(id)
                    &&& *value == old(self)@[id]
                    &&& final(self)@ =~= old(self)@.insert(id, *final(value))
                },
                None => !old(self)@.contains_key(id) && final(self)@ =~= old(self)@,
            },
    {
        if id < self.values.len() {
            self.values[id].as_mut()
        } else {
            None
        }
    }

    /// The values under two different handles, both to be changed in place. The
    /// request is refused, and nothing is lent out, when the two handles are the
    /// same or when either holds nothing.
    pub fn get_disjoint_mut(&mut self, ids: [Id; 2]) -> (found: Option<(&mut T, &mut T)>)
        requires
            old(self).wf(),
        ensures
            final(self).wf(),
            final(self).high_water() == old(self).high_water(),
            match found {
                Some(pair) => {
                    &&& ids[0] != ids[1]
                    &&& old(self)@.contains_key(ids[0])
                    &&& old(self)@.contains_key(ids[1])
                    &&& *pair.0 == old(self)@[ids[0]]
                    &&& *pair.1 == old(self)@[ids[1]]
                    &&& final(self)@ =~= old(self)@.insert(ids[0], *final(pair.0)).insert(
                        ids[1],
                        *final(pair.1),
                    )
                },
                None => {
                    &&& ids[0] == ids[1] || !old(self)@.contains_key(ids[0]) || !old(
                        self,
                    )@.contains_key(ids[1])
                    &&& final(self)@ =~= old(self)@
                },
            },
    {
        let a: Id = ids[0];
        let b: Id = ids[1];
        let n: usize = self.values.len();
        if a == b || a >= n || b >= n {
            return None;
        }
        if self.values[a].is_none() || self.values[b].is_none() {
            return None;
        }
        if a < b {
            let (low, high) = self.values.as_mut_slice().split_at_mut(b);
            let (_, from_a) = low.split_at_mut(a);
            let first = from_a.first_mut().unwrap().as_mut().unwrap();
            let second = high.first_mut().unwrap().as_mut().unwrap();
            Some((first, second))
        } else {
            let (low, high) = self.values.as_mut_slice().split_at_mut(a);
            let (_, from_b) = low.split_at_mut(b);
            let second = from_b.first_mut().unwrap().as_mut().unwrap();
            let first = high.first_mut().unwrap().as_mut().unwrap();
            Some((first, second))
        }
    }

    /// The handles in use, in ascending order.
    pub open spec fn ids(&self) -> Seq<Id> {
        handles_below(self@.dom(), self.high_water())
    }

    /// `ids` lists exactly the handles in use, each once and in ascending order.
    pub proof fn lemma_ids_ascending_and_complete(&self)
        requires
            self.wf(),
        ensures
            forall|j: int, k: int|
                0 <= j < k < self.ids().len() ==> self.ids()[j] < self.ids()[k],
            forall|k: int|
                0 <= k < self.ids().len() ==> self@.contains_key(#[trigger] self.ids()[k]),
            forall|id: Id| self@.contains_key(id) ==> #[trigger] self.ids().contains(id),
    {
        lemma_handles_below(self@.dom(), self.high_water());
    }

    /// The values in the store, in the order of their handles.
    pub fn values(&self) -> (all: Vec<&T>)
        ensures
            all@.len() == self.ids().len(),
            forall|k: int| 0 <= k < all@.len() ==> *#[trigger] all@[k] == self@[self.ids()[k]],
    {
        let mut all: Vec<&T> = Vec::new();
        let mut i: usize = 0;
        while i < self.values.len()
            invariant
                i <= self.values@.len(),
                all@.len() == handles_below(self@.dom(), i as nat).len(),
                forall|k: int|
                    0 <= k < all@.len() ==> *#[trigger] all@[k] == self@[handles_below(
                        self@.dom(),
                        i as nat,
                    )[k]],
            decreases self.values@.len() - i,
        {
            if let Some(value) = self.values[i].as_ref() {
                all.push(value);
            }
            i += 1;
        }
        all
    }

    /// The values in the store, in the order of their handles, each to be changed
    /// in place. The store afterwards holds under each handle whatever the caller
    /// leaves there; no handle is gained or lost.
    #[verifier::loop_isolation(false)]
    pub fn values_mut(&mut self) -> (all: Vec<&mut T>)
        requires
            old(self).wf(),
        ensures
            final(self).wf(),
            final(self).high_water() == old(self).high_water(),
            final(self)@.dom() =~= old(self)@.dom(),
            all@.len() == old(self).ids().len(),
            forall|k: int|
                0 <= k < all@.len() ==> *#[trigger] all@[k] == old(self)@[old(self).ids()[k]],
            forall|k: int|
                #![trigger all@[k]]
                0 <= k < all@.len() ==> final(self)@[old(self).ids()[k]] == *final(all@[k]),
    {
        let ghost used = self@.dom();
        let ghost before = self.values@;
        assert(before.len() == self.values.len());
        assert(forall|id: Id|
            used.contains(id) <==> id < before.len() && (#[trigger] before[id as int]) is Some);
        let mut all: Vec<&mut T> = Vec::new();
        let mut rest: &mut [Option<T>] = self.values.as_mut_slice();
        let ghost mut done: nat = 0;
        while rest.len() > 0
            invariant
                before.len() <= usize::MAX,
                done + rest@.len() == before.len(),
                rest@ =~= before.subrange(done as int, before.len() as int),
                all@.len() == handles_below(used, done).len(),
                forall|k: int|
                    0 <= k < all@.len() ==> *#[trigger] all@[k] == before[handles_below(
                        used,
                        done,
                    )[k] as int]->0,
                after_borrow(self.values)@.len() == done + final(rest)@.len(),
                forall|i: int|
                    #![trigger final(rest)@[i]]
                    0 <= i < final(rest)@.len() ==> after_borrow(self.values)@[done + i]
                        == final(rest)@[i],
                forall|i: int|
                    0 <= i < done && before[i] is None ==> #[trigger] after_borrow(
                        self.values,
                    )@[i] is None,
                forall|k: int|
                    #![trigger all@[k]]
                    0 <= k < all@.len() ==> after_borrow(self.values)@[handles_below(
                        used,
                        done,
                    )[k] as int] == Some(*final(all@[k])),
            decreases rest@.len(),
        {
            proof {
                lemma_handles_below(used, done);
            }
            let ghost whole = rest;
            let ghost listed = handles_below(used, done);
            let (head, tail) = rest.split_at_mut(1);
            let slot = head.first_mut().unwrap();
            let ghost taken = slot;
            if let Some(value) = slot.as_mut() {
                all.push(value);
            }
            rest = tail;
            proof {
                assert(final(whole)@.len() == 1 + final(rest)@.len());
                assert(final(whole)@[0] == *final(taken));
                assert forall|i: int| 0 <= i < final(rest)@.len() implies final(whole)@[1 + i]
                    == #[trigger] final(rest)@[i] by {}
                assert(whole@[0] == before[done as int]);
                assert(used.contains(done as Id) <==> before[done as int] is Some);
                done = done + 1;
                assert(handles_below(used, done) == if used.contains((done - 1) as Id) {
                    listed.push((done - 1) as Id)
                } else {
                    listed
                });
            }
        }
        proof {
            lemma_handles_below(used, done);
            assert forall|id: Id| id < before.len() && before[id as int] is Some implies (
            #[trigger] after_borrow(self.values)@[id as int]) is Some by {
                assert(used.contains(id));
                let listed = handles_below(used, done);
                assert(listed.contains(id));
                let k = choose|k: int| 0 <= k < listed.len() && listed[k] == id;
                assert(after_borrow(self.values)@[listed[k] as int] == Some(*final(all@[k])));
            }
        }
        all
    }
}

} // verus!
