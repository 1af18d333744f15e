use crate::id_map::IdMap;
use crate::id_pool::Id;
use vstd::prelude::*;

verus! {

/// The handles of a soft body: those of its point bodies and those of the
/// springs between them.
pub struct SoftBodyId {
    pub points: Vec<Id>,
    pub springs: Vec<Id>,
}

/// The handles of the two points that a spring joins, picked from the handles
/// of a soft body's points by their places.
pub fn endpoints(point_ids: &Vec<Id>, body_indices: [usize; 2]) -> (ends: [Id; 2])
    requires
        body_indices[0] < point_ids@.len(),
        body_indices[1] < point_ids@.len(),
    ensures
        ends@ == seq![point_ids@[body_indices[0] as int], point_ids@[body_indices[1] as int]],
{
    [point_ids[body_indices[0]], point_ids[body_indices[1]]]
}

/// Puts every value of `values` into `store` and returns their handles, in the
/// order of the values. The handles are new to the store and differ from each
/// other; what the store held before stays as it was.
pub fn add_all<T>(store: &mut IdMap<T>, values: Vec<T>) -> (ids: Vec<Id>)
    requires
        old(store).wf(),
    ensures
        final(store).wf(),
        ids@.len() == values@.len(),
        ids@.no_duplicates(),
        forall|k: int|
            0 <= k < ids@.len() ==> !old(store)@.contains_key(#[trigger] ids@[k]) && final(store)@.contains_key(ids@[k]) && final(store)@[ids@[k]] == values@[k],
        forall|id: Id|
            old(store)@.contains_key(id) ==> #[trigger] final(store)@.contains_key(id) && final(store)@[id] == old(store)@[id],
        forall|id: Id|
            #[trigger] final(store)@.contains_key(id) ==> old(store)@.contains_key(id)
                || ids@.contains(id),
{
    let mut ids: Vec<Id> = Vec::new();
    for value in iter: values
        invariant
            store.wf(),
            ids@.len() == iter.index(),
            ids@.no_duplicates(),
            forall|k: int|
                0 <= k < ids@.len() ==> !old(store)@.contains_key(#[trigger] ids@[k])
                    && store@.contains_key(ids@[k]) && store@[ids@[k]] == values@[k],
            forall|id: Id|
                old(store)@.contains_key(id) ==> #[trigger] store@.contains_key(id) && store@[id]
                    == old(store)@[id],
            forall|id: Id|
                #[trigger] store@.contains_key(id) ==> old(store)@.contains_key(id)
                    || ids@.contains(id),
    {
        let ghost before = ids@;
        let id = store.add(value);
        ids.push(id);
        proof {
            assert forall|other: Id| #[trigger] store@.contains_key(other) implies old(
                store,
            )@.contains_key(other) || ids@.contains(other) by {
                if other == id {
                    assert(ids@[ids@.len() - 1] == id);
                } else {
                    if !old(store)@.contains_key(other) {
                        assert(before.contains(other));
                        let k = choose|k: int| 0 <= k < before.len() && before[k] == other;
                        assert(ids@[k] == other);
                    }
                }
            }
        }
    }
    ids
}

/// Takes the values under all of `ids` out of `store`. Handles that hold
/// nothing are ignored.
pub fn remove_all<T>(store: &mut IdMap<T>, ids: &Vec<Id>)
    requires
        old(store).wf(),
    ensures
        final(store).wf(),
        final(store)@ =~= old(store)@.remove_keys(ids@.to_set()),
{
    let mut k: usize = 0;
    while k < ids.len()
        invariant
            k <= ids@.len(),
            store.wf(),
            store@ =~= old(store)@.remove_keys(ids@.subrange(0, k as int).to_set()),
        decreases ids@.len() - k,
    {
        let ghost gone = ids@.subrange(0, k as int);
        store.remove(ids[k]);
        k += 1;
        proof {
            let now = ids@.subrange(0, k as int);
            assert(now =~= gone.push(ids@[k - 1]));
            assert(now.to_set() =~= gone.to_set().insert(ids@[k - 1])) by {
                assert forall|id: Id| now.to_set().contains(id) <==> gone.to_set().insert(
                    ids@[k - 1],
                ).contains(id) by {
                    if now.contains(id) {
                        let at = choose|at: int| 0 <= at < now.len() && now[at] == id;
                        if at < gone.len() {
                            assert(gone[at] == id);
                        }
                    }
                    if gone.contains(id) {
                        let at = choose|at: int| 0 <= at < gone.len() && gone[at] == id;
                        assert(now[at] == id);
                    }
                    if id == ids@[k - 1] {
                        assert(now[k - 1] == id);
                    }
                }
            }
        }
    }
    assert(ids@.subrange(0, k as int) =~= ids@);
}

/// Takes a soft body apart: its points leave `bodies` and its springs leave
/// `effectors`.
pub fn remove_soft_body<B, E>(bodies: &mut IdMap<B>, effectors: &mut IdMap<E>, id: SoftBodyId)
    requires
        old(bodies).wf(),
        old(effectors).wf(),
    ensures
        final(bodies).wf(),
        final(effectors).wf(),
        final(bodies)@ =~= old(bodies)@.remove_keys(id.points@.to_set()),
        final(effectors)@ =~= old(effectors)@.remove_keys(id.springs@.to_set()),
{
    remove_all(bodies, &id.points);
    remove_all(effectors, &id.springs);
}

} // verus!
