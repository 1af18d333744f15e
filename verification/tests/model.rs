use std::collections::{BTreeMap, BTreeSet};

use physics::id_map::IdMap;
use physics::id_pool::IdPool;
use physics::storage::Storage;
use physics::Id;
use rand::rngs::StdRng;
use rand::{Rng, SeedableRng};

/// One more than the greatest handle in `live`, 0 if there is none.
fn bound_of(live: &BTreeSet<Id>) -> Id {
    live.iter().next_back().map_or(0, |top| top + 1)
}

/// Checks a handle that was just handed out against the handles in use before:
/// it was free, it fills a gap if there was one, and else it extends the range.
fn check_fresh(id: Id, live: &BTreeSet<Id>) {
    let bound = bound_of(live);
    assert!(!live.contains(&id));
    if live.len() == bound {
        assert_eq!(id, bound);
    } else {
        assert!(id < bound);
    }
}

#[test]
fn id_map_agrees_with_a_sorted_map_under_random_use() {
    let mut rng = StdRng::seed_from_u64(0x1d_3a9);
    let mut store: IdMap<u64> = IdMap::new();
    let mut model: BTreeMap<Id, u64> = BTreeMap::new();

    for step in 0..20_000u64 {
        match rng.random_range(0..100) {
            0..=39 => {
                let live: BTreeSet<Id> = model.keys().copied().collect();
                let id = store.add(step);
                check_fresh(id, &live);
                model.insert(id, step);
            }
            40..=69 => {
                let id = rng.random_range(0..bound_of(&model.keys().copied().collect()) + 3);
                store.remove(id);
                model.remove(&id);
            }
            70..=79 => {
                let id = rng.random_range(0..40);
                match (store.get_mut(id), model.get_mut(&id)) {
                    (Some(value), Some(expected)) => {
                        assert_eq!(*value, *expected);
                        *value += 1;
                        *expected += 1;
                    }
                    (None, None) => {}
                    _ => panic!("get_mut and the model disagree on handle {id}"),
                }
            }
            80..=89 => {
                let first = rng.random_range(0..40);
                let second = rng.random_range(0..40);
                let both =
                    first != second && model.contains_key(&first) && model.contains_key(&second);
                match store.get_disjoint_mut([first, second]) {
                    Some((a, b)) => {
                        assert!(both);
                        assert_eq!(*a, model[&first]);
                        assert_eq!(*b, model[&second]);
                        std::mem::swap(a, b);
                        let (x, y) = (model[&first], model[&second]);
                        model.insert(first, y);
                        model.insert(second, x);
                    }
                    None => assert!(!both),
                }
            }
            90..=97 => {
                for value in store.values_mut() {
                    *value = value.wrapping_mul(3);
                }
                for value in model.values_mut() {
                    *value = value.wrapping_mul(3);
                }
            }
            _ => {
                if rng.random_range(0..20) == 0 {
                    store.clear();
                    model.clear();
                }
            }
        }

        for id in 0..45 {
            assert_eq!(store.get(id), model.get(&id));
        }
        assert_eq!(store.values(), model.values().collect::<Vec<&u64>>());
    }
}

#[test]
fn id_pool_agrees_with_a_sorted_set_under_random_use() {
    let mut rng = StdRng::seed_from_u64(0xf00d);
    let mut pool = IdPool::new();
    let mut live: BTreeSet<Id> = BTreeSet::new();

    for _ in 0..20_000 {
        if rng.random_range(0..100) < 45 {
            let id = pool.next();
            check_fresh(id, &live);
            live.insert(id);
        } else {
            let id = rng.random_range(0..bound_of(&live) + 3);
            pool.free(id);
            live.remove(&id);
        }
        assert_eq!(pool.max(), live.iter().next_back().copied());
    }
}

#[test]
fn storage_agrees_with_a_sorted_set_under_random_use() {
    let mut rng = StdRng::seed_from_u64(0xbeef);
    let mut store: Storage<u32> = Storage::new();
    let mut live: BTreeSet<Id> = BTreeSet::new();

    for step in 0..20_000u32 {
        if rng.random_range(0..100) < 45 {
            let id = store.add(step);
            check_fresh(id, &live);
            live.insert(id);
        } else {
            let id = rng.random_range(0..bound_of(&live) + 3);
            store.remove(id);
            live.remove(&id);
        }
    }

    // Drain: every handle still in use can be removed, and the store starts over.
    for id in live.iter().rev() {
        store.remove(*id);
    }
    assert_eq!(store.add(0), 0);
}
