use physics::id_map::IdMap;
use physics::soft_body::{add_all, endpoints, remove_all, remove_soft_body, SoftBodyId};

#[test]
fn endpoints_pick_handles_by_place() {
    let point_ids = vec![12, 5, 9];
    assert_eq!(endpoints(&point_ids, [0, 2]), [12, 9]);
    assert_eq!(endpoints(&point_ids, [2, 1]), [9, 5]);
    assert_eq!(endpoints(&point_ids, [1, 1]), [5, 5]);
}

#[test]
fn add_all_returns_one_fresh_handle_per_value() {
    let mut store = IdMap::new();
    store.add("kept");
    store.add("gone");
    store.add("top");
    store.remove(1);
    let ids = add_all(&mut store, vec!["a", "b", "c"]);
    assert_eq!(ids.len(), 3);
    assert_eq!(ids[0], 1);
    assert_eq!(ids[1], 3);
    assert_eq!(ids[2], 4);
    assert_eq!(store.get(ids[0]), Some(&"a"));
    assert_eq!(store.get(ids[1]), Some(&"b"));
    assert_eq!(store.get(ids[2]), Some(&"c"));
    assert_eq!(store.get(0), Some(&"kept"));
    assert_eq!(store.get(2), Some(&"top"));
}

#[test]
fn add_all_of_nothing_changes_nothing() {
    let mut store = IdMap::new();
    store.add(1);
    let ids = add_all(&mut store, Vec::new());
    assert!(ids.is_empty());
    assert_eq!(store.values(), vec![&1]);
}

#[test]
fn remove_all_takes_out_the_listed_handles() {
    let mut store = IdMap::new();
    let ids = add_all(&mut store, vec![10, 20, 30, 40, 50]);
    remove_all(&mut store, &vec![ids[1], ids[3], ids[1], 99]);
    assert_eq!(store.values(), vec![&10, &30, &50]);
    assert_eq!(store.get(ids[1]), None);
    assert_eq!(store.get(ids[3]), None);
}

#[test]
fn soft_body_leaves_both_stores() {
    let mut bodies = IdMap::new();
    let mut effectors = IdMap::new();
    let ground = bodies.add("ground");
    let points = add_all(&mut bodies, vec!["left", "middle", "right"]);
    let gravity = effectors.add("gravity");
    let springs = add_all(&mut effectors, vec!["left-middle", "middle-right"]);
    let id = SoftBodyId { points: points.clone(), springs: springs.clone() };
    remove_soft_body(&mut bodies, &mut effectors, id);
    assert_eq!(bodies.values(), vec![&"ground"]);
    assert_eq!(effectors.values(), vec![&"gravity"]);
    assert_eq!(bodies.get(ground), Some(&"ground"));
    assert_eq!(effectors.get(gravity), Some(&"gravity"));
    for point in points {
        assert_eq!(bodies.get(point), None);
    }
    for spring in springs {
        assert_eq!(effectors.get(spring), None);
    }
}
