use physics::body::{next_vertex, previous_vertex, ShapeKind};
use physics::collision::default::DefaultNarrowPhase;
use physics::collision::{narrow_test, unordered_pairs, NarrowTest};

#[test]
fn narrow_phase_starts_at_zero_and_counts_contacts() {
    let mut phase = DefaultNarrowPhase::new();
    assert_eq!(phase.collisions(), 0);
    phase.record();
    phase.record();
    assert_eq!(phase.collisions(), 2);
}

#[test]
fn round_bodies_take_the_circle_test() {
    assert_eq!(narrow_test(ShapeKind::Circle, ShapeKind::Circle), NarrowTest::CircleCircle);
    assert_eq!(narrow_test(ShapeKind::Point, ShapeKind::Circle), NarrowTest::CircleCircle);
    assert_eq!(narrow_test(ShapeKind::Circle, ShapeKind::Point), NarrowTest::CircleCircle);
    assert_eq!(narrow_test(ShapeKind::Point, ShapeKind::Point), NarrowTest::CircleCircle);
}

#[test]
fn polygons_take_the_separating_axis_test() {
    assert_eq!(narrow_test(ShapeKind::Polygon, ShapeKind::Polygon), NarrowTest::PolygonPolygon);
}

#[test]
fn mixed_pairs_keep_their_order() {
    assert_eq!(narrow_test(ShapeKind::Circle, ShapeKind::Polygon), NarrowTest::CirclePolygon);
    assert_eq!(narrow_test(ShapeKind::Point, ShapeKind::Polygon), NarrowTest::CirclePolygon);
    assert_eq!(narrow_test(ShapeKind::Polygon, ShapeKind::Circle), NarrowTest::PolygonCircle);
    assert_eq!(narrow_test(ShapeKind::Polygon, ShapeKind::Point), NarrowTest::PolygonCircle);
}

#[test]
fn no_pairs_from_fewer_than_two_bodies() {
    assert!(unordered_pairs(&Vec::new()).is_empty());
    assert!(unordered_pairs(&vec![3]).is_empty());
}

#[test]
fn two_bodies_make_one_pair() {
    assert_eq!(unordered_pairs(&vec![8, 5]), vec![[8, 5]]);
}

#[test]
fn pairs_follow_the_order_of_the_list() {
    assert_eq!(
        unordered_pairs(&vec![7, 1, 4, 9]),
        vec![[7, 1], [7, 4], [7, 9], [1, 4], [1, 9], [4, 9]]
    );
}

#[test]
fn each_pair_of_places_appears_once() {
    let managed: Vec<usize> = (10..30).collect();
    let pairs = unordered_pairs(&managed);
    assert_eq!(pairs.len(), 20 * 19 / 2);
    for (at, pair) in pairs.iter().enumerate() {
        assert!(pair[0] < pair[1]);
        assert!(!pairs[..at].contains(pair));
        assert!(!pairs.contains(&[pair[1], pair[0]]));
    }
}

#[test]
fn next_vertex_wraps_after_the_last() {
    assert_eq!(next_vertex(0, 4), 1);
    assert_eq!(next_vertex(2, 4), 3);
    assert_eq!(next_vertex(3, 4), 0);
    assert_eq!(next_vertex(0, 1), 0);
}

#[test]
fn previous_vertex_wraps_before_the_first() {
    assert_eq!(previous_vertex(0, 4), 3);
    assert_eq!(previous_vertex(1, 4), 0);
    assert_eq!(previous_vertex(3, 4), 2);
    assert_eq!(previous_vertex(0, 1), 0);
}
