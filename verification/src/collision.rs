pub mod default;

use crate::body::ShapeKind;
use crate::id_pool::Id;
use vstd::prelude::*;

verus! {

/// The exact test that decides whether two bodies touch.
#[derive(Clone, Copy, Debug, PartialEq, Eq, Structural)]
pub enum NarrowTest {
    /// Both bodies are round: compare the distance of the centres with the sum
    /// of the radii.
    CircleCircle,
    /// Both bodies are polygons: separating axes from the edges of both.
    PolygonPolygon,
    /// The first body is round, the second a polygon: separating axes from the
    /// polygon's edges and from its vertices towards the centre.
    CirclePolygon,
    /// The first body is a polygon, the second round.
    PolygonCircle,
}

/// The test for a pair of bodies, by their kinds: a point counts as a circle of
/// radius zero.
pub open spec fn test_for(first: ShapeKind, second: ShapeKind) -> NarrowTest {
    if first.is_round() && second.is_round() {
        NarrowTest::CircleCircle
    } else if first.is_round() {
        NarrowTest::CirclePolygon
    } else if second.is_round() {
        NarrowTest::PolygonCircle
    } else {
        NarrowTest::PolygonPolygon
    }
}

/// Chooses the test for a pair of bodies by their kinds.
pub fn narrow_test(first: ShapeKind, second: ShapeKind) -> (test: NarrowTest)
    ensures
        test == test_for(first, second),
{
    match (first, second) {
        (ShapeKind::Polygon, ShapeKind::Polygon) => NarrowTest::PolygonPolygon,
        (ShapeKind::Polygon, _) => NarrowTest::PolygonCircle,
        (_, ShapeKind::Polygon) => NarrowTest::CirclePolygon,
        (_, _) => NarrowTest::CircleCircle,
    }
}

/// The pairs of places `(i, j)` with `i < j < count` that come at or after
/// `(first, second)`, in the order in which two nested loops meet them: by the
/// first place, then by the second.
pub open spec fn places_from(count: nat, first: nat, second: nat) -> Seq<(nat, nat)>
    decreases count - first, count - second,
{
    if first + 1 >= count {
        Seq::empty()
    } else if second >= count {
        places_from(count, first + 1, first + 2)
    } else {
        seq![(first, second)] + places_from(count, first, second + 1)
    }
}

/// Every pair of two different places in a list of `count` entries, the earlier
/// place first.
pub open spec fn places(count: nat) -> Seq<(nat, nat)> {
    places_from(count, 0, 1)
}

/// Whether the pair of places `early` comes before `late` in the order of two
/// nested loops.
pub open spec fn comes_before(early: (nat, nat), late: (nat, nat)) -> bool {
    early.0 < late.0 || (early.0 == late.0 && early.1 < late.1)
}

/// `places_from` lists exactly the pairs `(i, j)` with `i < j < count` that do not
/// come before `(first, second)`, and lists them in ascending order.
pub proof fn lemma_places_from(count: nat, first: nat, second: nat)
    requires
        first < second,
    ensures
        forall|k: int|
            0 <= k < places_from(count, first, second).len() ==> {
                let place = #[trigger] places_from(count, first, second)[k];
                place.0 < place.1 < count && !comes_before(place, (first, second))
            },
        forall|j: int, k: int|
            0 <= j < k < places_from(count, first, second).len() ==> comes_before(
                #[trigger] places_from(count, first, second)[j],
                #[trigger] places_from(count, first, second)[k],
            ),
        forall|i: nat, j: nat|
            i < j < count && !comes_before((i, j), (first, second)) ==> #[trigger] places_from(
                count,
                first,
                second,
            ).contains((i, j)),
    decreases count - first, count - second,
{
    let all = places_from(count, first, second);
    if first + 1 >= count {
        assert(all =~= Seq::empty());
    } else if second >= count {
        lemma_places_from(count, first + 1, first + 2);
        assert(all == places_from(count, first + 1, first + 2));
        assert forall|i: nat, j: nat|
            i < j < count && !comes_before((i, j), (first, second)) implies #[trigger] all.contains(
            (i, j),
        ) by {
            assert(!comes_before((i, j), (first + 1, first + 2)));
        }
    } else {
        let rest = places_from(count, first, second + 1);
        lemma_places_from(count, first, second + 1);
        assert(all == seq![(first, second)] + rest);
        assert forall|k: int| 0 <= k < all.len() implies {
            let place = #[trigger] all[k];
            place.0 < place.1 < count && !comes_before(place, (first, second))
        } by {
            if k > 0 {
                assert(all[k] == rest[k - 1]);
            }
        }
        assert forall|j: int, k: int| 0 <= j < k < all.len() implies comes_before(
            #[trigger] all[j],
            #[trigger] all[k],
        ) by {
            assert(all[k] == rest[k - 1]);
            if j > 0 {
                assert(all[j] == rest[j - 1]);
            }
        }
        assert forall|i: nat, j: nat|
            i < j < count && !comes_before((i, j), (first, second)) implies #[trigger] all.contains(
            (i, j),
        ) by {
            if (i, j) == (first, second) {
                assert(all[0] == (i, j));
            } else {
                assert(rest.contains((i, j)));
                let k = choose|k: int| 0 <= k < rest.len() && rest[k] == (i, j);
                assert(all[k + 1] == (i, j));
            }
        }
    }
}

/// `places` lists every pair of two different places below `count` with the
/// earlier place first, and lists each pair once.
pub proof fn lemma_places_complete_and_distinct(count: nat)
    ensures
        forall|k: int|
            0 <= k < places(count).len() ==> (#[trigger] places(count)[k]).0 < places(
                count,
            )[k].1 < count,
        forall|i: nat, j: nat| i < j < count ==> #[trigger] places(count).contains((i, j)),
        places(count).no_duplicates(),
{
    lemma_places_from(count, 0, 1);
    assert forall|j: int, k: int|
        0 <= j < places(count).len() && 0 <= k < places(count).len() && j != k implies places(
        count,
    )[j] != places(count)[k] by {
        if j < k {
            assert(comes_before(places(count)[j], places(count)[k]));
        } else {
            assert(comes_before(places(count)[k], places(count)[j]));
        }
    }
}

/// The entries of `list` at each pair of places, in the order of `places`.
pub open spec fn pairs_of(list: Seq<Id>) -> Seq<(Id, Id)> {
    places(list.len()).map_values(|place: (nat, nat)| (list[place.0 as int], list[place.1 as int]))
}

/// Every unordered pair of entries of `managed`, each once: the entry that comes
/// earlier in the list stands first in its pair, and the pairs follow the order of
/// the list.
pub fn unordered_pairs(managed: &Vec<Id>) -> (pairs: Vec<[Id; 2]>)
    ensures
        pairs@.len() == pairs_of(managed@).len(),
        forall|k: int|
            0 <= k < pairs@.len() ==> (#[trigger] pairs@[k])@ == seq![
                pairs_of(managed@)[k].0,
                pairs_of(managed@)[k].1,
            ],
{
    let count = managed.len();
    let mut pairs: Vec<[Id; 2]> = Vec::new();
    let ghost mut done: Seq<(nat, nat)> = Seq::empty();
    let mut i: usize = 0;
    while i < count
        invariant
            count == managed@.len(),
            i <= count,
            done + places_from(count as nat, i as nat, (i + 1) as nat) =~= places(count as nat),
            pairs@.len() == done.len(),
            forall|k: int|
                0 <= k < pairs@.len() ==> (#[trigger] pairs@[k])@ == seq![
                    managed@[done[k].0 as int],
                    managed@[done[k].1 as int],
                ],
        decreases count - i,
    {
        let mut j: usize = i + 1;
        while j < count
            invariant
                count == managed@.len(),
                i < j <= count,
                done + places_from(count as nat, i as nat, j as nat) =~= places(count as nat),
                pairs@.len() == done.len(),
                forall|k: int|
                    0 <= k < pairs@.len() ==> (#[trigger] pairs@[k])@ == seq![
                        managed@[done[k].0 as int],
                        managed@[done[k].1 as int],
                    ],
            decreases count - j,
        {
            let pair: [Id; 2] = [managed[i], managed[j]];
            pairs.push(pair);
            proof {
                done = done.push((i as nat, j as nat));
            }
            j += 1;
        }
        i += 1;
    }
    pairs
}

} // verus!
