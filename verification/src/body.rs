use vstd::arithmetic::div_mod::{lemma_mod_add_multiples_vanish, lemma_mod_self_0, lemma_small_mod};
use vstd::prelude::*;

verus! {

/// What kind of outline a body has, without its measures.
#[derive(Clone, Copy, Debug, PartialEq, Eq, Structural)]
pub enum ShapeKind {
    /// A single point: it collides as a circle of radius zero.
    Point,
    /// A circle around the body's position.
    Circle,
    /// A convex polygon, its vertices listed counter-clockwise.
    Polygon,
}

impl ShapeKind {
    /// Points and circles are round: they are tested by centre and radius.
    pub open spec fn is_round(self) -> bool {
        self != ShapeKind::Polygon
    }
}

/// On a polygon of `count` vertices, the vertex that follows vertex `index`:
/// the next one, and the first one after the last.
pub fn next_vertex(index: usize, count: usize) -> (next: usize)
    requires
        index < count,
    ensures
        next == (index + 1) % (count as int),
        next == if index + 1 == count { 0 } else { index + 1 },
{
    proof {
        if index + 1 == count {
            lemma_mod_self_0(count as int);
        } else {
            lemma_small_mod((index + 1) as nat, count as nat);
        }
    }
    if index + 1 == count {
        0
    } else {
        index + 1
    }
}

/// On a polygon of `count` vertices, the vertex that precedes vertex `index`:
/// the one before, and the last one before the first.
pub fn previous_vertex(index: usize, count: usize) -> (previous: usize)
    requires
        index < count,
    ensures
        previous == (index + count - 1) % (count as int),
        previous == if index == 0 { count - 1 } else { index - 1 },
{
    proof {
        if index == 0 {
            lemma_small_mod((count - 1) as nat, count as nat);
        } else {
            lemma_mod_add_multiples_vanish(index - 1, count as int);
            lemma_small_mod((index - 1) as nat, count as nat);
        }
    }
    if index == 0 {
        count - 1
    } else {
        index - 1
    }
}

} // verus!
