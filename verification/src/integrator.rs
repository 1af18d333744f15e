use crate::id_pool::Id;
use vstd::prelude::*;

verus! {

/// The place of the first `id` in `list`, if it occurs there.
fn position(list: &Vec<Id>, id: Id) -> (place: Option<usize>)
    ensures
        match place {
            Some(i) => {
                &&& i < list@.len()
                &&& list@[i as int] == id
                &&& list@.contains(id)
                &&& list@.index_of_first(id) == Some(i as int)
            },
            None => !list@.contains(id) && list@.index_of_first(id).is_none(),
        },
{
    let mut i: usize = 0;
    while i < list.len()
        invariant
            i <= list@.len(),
            forall|j: int| 0 <= j < i ==> list@[j] != id,
        decreases list@.len() - i,
    {
        if list[i] == id {
            proof {
                list@.index_of_first_ensures(id);
                assert(list@.contains(id));
                let first = list@.index_of_first(id)->0;
                assert(list@[first] == id);
                assert(first == i);
            }
            return Some(i);
        }
        i += 1;
    }
    proof {
        list@.index_of_first_ensures(id);
    }
    None
}

/// Appends `id` to `list` unless it is already there.
fn push_unique(list: &mut Vec<Id>, id: Id)
    ensures
        final(list)@ == if old(list)@.contains(id) {
            old(list)@
        } else {
            old(list)@.push(id)
        },
{
    if position(list, id).is_none() {
        list.push(id);
    }
}

/// Takes the first `id` out of `list`, if it occurs there.
fn remove_first(list: &mut Vec<Id>, id: Id)
    ensures
        final(list)@ == old(list)@.remove_value(id),
{
    if let Some(i) = position(list, id) {
        list.remove(i);
    }
}

/// The bodies that an explicit Euler step advances: positions move by the
/// velocities of the step's beginning, then the velocities take up the forces.
pub struct ExplicitEuler {
    pub bodies: Vec<Id>,
}

impl ExplicitEuler {
    /// An integrator for the bodies in `bodies`, in that order.
    pub fn new(bodies: Vec<Id>) -> (integrator: Self)
        ensures
            integrator.bodies@ == bodies@,
    {
        Self { bodies }
    }

    /// Puts `id` under this integrator, at the end of its list, unless it is
    /// already there.
    pub fn add_body(&mut self, id: Id)
        ensures
            final(self).bodies@ == if old(self).bodies@.contains(id) {
                old(self).bodies@
            } else {
                old(self).bodies@.push(id)
            },
    {
        push_unique(&mut self.bodies, id);
    }

    /// Takes `id` from under this integrator: its first entry in the list goes,
    /// the others keep their order.
    pub fn remove_body(&mut self, id: Id)
        ensures
            final(self).bodies@ == old(self).bodies@.remove_value(id),
    {
        remove_first(&mut self.bodies, id);
    }
}

/// The bodies that a semi-implicit Euler step advances: the velocities take up
/// the forces first, then positions move by the new velocities.
pub struct SemiImplicitEuler {
    pub bodies: Vec<Id>,
}

impl SemiImplicitEuler {
    /// An integrator for the bodies in `bodies`, in that order.
    pub fn new(bodies: Vec<Id>) -> (integrator: Self)
        ensures
            integrator.bodies@ == bodies@,
    {
        Self { bodies }
    }

    /// Puts `id` under this integrator, at the end of its list, unless it is
    /// already there.
    pub fn add_body(&mut self, id: Id)
        ensures
            final(self).bodies@ == if old(self).bodies@.contains(id) {
                old(self).bodies@
            } else {
                old(self).bodies@.push(id)
            },
    {
        push_unique(&mut self.bodies, id);
    }

    /// Takes `id` from under this integrator: its first entry in the list goes,
    /// the others keep their order.
    pub fn remove_body(&mut self, id: Id)
        ensures
            final(self).bodies@ == old(self).bodies@.remove_value(id),
    {
        remove_first(&mut self.bodies, id);
    }
}

} // verus!
