use vstd::prelude::*;

use crate::engine::entity::entity_component_storage::{derefs, present, present_refs};

verus! {

/// An entity that optionally has a rigid body of type `R`.
pub struct Entity<R> {
    pub rigid_body: Option<R>,
}

/// The rigid bodies of all entities, one slot per entity.
pub struct EntityComponentStorage<R> {
    pub rigid_bodies: Vec<Option<R>>,
}

impl<R> EntityComponentStorage<R> {
    pub fn new() -> (r: Self)
        ensures
            r.rigid_bodies@.len() == 0,
    {
        Self { rigid_bodies: Vec::new() }
    }

    /// The rigid bodies of the entities that have one, in entity order.
    pub fn rigid_body_iter(&self) -> (r: Vec<&R>)
        ensures
            derefs(r@) == present(self.rigid_bodies@),
    {
        present_refs(&self.rigid_bodies)
    }

    /// The rigid body of entity `i`, for changing in place; `None` where the
    /// entity has none.
    pub fn rigid_body_mut(&mut self, i: usize) -> (r: Option<&mut R>)
        requires
            i < old(self).rigid_bodies@.len(),
        ensures
            old(self).rigid_bodies@[i as int] is None ==> r is None && final(self).rigid_bodies@
                == old(self).rigid_bodies@,
            old(self).rigid_bodies@[i as int] is Some ==> r is Some && old(
                self,
            ).rigid_bodies@[i as int] == Some(*r.unwrap()) && final(self).rigid_bodies@ == old(
                self,
            ).rigid_bodies@.update(i as int, Some(*final(r.unwrap()))),
    {
        match &mut self.rigid_bodies[i] {
            Some(x) => Some(x),
            None => None,
        }
    }

    /// Adds an entity's slot, `None` where it has no rigid body.
    pub fn add(&mut self, entity: Entity<R>)
        ensures
            final(self).rigid_bodies@ == old(self).rigid_bodies@.push(entity.rigid_body),
    {
        self.rigid_bodies.push(entity.rigid_body);
    }
}

} // verus!
