use vstd::prelude::*;

use super::entity::{Entity, EntityHandle};

verus! {

/// The components of all entities, one slot per entity in each list, `None`
/// where an entity lacks the component.
pub struct EntityComponentStorage<R, D> {
    pub rigid_bodies: Vec<Option<R>>,
    pub render_bodies: Vec<Option<D>>,
}

/// The present components of a list of slots, in order.
pub open spec fn present<T>(slots: Seq<Option<T>>) -> Seq<T>
    decreases slots.len(),
{
    if slots.len() == 0 {
        Seq::empty()
    } else {
        let prev = present(slots.drop_last());
        match slots.last() {
            Some(x) => prev.push(x),
            None => prev,
        }
    }
}

/// The values behind a list of references.
pub open spec fn derefs<T>(v: Seq<&T>) -> Seq<T> {
    v.map_values(|x: &T| *x)
}

/// The values behind a list of optional references.
pub open spec fn opt_derefs<T>(v: Option<&T>) -> Option<T> {
    match v {
        Some(x) => Some(*x),
        None => None,
    }
}

proof fn lemma_present_push<T>(slots: Seq<Option<T>>, x: Option<T>)
    ensures
        present(slots.push(x)) == match x {
            Some(y) => present(slots).push(y),
            None => present(slots),
        },
{
    assert(slots.push(x).drop_last() =~= slots);
}

pub(crate) fn present_refs<T>(slots: &Vec<Option<T>>) -> (r: Vec<&T>)
    ensures
        derefs(r@) == present(slots@),
{
    let mut r: Vec<&T> = Vec::new();
    let n = slots.len();
    let mut i: usize = 0;
    while i < n
        invariant
            n == slots@.len(),
            i <= n,
            derefs(r@) == present(slots@.take(i as int)),
        decreases n - i,
    {
        let ghost before = r@;
        proof {
            lemma_present_push(slots@.take(i as int), slots@[i as int]);
            assert(slots@.take(i + 1) =~= slots@.take(i as int).push(slots@[i as int]));
        }
        match &slots[i] {
            Some(x) => {
                r.push(x);
                assert(derefs(r@) =~= derefs(before).push(*x));
            },
            None => {},
        }
        i = i + 1;
    }
    assert(slots@.take(n as int) =~= slots@);
    r
}

impl<R, D> EntityComponentStorage<R, D> {
    pub fn new() -> (r: Self)
        ensures
            r.rigid_bodies@.len() == 0,
            r.render_bodies@.len() == 0,
    {
        Self { rigid_bodies: Vec::new(), render_bodies: Vec::new() }
    }

    /// The rigid bodies of the entities that have one, in entity order.
    pub fn rigid_body_iter(&self) -> (r: Vec<&R>)
        ensures
            derefs(r@) == present(self.rigid_bodies@),
    {
        present_refs(&self.rigid_bodies)
    }

    /// The render bodies of the entities that have one, in entity order.
    pub fn render_body_iter(&self) -> (r: Vec<&D>)
        ensures
            derefs(r@) == present(self.render_bodies@),
    {
        present_refs(&self.render_bodies)
    }

    /// A handle for each entity, as far as both lists reach.
    pub fn entities_iter(&self) -> (r: Vec<EntityHandle<'_, R, D>>)
        ensures
            r@.len() == if self.rigid_bodies@.len() <= self.render_bodies@.len() {
                self.rigid_bodies@.len()
            } else {
                self.render_bodies@.len()
            },
            forall|k: int|
                0 <= k < r@.len() ==> opt_derefs((#[trigger] r@[k]).rigid_body) == self.rigid_bodies@[k]
                    && opt_derefs(r@[k].render_body) == self.render_bodies@[k],
    {
        let n = if self.rigid_bodies.len() <= self.render_bodies.len() {
            self.rigid_bodies.len()
        } else {
            self.render_bodies.len()
        };
        let mut r: Vec<EntityHandle<'_, R, D>> = Vec::new();
        let mut i: usize = 0;
        while i < n
            invariant
                n <= self.rigid_bodies@.len(),
                n <= self.render_bodies@.len(),
                i <= n,
                r@.len() == i,
                forall|k: int|
                    0 <= k < i ==> opt_derefs((#[trigger] r@[k]).rigid_body) == self.rigid_bodies@[k]
                        && opt_derefs(r@[k].render_body) == self.render_bodies@[k],
            decreases n - i,
        {
            let rigid_body = match &self.rigid_bodies[i] {
                Some(x) => Some(x),
                None => None,
            };
            let render_body = match &self.render_bodies[i] {
                Some(x) => Some(x),
                None => None,
            };
            r.push(EntityHandle { rigid_body, render_body });
            i = i + 1;
        }
        r
    }

    /// The rigid body of entity `i`, for changing in place; `None` where the
    /// entity has none.
    pub fn rigid_body_mut(&mut self, i: usize) -> (r: Option<&mut R>)
        requires
            i < old(self).rigid_bodies@.len(),
        ensures
            final(self).render_bodies@ == old(self).render_bodies@,
            old(self).rigid_bodies@[i as int] is None ==> r is None && final(self).rigid_bodies@
                == old(self).rigid_bodies@,
            old(self).rigid_bodies@[i as int] is Some ==> r is Some && old(
                self,
            ).rigid_bodies@[i as int] == Some(*r.unwrap()) && final(self).rigid_bodies@ == old(
                self,
            ).rigid_bodies@.update(i as int, Some(*final(r.unwrap()))),
    {
        match &mut self.rigid_bodies[i] {
            Some(x) => Some(x),
            None => None,
        }
    }

    /// The render body of entity `i`, for changing in place; `None` where the
    /// entity has none.
    pub fn render_body_mut(&mut self, i: usize) -> (r: Option<&mut D>)
        requires
            i < old(self).render_bodies@.len(),
        ensures
            final(self).rigid_bodies@ == old(self).rigid_bodies@,
            old(self).render_bodies@[i as int] is None ==> r is None && final(self).render_bodies@
                == old(self).render_bodies@,
            old(self).render_bodies@[i as int] is Some ==> r is Some && old(
                self,
            ).render_bodies@[i as int] == Some(*r.unwrap()) && final(self).render_bodies@ == old(
                self,
            ).render_bodies@.update(i as int, Some(*final(r.unwrap()))),
    {
        match &mut self.render_bodies[i] {
            Some(x) => Some(x),
            None => None,
        }
    }

    /// Adds an entity: one slot in each list, `None` where it lacks the
    /// component, so that the lists stay aligned.
    pub fn add(&mut self, entity: Entity<R, D>)
        ensures
            final(self).rigid_bodies@ == old(self).rigid_bodies@.push(entity.rigid_body),
            final(self).render_bodies@ == old(self).render_bodies@.push(entity.render_body),
    {
        self.rigid_bodies.push(entity.rigid_body);
        self.render_bodies.push(entity.render_body);
    }
}

/// Adding an entity keeps the two component lists of equal length, and the
/// components it carries come last among the present ones.
pub proof fn lemma_add_keeps_components_aligned<R, D>(
    rigid: Seq<Option<R>>,
    render: Seq<Option<D>>,
    entity: Entity<R, D>,
)
    requires
        rigid.len() == render.len(),
    ensures
        rigid.push(entity.rigid_body).len() == render.push(entity.render_body).len(),
        present(rigid.push(entity.rigid_body)) == match entity.rigid_body {
            Some(x) => present(rigid).push(x),
            None => present(rigid),
        },
        present(render.push(entity.render_body)) == match entity.render_body {
            Some(x) => present(render).push(x),
            None => present(render),
        },
{
    lemma_present_push(rigid, entity.rigid_body);
    lemma_present_push(render, entity.render_body);
}

} // verus!
