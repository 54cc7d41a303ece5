use vstd::prelude::*;

verus! {

/// An entity: optionally a rigid body of type `R` and a render body of type
/// `D`.
pub struct Entity<R, D> {
    pub rigid_body: Option<R>,
    pub render_body: Option<D>,
}

/// Borrowed components of one stored entity.
pub struct EntityHandle<'a, R, D> {
    pub rigid_body: Option<&'a R>,
    pub render_body: Option<&'a D>,
}

impl<R, D> Entity<R, D> {
    pub fn new() -> (r: Self)
        ensures
            r.rigid_body is None,
            r.render_body is None,
    {
        Self { rigid_body: None, render_body: None }
    }
}

pub struct EntityBuilder<R, D> {
    pub rigid_body: Option<R>,
    pub render_body: Option<D>,
}

impl<R, D> EntityBuilder<R, D> {
    pub fn new() -> (r: Self)
        ensures
            r.rigid_body is None,
            r.render_body is None,
    {
        Self { rigid_body: None, render_body: None }
    }

    pub fn rigid_body(self, rigid_body: R) -> (r: Self)
        ensures
            r.rigid_body == Some(rigid_body),
            r.render_body == self.render_body,
    {
        let mut s = self;
        s.rigid_body = Some(rigid_body);
        s
    }

    pub fn render_body(self, render_body: D) -> (r: Self)
        ensures
            r.render_body == Some(render_body),
            r.rigid_body == self.rigid_body,
    {
        let mut s = self;
        s.render_body = Some(render_body);
        s
    }

    pub fn build(self) -> (r: Entity<R, D>)
        ensures
            r.rigid_body == self.rigid_body,
            r.render_body == self.render_body,
    {
        Entity { rigid_body: self.rigid_body, render_body: self.render_body }
    }
}

} // verus!
