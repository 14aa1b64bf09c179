use vstd::prelude::*;

verus! {

/// The hit points of an entity.
pub struct Health(pub i32);

impl Health {
    pub fn new(hp: i32) -> (r: Health)
        ensures
            r.0 == hp,
    {
        Health(hp)
    }

    /// Takes one hit point. Returns the hit points left, or `None` when that
    /// leaves none.
    pub fn hit(&mut self) -> (r: Option<i32>)
        requires
            old(self).0 > i32::MIN,
        ensures
            final(self).0 == old(self).0 - 1,
            final(self).0 == 0 ==> r is None,
            final(self).0 != 0 ==> r == Some(final(self).0),
    {
        self.0 = self.0 - 1;
        if self.0 == 0 {
            None
        } else {
            Some(self.0)
        }
    }
}

} // verus!
