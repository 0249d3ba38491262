//! A stage: systems that run one after the other.

use crate::scene::Scene;
use crate::system::{IntoSystem, System};
use vstd::prelude::*;

verus! {

/// A system of whatever type.
struct Member {
    system: Box<dyn System>,
}

impl Member {
    /// Whether the system of this member is `system`.
    spec fn holds<T: System + 'static>(&self, system: T) -> bool {
        let boxed: Box<dyn System> = Box::new(system);
        self.system == boxed
    }

    /// `system`, as a member of a stage.
    fn new<T: System + 'static>(system: T) -> (member: Member)
        ensures
            member.holds(system),
    {
        Member { system: Box::new(system) }
    }
}

/// Systems that run one after the other, in the order in which they were
/// added.
pub struct Stage {
    systems: Vec<Member>,
}

impl Stage {
    /// The number of systems.
    pub closed spec fn count(&self) -> nat {
        self.systems@.len()
    }

    /// A stage without systems.
    #[must_use]
    pub fn new() -> (stage: Stage)
        ensures
            stage.count() == 0,
    {
        Stage { systems: Vec::new() }
    }

    /// The number of systems.
    pub fn len(&self) -> (n: usize)
        ensures
            n == self.count(),
    {
        self.systems.len()
    }

    /// Adds `system` after the systems that are there.
    pub fn add_system<Args, S: IntoSystem<Args>>(&mut self, system: S) where S::System: 'static
        requires
            system.ready(),
        ensures
            final(self).count() == old(self).count() + 1,
    {
        let member = Member::new(system.into_system());
        self.push(member);
    }

    /// Adds `member` after the systems that are there.
    fn push(&mut self, member: Member)
        ensures
            final(self).count() == old(self).count() + 1,
    {
        self.systems.push(member);
    }

    /// Runs the systems on `scene`, one after the other, in the order in
    /// which they were added.
    pub fn run(&self, scene: &Scene)
        requires
            scene.inv(),
    {
        let mut i: usize = 0;
        while i < self.systems.len()
            invariant
                scene.inv(),
                i <= self.systems@.len(),
            decreases self.systems@.len() - i,
        {
            self.systems[i].system.run(scene);
            i += 1;
        }
    }
}

impl Default for Stage {
    fn default() -> (stage: Stage)
        ensures
            stage.count() == 0,
    {
        Stage::new()
    }
}

} // verus!
