//! A schedule: stages that run one after the other.

use crate::scene::Scene;
use crate::stage::Stage;
use vstd::prelude::*;

verus! {

/// Stages that run one after the other, in the order in which they were
/// added.
pub struct Schedule {
    stages: Vec<Stage>,
}

impl Schedule {
    /// The number of systems in each stage, in the order of the stages.
    pub closed spec fn counts(&self) -> Seq<nat> {
        Seq::new(self.stages@.len(), |i: int| self.stages@[i].count())
    }

    /// A schedule without stages.
    #[must_use]
    pub fn new() -> (schedule: Schedule)
        ensures
            schedule.counts() == Seq::<nat>::empty(),
    {
        let schedule = Schedule { stages: Vec::new() };
        proof {
            assert(schedule.counts() =~= Seq::<nat>::empty());
        }
        schedule
    }

    /// The number of stages.
    pub fn len(&self) -> (n: usize)
        ensures
            n == self.counts().len(),
    {
        self.stages.len()
    }

    /// Adds `stage` after the stages that are there.
    pub fn add_stage(&mut self, stage: Stage)
        ensures
            final(self).counts() == old(self).counts().push(stage.count()),
    {
        self.stages.push(stage);
        proof {
            assert(self.counts() =~= old(self).counts().push(stage.count()));
        }
    }

    /// Runs the stages on `scene`, one after the other, in the order in
    /// which they were added.
    pub fn run(&self, scene: &Scene)
        requires
            scene.inv(),
    {
        let mut i: usize = 0;
        while i < self.stages.len()
            invariant
                scene.inv(),
                i <= self.stages@.len(),
            decreases self.stages@.len() - i,
        {
            self.stages[i].run(scene);
            i += 1;
        }
    }
}

impl Default for Schedule {
    fn default() -> (schedule: Schedule)
        ensures
            schedule.counts() == Seq::<nat>::empty(),
    {
        Schedule::new()
    }
}

} // verus!
