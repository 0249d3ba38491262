use super::{System, SystemFn, SystemFunction};
use vstd::prelude::*;

verus! {

/// Something that can be made a system.
pub trait IntoSystem<Args>: Sized {
    /// The system this is made into.
    type System: System;

    /// Whether this can be made a system.
    spec fn ready(&self) -> bool;

    /// Makes the system.
    fn into_system(self) -> (system: Self::System)
        requires
            self.ready(),
    ;
}

impl<F, Args> IntoSystem<Args> for F where F: SystemFn<Args> {
    type System = SystemFunction<F, Args>;

    open spec fn ready(&self) -> bool {
        self.total()
    }

    fn into_system(self) -> (system: SystemFunction<F, Args>)
        ensures
            system.function() == self,
    {
        SystemFunction::new(self)
    }
}

} // verus!
