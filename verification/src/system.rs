//! Systems: the units of work that read a scene.

mod into_system;
mod system_arg;
mod system_function;

pub use into_system::IntoSystem;
pub use system_arg::SystemArg;
pub use system_function::{SystemFn, SystemFunction};

use crate::scene::Scene;
use vstd::prelude::*;

verus! {

/// A unit of work that reads a scene.
pub trait System {
    /// Runs the system on `scene`.
    fn run(&self, scene: &Scene)
        requires
            scene.inv(),
    ;
}

} // verus!
