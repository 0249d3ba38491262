use crate::scene::Scene;
use vstd::prelude::*;

verus! {

/// Something a system can be handed: it is made from the scene the system
/// runs on.
pub trait SystemArg: Sized + 'static {
    /// Makes the argument from `scene`.
    fn from_scene(scene: &Scene) -> (arg: Self)
        requires
            scene.inv(),
    ;
}

} // verus!
