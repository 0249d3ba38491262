use vstd::prelude::*;

verus! {

/// A type whose values can be resources of a scene.
pub trait Resource: Send + Sync + 'static {

}

impl<T> Resource for T where T: Send + Sync + 'static {

}

} // verus!
