//! What a user of the store needs most.

pub use crate::actor::Actor;
pub use crate::component::{Component, ComponentSource};
pub use crate::error::StoreError;
pub use crate::resource::Resource;
pub use crate::scene::Scene;
pub use crate::schedule::Schedule;
pub use crate::stage::Stage;
pub use crate::system::{IntoSystem, System, SystemArg};
pub use crate::type_info::TypeInfo;
