//! A columnar entity store: actors are grouped by the exact set of component
//! types they carry, and each group keeps its components in one byte block
//! laid out as parallel, alignment-correct columns.

pub mod actor;
pub mod archetype;
pub mod batch;
pub mod block;
pub mod component;
pub mod error;
pub mod layout;
pub mod model;
pub mod prelude;
pub mod resource;
pub mod scene;
pub mod scene_model;
pub mod schedule;
pub mod stage;
pub mod system;
pub mod type_info;

pub use actor::{Actor, ActorFactory};
pub use archetype::Archetype;
pub use batch::Batch;
pub use component::{Component, ComponentSource};
pub use error::StoreError;
pub use resource::Resource;
pub use scene::Scene;
pub use schedule::Schedule;
pub use stage::Stage;
pub use system::{IntoSystem, System, SystemArg, SystemFn, SystemFunction};
pub use type_info::TypeInfo;
