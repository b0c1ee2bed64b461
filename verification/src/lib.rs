//! Stages: an ordered sequence of generations for the components of a world.
//!
//! A component added at some stage is visible to every later stage, invisible
//! to every earlier one, and can be changed or removed only at the stage that
//! added it.

pub mod component;
pub mod stage;
pub mod storage;
pub mod world;

pub use component::ComponentId;
pub use stage::{Stage, StageComponentId, StageMarker};
pub use storage::SparseSetIndex;
pub use world::{Entity, StageError, World};
