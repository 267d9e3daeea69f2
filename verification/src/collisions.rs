//! Colliders, detection results and the per-frame collision state machine.

pub mod arena;
pub mod collider;
pub mod collision_manager;
pub mod frame;
pub mod index_pair;
pub mod laws;

pub use collider::{BoundaryProbe, Collider, Collision, NORMAL_TOL};
pub use collision_manager::CollisionManager;
pub use index_pair::IndexPair;
