//! Bookkeeping core of a signed-distance-field collision and picking engine.
//!
//! The crate tracks which colliders exist, which pairs of them touched in the
//! previous frame, which ray hits a pointer is hovering over, and turns each
//! frame's detections into start / ongoing / end events. Every function is
//! verified.
//!
//! Coordinates, distances and sizes are carried through as the 32-bit
//! encodings of single-precision numbers and are never interpreted here: the
//! numeric work on shapes and rays is done by the caller, who hands in its
//! results — which probes found contact, which rays hit what, and how far
//! away — and gets back the decisions.

pub mod collisions;
pub mod component_store;
pub mod errors;
pub mod events;
pub mod mesh;
pub mod mouse;
pub mod raycasting;
pub mod renderable_model;
pub mod sdf;
pub mod space;
pub mod transforms;

pub use collisions::{
    BoundaryProbe, Collider, Collision, CollisionManager, IndexPair, NORMAL_TOL,
};
pub use component_store::{ComponentKey, ComponentStore};
pub use errors::EngineError;
pub use events::{Event, EventData, EventKey, ScheduledEventId};
pub use mouse::Mouse;
pub use raycasting::{Ray, RayHit, RayIntersect, Raycast, RaycastManager, TraceStep};
pub use renderable_model::{
    size_to_fit, ModelDims, RenderSettings, RenderableModel, RenderableModelWithSettings,
};
pub use space::{Point3, Quaternion, Vector3};
pub use transforms::{
    ColliderTransform, ComponentTransform, GlobalTransform, ModelTransform, TransformType,
};
