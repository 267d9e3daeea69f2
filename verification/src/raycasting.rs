//! Rays, ray hits and the long-lived ray queries of the scene.

pub mod intersections;
pub mod ray;
pub mod raycast_manager;

pub use ray::{Ray, RayHit, TraceStep};
pub use raycast_manager::{RayIntersect, Raycast, RaycastManager};
