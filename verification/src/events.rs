//! The events that the engine hands to its listeners.

use vstd::prelude::*;
use crate::collisions::collider::Collision;
use crate::component_store::ComponentKey;
use crate::space::Point3;

verus! {

/// What a listener subscribes to: a kind of event and, for all but keyboard
/// events, the entity it is addressed to.
#[derive(Clone, Copy, Debug, PartialEq, Eq, Hash, Structural)]
pub enum EventKey {
    KeyboardEvent,
    MouseHoverStartEvent(ComponentKey),
    MouseHoverEndEvent(ComponentKey),
    MouseHoveringEvent(ComponentKey),
    MouseSelectEvent(ComponentKey),
    CollisionOngoingEvent(ComponentKey),
    CollisionStartEvent(ComponentKey),
    CollisionEndEvent(ComponentKey),
    RaycastIntersectEvent(ComponentKey),
}

/// What an event carries.
#[derive(Clone, Copy, Debug, PartialEq)]
pub enum EventData {
    KeyboardEvent { scancode: u32, pressed: bool },
    MouseHoverStartEvent { component: ComponentKey, collider_idx: u32, intersect_loc: Point3 },
    MouseHoveringEvent { component: ComponentKey, collider_idx: u32, intersect_loc: Point3 },
    MouseHoverEndEvent { component: ComponentKey, collider_idx: u32 },
    MouseSelectEvent { component: ComponentKey, collider_idx: u32, intersect_loc: Point3 },
    CollisionOngoingEvent { c1: ComponentKey, c2: ComponentKey, collision: Collision },
    CollisionStartEvent { c1: ComponentKey, c2: ComponentKey, collision: Collision },
    CollisionEndEvent { c1: ComponentKey, c2: ComponentKey, collider_keys: (u32, u32) },
    RaycastIntersectEvent { component: ComponentKey, collider_idx: u32, intersect_loc: Point3 },
}

/// The name under which a scheduled event is kept.
#[derive(Clone, Copy, Debug, PartialEq, Eq, Hash, Structural)]
pub struct ScheduledEventId(pub u32);

/// An event: the key it is filed under and its payload.
#[derive(Clone, Copy, Debug, PartialEq)]
pub struct Event {
    pub key: EventKey,
    pub data: EventData,
}

} // verus!
