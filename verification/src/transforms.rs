//! Poses: where a collider sits relative to its owner, and where that puts
//! it in the world once the owner's world transform is known.

use vstd::prelude::*;
use crate::component_store::ComponentKey;
use crate::space::{Quaternion, Vector3};

verus! {

/// Whether a pose is given in world space or relative to a parent.
#[derive(Clone, Copy, Debug, PartialEq, Eq, Structural)]
pub enum TransformType {
    Global,
    Local,
}

/// A position and an orientation in world space.
#[derive(Clone, Copy, Debug, PartialEq, Eq, Structural)]
pub struct GlobalTransform {
    pub pos: Vector3,
    pub rot: Quaternion,
}

/// An entity's pose, in world space or relative to its parent entity.
#[derive(Clone, Copy, Debug, PartialEq, Eq, Structural)]
pub struct ComponentTransform {
    pub transform_type: TransformType,
    pub pos: Vector3,
    pub rot: Quaternion,
}

impl ComponentTransform {
    /// A pose relative to the parent entity.
    pub fn local(pos: Vector3, rot: Quaternion) -> (t: ComponentTransform)
        ensures
            t == (ComponentTransform { transform_type: TransformType::Local, pos, rot }),
    {
        ComponentTransform { transform_type: TransformType::Local, pos, rot }
    }

    /// A pose in world space.
    pub fn global(pos: Vector3, rot: Quaternion) -> (t: ComponentTransform)
        ensures
            t == (ComponentTransform { transform_type: TransformType::Global, pos, rot }),
    {
        ComponentTransform { transform_type: TransformType::Global, pos, rot }
    }

    /// The relative pose whose every component encodes zero.
    pub fn default() -> (t: ComponentTransform)
        ensures
            t == (ComponentTransform {
                transform_type: TransformType::Local,
                pos: Vector3 { x: 0, y: 0, z: 0 },
                rot: Quaternion { s: 0, x: 0, y: 0, z: 0 },
            }),
    {
        ComponentTransform {
            transform_type: TransformType::Local,
            pos: Vector3::zero(),
            rot: Quaternion::zero(),
        }
    }
}

/// A model's pose, in world space or relative to the entity that draws it.
#[derive(Clone, Copy, Debug, PartialEq, Eq, Structural)]
pub struct ModelTransform {
    pub transform_type: TransformType,
    pub pos: Vector3,
    pub rot: Quaternion,
}

impl ModelTransform {
    /// A pose relative to the drawing entity.
    pub fn local(pos: Vector3, rot: Quaternion) -> (t: ModelTransform)
        ensures
            t == (ModelTransform { transform_type: TransformType::Local, pos, rot }),
    {
        ModelTransform { transform_type: TransformType::Local, pos, rot }
    }

    /// A pose in world space.
    pub fn global(pos: Vector3, rot: Quaternion) -> (t: ModelTransform)
        ensures
            t == (ModelTransform { transform_type: TransformType::Global, pos, rot }),
    {
        ModelTransform { transform_type: TransformType::Global, pos, rot }
    }

    /// The relative pose whose every component encodes zero.
    pub fn default() -> (t: ModelTransform)
        ensures
            t == (ModelTransform {
                transform_type: TransformType::Local,
                pos: Vector3 { x: 0, y: 0, z: 0 },
                rot: Quaternion { s: 0, x: 0, y: 0, z: 0 },
            }),
    {
        ModelTransform {
            transform_type: TransformType::Local,
            pos: Vector3::zero(),
            rot: Quaternion::zero(),
        }
    }

    pub fn get_pos(&self) -> (pos: Vector3)
        ensures
            pos == self.pos,
    {
        self.pos
    }

    pub fn get_rot(&self) -> (rot: Quaternion)
        ensures
            rot == self.rot,
    {
        self.rot
    }

    pub fn set_rot(&mut self, new_rot: Quaternion)
        ensures
            *final(self) == (ModelTransform { rot: new_rot, ..*old(self) }),
    {
        self.rot = new_rot;
    }

    pub fn set_pos(&mut self, new_pos: Vector3)
        ensures
            *final(self) == (ModelTransform { pos: new_pos, ..*old(self) }),
    {
        self.pos = new_pos;
    }
}

/// A collider's pose relative to its owner, with a cache of the world-space
/// pose that the owner's latest world transform gave it.
///
/// `update_transform`, `update_pos` and `update_rot` empty the cache, so a
/// pose changed through them never keeps a world-space value computed for
/// an older relative pose.
#[derive(Clone, Copy, Debug, PartialEq)]
pub struct ColliderTransform {
    pub parent: ComponentKey,
    pub relative_pos: Vector3,
    pub relative_rot: Quaternion,
    pub cached_global_pos: Option<Vector3>,
    pub cached_global_rot: Option<Quaternion>,
}

impl ColliderTransform {
    /// The cached world-space pose: present only when both halves are.
    pub open spec fn global(&self) -> Option<GlobalTransform> {
        if self.cached_global_pos is Some && self.cached_global_rot is Some {
            Some(GlobalTransform { pos: self.cached_global_pos->0, rot: self.cached_global_rot->0 })
        } else {
            None
        }
    }

    /// The position to use for the collider: the cached world-space position
    /// when a world-space pose is cached, else the relative position as it is.
    pub open spec fn spec_world_pos(&self) -> Vector3 {
        match self.global() {
            Some(g) => g.pos,
            None => self.relative_pos,
        }
    }

    pub fn new(parent: ComponentKey, relative_pos: Vector3, relative_rot: Quaternion) -> (t:
        ColliderTransform)
        ensures
            t.parent == parent,
            t.relative_pos == relative_pos,
            t.relative_rot == relative_rot,
            t.cached_global_pos is None,
            t.cached_global_rot is None,
    {
        ColliderTransform {
            parent,
            relative_pos,
            relative_rot,
            cached_global_pos: None,
            cached_global_rot: None,
        }
    }

    /// The pose at the owner's origin: every component encodes zero.
    pub fn default(parent: ComponentKey) -> (t: ColliderTransform)
        ensures
            t.parent == parent,
            t.relative_pos == (Vector3 { x: 0, y: 0, z: 0 }),
            t.relative_rot == (Quaternion { s: 0, x: 0, y: 0, z: 0 }),
            t.cached_global_pos is None,
            t.cached_global_rot is None,
    {
        ColliderTransform {
            parent,
            relative_pos: Vector3::zero(),
            relative_rot: Quaternion::zero(),
            cached_global_pos: None,
            cached_global_rot: None,
        }
    }

    /// Stores the world-space position; nothing else changes.
    pub fn cache_global_pos(&mut self, pos: Vector3)
        ensures
            final(self).cached_global_pos == Some(pos),
            final(self).cached_global_rot == old(self).cached_global_rot,
            final(self).relative_pos == old(self).relative_pos,
            final(self).relative_rot == old(self).relative_rot,
            final(self).parent == old(self).parent,
    {
        self.cached_global_pos = Some(pos);
    }

    /// Stores the world-space orientation; nothing else changes.
    pub fn cache_global_rot(&mut self, rot: Quaternion)
        ensures
            final(self).cached_global_rot == Some(rot),
            final(self).cached_global_pos == old(self).cached_global_pos,
            final(self).relative_pos == old(self).relative_pos,
            final(self).relative_rot == old(self).relative_rot,
            final(self).parent == old(self).parent,
    {
        self.cached_global_rot = Some(rot);
    }

    /// Empties the cache; the relative pose stays.
    pub fn invalidate_cache(&mut self)
        ensures
            final(self).cached_global_pos is None,
            final(self).cached_global_rot is None,
            final(self).relative_pos == old(self).relative_pos,
            final(self).relative_rot == old(self).relative_rot,
            final(self).parent == old(self).parent,
    {
        self.cached_global_pos = None;
        self.cached_global_rot = None;
    }

    /// Replaces the relative pose and empties the cache.
    pub fn update_transform(&mut self, pos: Vector3, rot: Quaternion)
        ensures
            final(self).relative_pos == pos,
            final(self).relative_rot == rot,
            final(self).cached_global_pos is None,
            final(self).cached_global_rot is None,
            final(self).parent == old(self).parent,
    {
        self.relative_pos = pos;
        self.relative_rot = rot;
        self.invalidate_cache();
    }

    /// Replaces the relative position and empties the cache.
    pub fn update_pos(&mut self, pos: Vector3)
        ensures
            final(self).relative_pos == pos,
            final(self).relative_rot == old(self).relative_rot,
            final(self).cached_global_pos is None,
            final(self).cached_global_rot is None,
            final(self).parent == old(self).parent,
    {
        self.relative_pos = pos;
        self.invalidate_cache();
    }

    /// Replaces the relative orientation and empties the cache.
    pub fn update_rot(&mut self, rot: Quaternion)
        ensures
            final(self).relative_pos == old(self).relative_pos,
            final(self).relative_rot == rot,
            final(self).cached_global_pos is None,
            final(self).cached_global_rot is None,
            final(self).parent == old(self).parent,
    {
        self.relative_rot = rot;
        self.invalidate_cache();
    }

    /// The cached world-space pose, when both its position and its
    /// orientation are cached.
    pub fn get_global_transform(&self) -> (g: Option<GlobalTransform>)
        ensures
            g == self.global(),
    {
        match (self.cached_global_pos, self.cached_global_rot) {
            (Some(pos), Some(rot)) => Some(GlobalTransform { pos, rot }),
            _ => None,
        }
    }

    /// The position to place the collider at: see [`Self::spec_world_pos`].
    #[verifier::when_used_as_spec(spec_world_pos)]
    pub fn world_pos(&self) -> (p: Vector3)
        ensures
            p == self.spec_world_pos(),
    {
        match self.get_global_transform() {
            Some(g) => g.pos,
            None => self.relative_pos,
        }
    }
}

} // verus!
