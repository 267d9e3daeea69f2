//! A collider's identity, pose and cache of its latest collisions.

use std::collections::HashMap;
use vstd::prelude::*;
use vstd::std_specs::hash::spec_values_iter;
use vstd::std_specs::iter::IteratorSpec;
use crate::component_store::ComponentKey;
use crate::space::{Point3, Quaternion, Vector3};
use crate::transforms::ColliderTransform;

verus! {

broadcast use vstd::std_specs::hash::group_hash_axioms;

/// How far from the surface a contact may lie for a normal to be reported:
/// the encoding of one hundredth.
pub const NORMAL_TOL: u32 = 0x3C23_D70A;

/// One detection: collider `colliders.0` found a point of `colliders.1`
/// inside itself.
#[derive(Clone, Copy, Debug, PartialEq)]
pub struct Collision {
    /// The two colliders, in detection order.
    pub colliders: (u32, u32),
    /// The contact point.
    pub loc: Point3,
    /// The surface normal at the contact, when the contact is close enough
    /// to the surface for one to be estimated.
    pub normal: Option<Vector3>,
}

/// What probing one collider's boundary against another's found.
#[derive(Clone, Copy, Debug, PartialEq)]
pub struct BoundaryProbe {
    /// The point of the other collider's boundary closest to this
    /// collider's centre.
    pub closest: Point3,
    /// Whether that point lies inside this collider or on its surface.
    pub interior: bool,
    /// This collider's surface normal at that point, when it lies within
    /// [`NORMAL_TOL`] of the surface.
    pub normal: Option<Vector3>,
}

/// A positioned shape taking part in detection, named by its index. The
/// shape itself, of whatever type, is held but never looked into here.
pub struct Collider<S> {
    pub index: u32,
    pub underlying: S,
    pub parent: ComponentKey,
    pub collision_map: HashMap<u32, Collision>,
    pub transform: ColliderTransform,
}

impl<S> Collider<S> {
    /// The cache: for each other collider, the last collision recorded with it.
    pub open spec fn collisions(&self) -> Map<u32, Collision> {
        self.collision_map@
    }

    /// Whether `col` names this collider as one of its two members.
    pub open spec fn takes_part(&self, col: Collision) -> bool {
        col.colliders.0 == self.index || col.colliders.1 == self.index
    }

    /// The member of `col` under which this collider files it: the second
    /// where this collider is the first, else the first.
    pub open spec fn partner(&self, col: Collision) -> u32 {
        if col.colliders.0 == self.index {
            col.colliders.1
        } else {
            col.colliders.0
        }
    }

    /// What a newly made collider is: an empty cache, and the pose it was
    /// given or, without one, the pose at its owner's origin.
    pub open spec fn is_fresh(
        &self,
        index: u32,
        underlying: S,
        parent: ComponentKey,
        transform: Option<ColliderTransform>,
    ) -> bool {
        &&& self.index == index
        &&& self.underlying == underlying
        &&& self.parent == parent
        &&& self.collisions() == Map::<u32, Collision>::empty()
        &&& self.transform == match transform {
            Some(t) => t,
            None => ColliderTransform {
                parent,
                relative_pos: Vector3 { x: 0, y: 0, z: 0 },
                relative_rot: Quaternion { s: 0, x: 0, y: 0, z: 0 },
                cached_global_pos: None,
                cached_global_rot: None,
            },
        }
    }

    /// This collider with another relative pose, and with no world-space
    /// pose cached.
    pub open spec fn with_pose(self, pos: Vector3, rot: Quaternion) -> Collider<S> {
        Collider {
            transform: ColliderTransform {
                parent: self.transform.parent,
                relative_pos: pos,
                relative_rot: rot,
                cached_global_pos: None,
                cached_global_rot: None,
            },
            ..self
        }
    }

    /// A collider with an empty cache. Without a pose it sits at its
    /// owner's origin.
    pub fn new(
        index: u32,
        underlying: S,
        parent: ComponentKey,
        transform: Option<ColliderTransform>,
    ) -> (c: Collider<S>)
        ensures
            c.is_fresh(index, underlying, parent, transform),
    {
        let transform = match transform {
            Some(t) => t,
            None => ColliderTransform::default(parent),
        };
        Collider { index, underlying, parent, collision_map: HashMap::new(), transform }
    }

    /// Turns a probe of this collider against `other` into a detection: a
    /// collision at the probed point exactly when that point is interior.
    pub fn collide(&self, other: &Collider<S>, probe: &BoundaryProbe) -> (r: Option<Collision>)
        ensures
            r == if probe.interior {
                Some(
                    Collision {
                        colliders: (self.index, other.index),
                        loc: probe.closest,
                        normal: probe.normal,
                    },
                )
            } else {
                None
            },
    {
        if probe.interior {
            Some(
                Collision {
                    colliders: (self.index, other.index),
                    loc: probe.closest,
                    normal: probe.normal,
                },
            )
        } else {
            None
        }
    }

    /// Records `col` under the other collider's index, replacing what was
    /// recorded for it, and hands it back. A collision that does not name this
    /// collider is refused and changes nothing.
    pub fn add_collision(&mut self, col: &Collision) -> (r: Option<Collision>)
        ensures
            final(self).index == old(self).index,
            final(self).underlying == old(self).underlying,
            final(self).parent == old(self).parent,
            final(self).transform == old(self).transform,
            old(self).takes_part(*col) ==> {
                &&& r == Some(*col)
                &&& final(self).collisions() == old(self).collisions().insert(
                    old(self).partner(*col),
                    *col,
                )
            },
            !old(self).takes_part(*col) ==> {
                &&& r is None
                &&& final(self).collisions() == old(self).collisions()
            },
    {
        let mut collider_idx = col.colliders.0;
        if col.colliders.0 == self.index {
            collider_idx = col.colliders.1;
        } else if col.colliders.1 != self.index {
            return None;
        }
        self.collision_map.insert(collider_idx, *col);
        Some(*col)
    }

    /// The collision recorded with collider `idx`, if any.
    pub fn get_collision(&self, idx: u32) -> (r: Option<Collision>)
        ensures
            r == if self.collisions().contains_key(idx) {
                Some(self.collisions()[idx])
            } else {
                None
            },
    {
        match self.collision_map.get(&idx) {
            Some(c) => Some(*c),
            None => None,
        }
    }

    /// The recorded collisions, each once, in no particular order.
    pub fn get_collisions(&self) -> (out: Vec<Collision>)
        ensures
            out@.to_set() == self.collisions().values(),
            out.len() == self.collisions().len(),
    {
        let mut out: Vec<Collision> = Vec::new();
        let ghost all = spec_values_iter(&self.collision_map).remaining().unref();
        for c in it: self.collision_map.values()
            invariant
                all == it.seq().unref(),
                out@ == all.take(it.index()),
        {
            out.push(*c);
            proof {
                assert(all.take(it.index() + 1) =~= all.take(it.index()).push(*c));
            }
        }
        proof {
            assert(all.take(all.len() as int) =~= all);
        }
        out
    }

    /// How many collisions are recorded.
    pub fn collision_count(&self) -> (n: usize)
        ensures
            n == self.collisions().len(),
    {
        self.collision_map.len()
    }

    /// Forgets the collision recorded with collider `idx` and hands it back.
    pub fn remove_collision(&mut self, idx: u32) -> (r: Option<Collision>)
        ensures
            final(self).index == old(self).index,
            final(self).underlying == old(self).underlying,
            final(self).parent == old(self).parent,
            final(self).transform == old(self).transform,
            final(self).collisions() == old(self).collisions().remove(idx),
            r == if old(self).collisions().contains_key(idx) {
                Some(old(self).collisions()[idx])
            } else {
                None
            },
    {
        self.collision_map.remove(&idx)
    }

    /// Forgets every recorded collision.
    pub fn reset_collisions(&mut self)
        ensures
            final(self).index == old(self).index,
            final(self).underlying == old(self).underlying,
            final(self).parent == old(self).parent,
            final(self).transform == old(self).transform,
            final(self).collisions() == Map::<u32, Collision>::empty(),
    {
        self.collision_map.clear()
    }

    /// Replaces the relative pose; the cached world-space pose is dropped.
    pub fn update_transform(&mut self, new_pos: Vector3, new_rot: Quaternion)
        ensures
            *final(self) == old(self).with_pose(new_pos, new_rot),
    {
        self.transform.update_transform(new_pos, new_rot);
    }

    /// Replaces the relative position; the cached world-space pose is dropped.
    pub fn update_pos(&mut self, new_pos: Vector3)
        ensures
            *final(self) == old(self).with_pose(new_pos, old(self).transform.relative_rot),
    {
        self.transform.update_pos(new_pos);
    }

    /// Replaces the relative orientation; the cached world-space pose is
    /// dropped.
    pub fn update_rot(&mut self, new_rot: Quaternion)
        ensures
            *final(self) == old(self).with_pose(old(self).transform.relative_pos, new_rot),
    {
        self.transform.update_rot(new_rot);
    }
}

} // verus!
