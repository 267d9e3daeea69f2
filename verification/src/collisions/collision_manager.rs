//! The registry of colliders and the frame-to-frame collision state machine.

use vstd::prelude::*;
use vstd::string::StringExecFns;
use crate::collisions::arena::{
    ascending, indices_of, lemma_filtered_arena, lemma_filtered_owners, lemma_owners_of,
    lemma_same_owners, not_owned_by, owned_by, owned_by_any, owners_of, pairs_upto, registered,
    slot_of,
};
use crate::collisions::collider::{Collider, Collision};
use crate::collisions::frame::{
    contact_events, contacts_events, frame_collisions, frame_events, frame_pairs,
    lemma_frame_pairs, pair_of, pairs_of, publishable, release_events, releases_events,
};
use crate::collisions::index_pair::{contains_pair, distinct_pairs, in_pairs, IndexPair};
use crate::collisions::laws::{
    joins_two_entities, lemma_events_join_two_entities, live_pairs_publishable,
};
use crate::component_store::ComponentKey;
use crate::errors::EngineError;
use crate::events::{Event, EventData, EventKey};
use crate::raycasting::intersections::{hits_for, ray_intersections};
use crate::raycasting::ray::RayHit;
use crate::raycasting::raycast_manager::{RayIntersect, Raycast};
use crate::space::{Quaternion, Vector3};
use crate::transforms::{ColliderTransform, GlobalTransform};

verus! {

/// The world-space pose given for collider `index`: that of the last entry
/// for it, if there is one.
pub open spec fn pose_for(poses: Seq<(u32, GlobalTransform)>, index: u32) -> Option<
    GlobalTransform,
>
    decreases poses.len(),
{
    if poses.len() == 0 {
        None
    } else if poses.last().0 == index {
        Some(poses.last().1)
    } else {
        pose_for(poses.drop_last(), index)
    }
}

/// A collider with the given world-space pose cached, or as it is where none
/// is given.
pub open spec fn refreshed<S>(c: Collider<S>, pose: Option<GlobalTransform>) -> Collider<S> {
    match pose {
        Some(g) => Collider {
            transform: ColliderTransform {
                cached_global_pos: Some(g.pos),
                cached_global_rot: Some(g.rot),
                ..c.transform
            },
            ..c
        },
        None => c,
    }
}

/// Whether `key` is one of `entities`.
pub fn has_entity(entities: &Vec<ComponentKey>, key: ComponentKey) -> (r: bool)
    ensures
        r == entities@.contains(key),
{
    let mut k: usize = 0;
    while k < entities.len()
        invariant
            k <= entities.len(),
            forall|i: int| 0 <= i < k ==> entities@[i] != key,
        decreases entities.len() - k,
    {
        if entities[k] == key {
            return true;
        }
        k = k + 1;
    }
    false
}

/// The world-space pose given for collider `index`, as [`pose_for`] has it.
pub fn find_pose(poses: &Vec<(u32, GlobalTransform)>, index: u32) -> (r: Option<GlobalTransform>)
    ensures
        r == pose_for(poses@, index),
{
    let mut k: usize = poses.len();
    proof {
        assert(poses@.take(k as int) =~= poses@);
    }
    while k > 0
        invariant
            k <= poses.len(),
            pose_for(poses@, index) == pose_for(poses@.take(k as int), index),
        decreases k,
    {
        proof {
            assert(poses@.take(k as int).drop_last() =~= poses@.take(k - 1));
            assert(poses@.take(k as int).last() == poses@[k - 1]);
        }
        if poses[k - 1].0 == index {
            return Some(poses[k - 1].1);
        }
        k = k - 1;
    }
    proof {
        assert(poses@.take(0).len() == 0);
    }
    None
}

/// The collision system: every live collider, and the pairs that touched in
/// the previous frame.
pub struct CollisionManager<S> {
    colliders: Vec<Collider<S>>,
    colliding_pairs: Vec<IndexPair>,
    next_key: u32,
}

impl<S> CollisionManager<S> {
    /// The live colliders, in the order of their indices.
    pub closed spec fn arena(&self) -> Seq<Collider<S>> {
        self.colliders@
    }

    /// The pairs that were reported as colliding in the latest detection
    /// pass, each in the order in which it was first detected.
    pub closed spec fn colliding(&self) -> Seq<IndexPair> {
        self.colliding_pairs@
    }

    /// The index that the next registration gets.
    pub closed spec fn next_index(&self) -> u32 {
        self.next_key
    }

    /// Which entity owns each live collider.
    pub open spec fn owners(&self) -> Map<u32, ComponentKey> {
        owners_of(self.arena())
    }

    /// The manager's invariant. Indices are unique and were all given out by
    /// this manager; no pair is remembered twice; and a remembered pair whose
    /// two colliders are both still live joins two different entities.
    pub open spec fn wf(&self) -> bool {
        &&& ascending(self.arena())
        &&& forall|k: int|
            0 <= k < self.arena().len() ==> (#[trigger] self.arena()[k]).index < self.next_index()
        &&& distinct_pairs(self.colliding())
        &&& forall|k: int|
            0 <= k < self.colliding().len() ==> {
                &&& (#[trigger] self.colliding()[k]).0 < self.next_index()
                &&& self.colliding()[k].1 < self.next_index()
                &&& (self.owners().contains_key(self.colliding()[k].0)
                    && self.owners().contains_key(self.colliding()[k].1) ==> publishable(
                    self.owners(),
                    self.colliding()[k],
                ))
            }
    }

    /// A manager with no collider and no colliding pair. The first collider
    /// gets index zero.
    pub fn new() -> (m: CollisionManager<S>)
        ensures
            m.wf(),
            m.arena() == Seq::<Collider<S>>::empty(),
            m.colliding() == Seq::<IndexPair>::empty(),
            m.next_index() == 0,
    {
        CollisionManager { colliders: Vec::new(), colliding_pairs: Vec::new(), next_key: 0 }
    }

    /// A manager with no collider and no colliding pair, whose first collider
    /// gets index `first`.
    pub fn with_first_index(first: u32) -> (m: CollisionManager<S>)
        ensures
            m.wf(),
            m.arena() == Seq::<Collider<S>>::empty(),
            m.colliding() == Seq::<IndexPair>::empty(),
            m.next_index() == first,
    {
        CollisionManager { colliders: Vec::new(), colliding_pairs: Vec::new(), next_key: first }
    }

    /// How many colliders are live.
    pub fn len(&self) -> (n: usize)
        ensures
            n == self.arena().len(),
    {
        self.colliders.len()
    }

    /// The pairs that the latest detection pass left colliding, each in the
    /// order in which it was first detected.
    pub fn colliding_pairs(&self) -> (pairs: &Vec<IndexPair>)
        ensures
            pairs@ == self.colliding(),
    {
        &self.colliding_pairs
    }

    /// Whether the latest detection pass left colliders `a` and `b`
    /// colliding, in either order.
    pub fn is_colliding(&self, a: u32, b: u32) -> (r: bool)
        ensures
            r == in_pairs(self.colliding(), IndexPair(a, b)),
    {
        let pair = IndexPair(a, b);
        contains_pair(&self.colliding_pairs, &pair)
    }

    /// Registers a collider for `parent` under the next index and returns
    /// that index. Once the counter stands at its largest value no further
    /// index can be given out: the call is refused and nothing changes.
    pub fn add_component_collider(
        &mut self,
        boundary: S,
        parent: ComponentKey,
        transform: Option<ColliderTransform>,
    ) -> (r: Result<u32, EngineError>)
        requires
            old(self).wf(),
        ensures
            final(self).wf(),
            final(self).colliding() == old(self).colliding(),
            !registered(old(self).arena(), old(self).next_index()),
            old(self).next_index() < u32::MAX ==> {
                &&& r == Ok::<u32, EngineError>(old(self).next_index())
                &&& final(self).next_index() == old(self).next_index() + 1
                &&& final(self).arena().len() == old(self).arena().len() + 1
                &&& final(self).arena().drop_last() == old(self).arena()
                &&& final(self).arena().last().is_fresh(
                    old(self).next_index(),
                    boundary,
                    parent,
                    transform,
                )
                &&& final(self).owners() == old(self).owners().insert(
                    old(self).next_index(),
                    parent,
                )
            },
            old(self).next_index() == u32::MAX ==> {
                &&& r matches Err(EngineError::MaxCollidersError { insertion_loc })
                    && insertion_loc@ == "CollisionManager::add_component_collider"@
                &&& final(self).arena() == old(self).arena()
                &&& final(self).next_index() == old(self).next_index()
            },
    {
        proof {
            if registered(self.arena(), self.next_index()) {
                let k = slot_of(self.arena(), self.next_index());
                assert(self.arena()[k].index < self.next_index());
            }
        }
        if self.next_key == u32::MAX {
            return Err(
                EngineError::MaxCollidersError {
                    insertion_loc: String::from_str("CollisionManager::add_component_collider"),
                },
            );
        }
        let collider_idx = self.next_key;
        let collider = Collider::new(collider_idx, boundary, parent, transform);
        proof {
            lemma_owners_of(self.colliders@);
        }
        self.colliders.push(collider);
        self.next_key = self.next_key + 1;
        proof {
            let before = old(self).colliders@;
            let after = self.colliders@;
            assert(after.drop_last() =~= before);
            assert(ascending(after));
            lemma_owners_of(after);
            assert forall|i: u32| registered(after, i) <==> (registered(before, i) || i
                == collider_idx) by {
                if registered(before, i) {
                    let k = slot_of(before, i);
                    assert(after[k].index == i);
                }
                if i == collider_idx {
                    assert(after[after.len() - 1].index == i);
                }
                if registered(after, i) && i != collider_idx {
                    let k = slot_of(after, i);
                    assert(before[k].index == i);
                }
            }
            assert forall|i: u32| registered(before, i) implies owners_of(after)[i] == owners_of(
                before,
            )[i] by {
                let k = slot_of(before, i);
                assert(after[k] == before[k]);
            }
            assert(owners_of(after) =~= owners_of(before).insert(collider_idx, parent));
            assert forall|k: int| 0 <= k < self.colliding().len() implies {
                &&& (#[trigger] self.colliding()[k]).0 < self.next_index()
                &&& self.colliding()[k].1 < self.next_index()
                &&& (self.owners().contains_key(self.colliding()[k].0)
                    && self.owners().contains_key(self.colliding()[k].1) ==> publishable(
                    self.owners(),
                    self.colliding()[k],
                ))
            } by {
                let p = old(self).colliding()[k];
                assert(p.0 < collider_idx && p.1 < collider_idx);
            }
        }
        Ok(collider_idx)
    }

    /// The slot of the live collider `index`, if there is one.
    fn find_slot(&self, index: u32) -> (r: Option<usize>)
        requires
            self.wf(),
        ensures
            match r {
                Some(k) => {
                    &&& k < self.arena().len()
                    &&& self.arena()[k as int].index == index
                    &&& k == slot_of(self.arena(), index)
                    &&& registered(self.arena(), index)
                    &&& self.owners().contains_key(index)
                    &&& self.owners()[index] == self.arena()[k as int].parent
                },
                None => !registered(self.arena(), index) && !self.owners().contains_key(index),
            },
    {
        let mut k: usize = 0;
        while k < self.colliders.len()
            invariant
                k <= self.colliders.len(),
                ascending(self.colliders@),
                forall|i: int| 0 <= i < k ==> (#[trigger] self.colliders@[i]).index != index,
            decreases self.colliders.len() - k,
        {
            if self.colliders[k].index == index {
                proof {
                    lemma_owners_of(self.colliders@);
                }
                return Some(k);
            }
            k = k + 1;
        }
        proof {
            lemma_owners_of(self.colliders@);
        }
        None
    }

    /// The entity that owns the live collider `index`, if there is one.
    pub fn get_component(&self, index: u32) -> (r: Option<ComponentKey>)
        requires
            self.wf(),
        ensures
            r == if self.owners().contains_key(index) {
                Some(self.owners()[index])
            } else {
                None
            },
    {
        match self.find_slot(index) {
            Some(k) => Some(self.colliders[k].parent),
            None => None,
        }
    }

    /// Runs the bookkeeping of one detection pass over the frame's
    /// detections, given in detection order, and returns the events to
    /// publish, in publishing order.
    ///
    /// Of each unordered pair the first detection counts, and only where both
    /// colliders are live and owned by different entities. Each counted
    /// detection gives, where the pair was not colliding after the previous
    /// pass, a start event to both owners, and then an ongoing event to both. Each
    /// pair that was colliding and is no longer gives an end event to both
    /// owners, unless one of its colliders is gone. The counted pairs are then
    /// remembered for the next pass.
    pub fn trigger_collision_events(&mut self, detections: &Vec<Collision>) -> (events: Vec<Event>)
        requires
            old(self).wf(),
        ensures
            final(self).wf(),
            final(self).arena() == old(self).arena(),
            final(self).next_index() == old(self).next_index(),
            final(self).colliding() == frame_pairs(old(self).owners(), detections@),
            events@ == frame_events(old(self).owners(), old(self).colliding(), detections@),
            forall|k: int|
                0 <= k < events.len() ==> joins_two_entities(
                    old(self).owners(),
                    #[trigger] events[k],
                ),
    {
        let ghost owners = self.owners();
        let ghost prev = self.colliding();
        let mut events: Vec<Event> = Vec::new();
        let mut new_pairs: Vec<IndexPair> = Vec::new();
        let mut k: usize = 0;
        while k < detections.len()
            invariant
                k <= detections.len(),
                self.wf(),
                *self == *old(self),
                owners == self.owners(),
                prev == self.colliding(),
                new_pairs@ == frame_pairs(owners, detections@.take(k as int)),
                events@ == contacts_events(
                    owners,
                    prev,
                    frame_collisions(owners, detections@.take(k as int)),
                ),
            decreases detections.len() - k,
        {
            let d = detections[k];
            let pair = IndexPair(d.colliders.0, d.colliders.1);
            let ghost earlier = frame_collisions(owners, detections@.take(k as int));
            proof {
                assert(detections@.take(k + 1).drop_last() =~= detections@.take(k as int));
                assert(detections@.take(k + 1).last() == d);
            }
            let first = self.get_component(d.colliders.0);
            let second = self.get_component(d.colliders.1);
            match (first, second) {
                (Some(c1), Some(c2)) => {
                    if c1 != c2 && !contains_pair(&new_pairs, &pair) {
                        let was_colliding = contains_pair(&self.colliding_pairs, &pair);
                        if !was_colliding {
                            events.push(
                                Event {
                                    key: EventKey::CollisionStartEvent(c1),
                                    data: EventData::CollisionStartEvent { c1, c2, collision: d },
                                },
                            );
                            events.push(
                                Event {
                                    key: EventKey::CollisionStartEvent(c2),
                                    data: EventData::CollisionStartEvent { c1, c2, collision: d },
                                },
                            );
                        }
                        events.push(
                            Event {
                                key: EventKey::CollisionOngoingEvent(c1),
                                data: EventData::CollisionOngoingEvent { c1, c2, collision: d },
                            },
                        );
                        events.push(
                            Event {
                                key: EventKey::CollisionOngoingEvent(c2),
                                data: EventData::CollisionOngoingEvent { c1, c2, collision: d },
                            },
                        );
                        new_pairs.push(pair);
                        proof {
                            let kept = earlier.push(d);
                            assert(kept.drop_last() =~= earlier);
                            assert(pairs_of(kept) =~= pairs_of(earlier).push(pair));
                            assert(events@ =~= contacts_events(owners, prev, earlier)
                                + contact_events(owners, prev, d));
                        }
                    }
                },
                _ => {},
            }
            k = k + 1;
        }
        proof {
            assert(detections@.take(k as int) =~= detections@);
        }
        let ghost contacts = events@;
        let mut i: usize = 0;
        while i < self.colliding_pairs.len()
            invariant
                i <= self.colliding_pairs.len(),
                self.wf(),
                *self == *old(self),
                owners == self.owners(),
                prev == self.colliding(),
                new_pairs@ == frame_pairs(owners, detections@),
                events@ == contacts + releases_events(owners, prev.take(i as int), new_pairs@),
            decreases self.colliding_pairs.len() - i,
        {
            let pair = self.colliding_pairs[i];
            proof {
                assert(prev.take(i + 1).drop_last() =~= prev.take(i as int));
                assert(prev.take(i + 1).last() == pair);
            }
            if !contains_pair(&new_pairs, &pair) {
                let first = self.get_component(pair.0);
                let second = self.get_component(pair.1);
                match (first, second) {
                    (Some(c1), Some(c2)) => {
                        events.push(
                            Event {
                                key: EventKey::CollisionEndEvent(c1),
                                data: EventData::CollisionEndEvent {
                                    c1,
                                    c2,
                                    collider_keys: (pair.0, pair.1),
                                },
                            },
                        );
                        events.push(
                            Event {
                                key: EventKey::CollisionEndEvent(c2),
                                data: EventData::CollisionEndEvent {
                                    c1,
                                    c2,
                                    collider_keys: (pair.0, pair.1),
                                },
                            },
                        );
                    },
                    _ => {},
                }
            }
            proof {
                assert(events@ =~= contacts + (releases_events(
                    owners,
                    prev.take(i as int),
                    new_pairs@,
                ) + release_events(owners, new_pairs@, pair)));
            }
            i = i + 1;
        }
        proof {
            assert(prev.take(i as int) =~= prev);
            lemma_frame_pairs(owners, detections@);
            lemma_owners_of(self.colliders@);
            let kept = frame_collisions(owners, detections@);
            assert forall|j: int| 0 <= j < new_pairs@.len() implies {
                &&& (#[trigger] new_pairs@[j]).0 < self.next_index()
                &&& new_pairs@[j].1 < self.next_index()
                &&& publishable(owners, new_pairs@[j])
            } by {
                assert(new_pairs@[j] == pair_of(kept[j]));
            }
        }
        proof {
            assert(live_pairs_publishable(owners, prev));
            lemma_events_join_two_entities(owners, prev, detections@);
            assert(events@ == frame_events(owners, prev, detections@));
            assert forall|k: int| 0 <= k < events.len() implies joins_two_entities(
                owners,
                #[trigger] events[k],
            ) by {
                assert(events[k] == frame_events(owners, prev, detections@)[k]);
            }
        }
        self.colliding_pairs = new_pairs;
        events
    }

    /// The live collider with this index, if there is one.
    pub fn get_collider(&self, index: u32) -> (r: Option<&Collider<S>>)
        requires
            self.wf(),
        ensures
            match r {
                Some(c) => registered(self.arena(), index) && *c == self.arena()[slot_of(
                    self.arena(),
                    index,
                )] && c.index == index,
                None => !registered(self.arena(), index),
            },
    {
        match self.find_slot(index) {
            Some(k) => Some(&self.colliders[k]),
            None => None,
        }
    }

    /// Replaces the relative pose of the live collider `index`, which drops
    /// its cached world-space pose. Returns whether there is such a collider;
    /// without one nothing changes.
    pub fn update_transform(&mut self, index: u32, new_pos: Vector3, new_rot: Quaternion) -> (r:
        bool)
        requires
            old(self).wf(),
        ensures
            final(self).wf(),
            r == registered(old(self).arena(), index),
            final(self).colliding() == old(self).colliding(),
            final(self).next_index() == old(self).next_index(),
            final(self).owners() == old(self).owners(),
            r ==> final(self).arena() == old(self).arena().update(
                slot_of(old(self).arena(), index),
                old(self).arena()[slot_of(old(self).arena(), index)].with_pose(new_pos, new_rot),
            ),
            !r ==> final(self).arena() == old(self).arena(),
    {
        match self.find_slot(index) {
            Some(k) => {
                let slot = &mut self.colliders[k];
                slot.update_transform(new_pos, new_rot);
                proof {
                    lemma_same_owners(old(self).colliders@, self.colliders@);
                    assert(self.colliders@ =~= old(self).colliders@.update(
                        k as int,
                        old(self).colliders@[k as int].with_pose(new_pos, new_rot),
                    ));
                }
                true
            },
            None => false,
        }
    }

    /// Replaces the relative position of the live collider `index`, which
    /// drops its cached world-space pose. Returns whether there is such a
    /// collider; without one nothing changes.
    pub fn update_pos(&mut self, index: u32, new_pos: Vector3) -> (r: bool)
        requires
            old(self).wf(),
        ensures
            final(self).wf(),
            r == registered(old(self).arena(), index),
            final(self).colliding() == old(self).colliding(),
            final(self).next_index() == old(self).next_index(),
            final(self).owners() == old(self).owners(),
            r ==> final(self).arena() == old(self).arena().update(
                slot_of(old(self).arena(), index),
                old(self).arena()[slot_of(old(self).arena(), index)].with_pose(
                    new_pos,
                    old(self).arena()[slot_of(old(self).arena(), index)].transform.relative_rot,
                ),
            ),
            !r ==> final(self).arena() == old(self).arena(),
    {
        match self.find_slot(index) {
            Some(k) => {
                let slot = &mut self.colliders[k];
                slot.update_pos(new_pos);
                proof {
                    lemma_same_owners(old(self).colliders@, self.colliders@);
                    assert(self.colliders@ =~= old(self).colliders@.update(
                        k as int,
                        old(self).colliders@[k as int].with_pose(
                            new_pos,
                            old(self).colliders@[k as int].transform.relative_rot,
                        ),
                    ));
                }
                true
            },
            None => false,
        }
    }

    /// Replaces the relative orientation of the live collider `index`, which
    /// drops its cached world-space pose. Returns whether there is such a
    /// collider; without one nothing changes.
    pub fn update_rot(&mut self, index: u32, new_rot: Quaternion) -> (r: bool)
        requires
            old(self).wf(),
        ensures
            final(self).wf(),
            r == registered(old(self).arena(), index),
            final(self).colliding() == old(self).colliding(),
            final(self).next_index() == old(self).next_index(),
            final(self).owners() == old(self).owners(),
            r ==> final(self).arena() == old(self).arena().update(
                slot_of(old(self).arena(), index),
                old(self).arena()[slot_of(old(self).arena(), index)].with_pose(
                    old(self).arena()[slot_of(old(self).arena(), index)].transform.relative_pos,
                    new_rot,
                ),
            ),
            !r ==> final(self).arena() == old(self).arena(),
    {
        match self.find_slot(index) {
            Some(k) => {
                let slot = &mut self.colliders[k];
                slot.update_rot(new_rot);
                proof {
                    lemma_same_owners(old(self).colliders@, self.colliders@);
                    assert(self.colliders@ =~= old(self).colliders@.update(
                        k as int,
                        old(self).colliders@[k as int].with_pose(
                            old(self).colliders@[k as int].transform.relative_pos,
                            new_rot,
                        ),
                    ));
                }
                true
            },
            None => false,
        }
    }

    /// Records `col` in the cache of the live collider `index` and hands it
    /// back. Where there is no such collider, or `col` does not name it,
    /// nothing changes and `None` is returned.
    pub fn add_collision(&mut self, index: u32, col: &Collision) -> (r: Option<Collision>)
        requires
            old(self).wf(),
        ensures
            final(self).wf(),
            final(self).colliding() == old(self).colliding(),
            final(self).next_index() == old(self).next_index(),
            final(self).owners() == old(self).owners(),
            final(self).arena().len() == old(self).arena().len(),
            forall|k: int|
                0 <= k < old(self).arena().len() ==> {
                    &&& (#[trigger] final(self).arena()[k]).index == old(self).arena()[k].index
                    &&& final(self).arena()[k].underlying == old(self).arena()[k].underlying
                    &&& final(self).arena()[k].parent == old(self).arena()[k].parent
                    &&& final(self).arena()[k].transform == old(self).arena()[k].transform
                    &&& final(self).arena()[k].collisions() == if old(self).arena()[k].index
                        == index && old(self).arena()[k].takes_part(*col) {
                        old(self).arena()[k].collisions().insert(
                            old(self).arena()[k].partner(*col),
                            *col,
                        )
                    } else {
                        old(self).arena()[k].collisions()
                    }
                },
            r == if registered(old(self).arena(), index) && (col.colliders.0 == index
                || col.colliders.1 == index) {
                Some(*col)
            } else {
                None
            },
    {
        match self.find_slot(index) {
            Some(k) => {
                let slot = &mut self.colliders[k];
                let r = slot.add_collision(col);
                proof {
                    lemma_same_owners(old(self).colliders@, self.colliders@);
                    assert forall|i: int| 0 <= i < self.colliders@.len() && i
                        != k implies #[trigger] self.colliders@[i] == old(self).colliders@[i] by {}
                    assert forall|i: int|
                        0 <= i < old(self).colliders@.len() && (#[trigger] old(
                            self,
                        ).colliders@[i]).index == index implies i == k by {
                        if i < k {
                            assert(old(self).colliders@[i].index < old(
                                self,
                            ).colliders@[k as int].index);
                        }
                        if k < i {
                            assert(old(self).colliders@[k as int].index < old(
                                self,
                            ).colliders@[i].index);
                        }
                    }
                }
                r
            },
            None => {
                proof {
                    assert forall|i: int| 0 <= i < old(self).colliders@.len() implies (
                    #[trigger] old(self).colliders@[i]).index != index by {}
                }
                None
            },
        }
    }

    /// Removes every collider that `comp` owns and returns them in the order
    /// of their indices, or `None` where `comp` owns none. The colliding pairs
    /// are left as they are: a pair that lost a collider is dropped, without
    /// an end event, by the next detection pass.
    pub fn remove_component_colliders(&mut self, comp: ComponentKey) -> (r: Option<Vec<Collider<S>>>)
        requires
            old(self).wf(),
        ensures
            final(self).wf(),
            final(self).colliding() == old(self).colliding(),
            final(self).next_index() == old(self).next_index(),
            final(self).arena() == old(self).arena().filter(not_owned_by::<S>(comp)),
            match r {
                Some(removed) => removed@ == old(self).arena().filter(owned_by::<S>(comp))
                    && removed.len() > 0,
                None => old(self).arena().filter(owned_by::<S>(comp)).len() == 0,
            },
            forall|i: u32| #[trigger]
                final(self).owners().contains_key(i) <==> (old(self).owners().contains_key(i)
                    && old(self).owners()[i] != comp),
            forall|i: u32| #[trigger]
                final(self).owners().contains_key(i) ==> final(self).owners()[i] == old(
                    self,
                ).owners()[i],
    {
        let ghost orig = self.colliders@;
        let ghost keep = not_owned_by::<S>(comp);
        let ghost gone = owned_by::<S>(comp);
        let mut removed: Vec<Collider<S>> = Vec::new();
        let mut i: usize = 0;
        let ghost mut n: int = 0;
        proof {
            reveal(Seq::filter);
            assert(orig.take(0).filter(keep) =~= Seq::<Collider<S>>::empty());
            assert(orig.take(0).filter(gone) =~= Seq::<Collider<S>>::empty());
            assert(self.colliders@.take(0) =~= Seq::<Collider<S>>::empty());
            assert(self.colliders@.skip(0) =~= orig.skip(0));
        }
        while i < self.colliders.len()
            invariant
                0 <= n <= orig.len(),
                n == i + removed.len(),
                i <= self.colliders.len(),
                self.colliders@.len() == orig.len() - removed.len(),
                self.colliders@.take(i as int) == orig.take(n).filter(keep),
                self.colliders@.skip(i as int) == orig.skip(n),
                removed@ == orig.take(n).filter(gone),
                self.colliding_pairs == old(self).colliding_pairs,
                self.next_key == old(self).next_key,
                keep == not_owned_by::<S>(comp),
                gone == owned_by::<S>(comp),
            decreases self.colliders.len() - i,
        {
            proof {
                assert(self.colliders@[i as int] == self.colliders@.skip(i as int)[0]);
                assert(orig[n] == orig.skip(n)[0]);
                assert(orig.take(n + 1) =~= orig.take(n).push(orig[n]));
                orig.take(n).lemma_filter_push(orig[n], keep);
                orig.take(n).lemma_filter_push(orig[n], gone);
            }
            let ghost before = self.colliders@;
            if self.colliders[i].parent == comp {
                let c = self.colliders.remove(i);
                removed.push(c);
                proof {
                    assert(self.colliders@.take(i as int) =~= before.take(i as int));
                    assert(self.colliders@.skip(i as int) =~= before.skip(i as int).skip(1));
                    assert(orig.skip(n + 1) =~= orig.skip(n).skip(1));
                }
            } else {
                proof {
                    assert(before.take(i + 1) =~= before.take(i as int).push(before[i as int]));
                    assert(before.skip(i + 1) =~= before.skip(i as int).skip(1));
                    assert(orig.skip(n + 1) =~= orig.skip(n).skip(1));
                }
                i = i + 1;
            }
            proof {
                n = n + 1;
            }
        }
        proof {
            assert(self.colliders@.take(i as int) =~= self.colliders@);
            assert(orig.skip(n).len() == 0);
            assert(orig.take(n) =~= orig);
            lemma_filtered_arena(orig, keep);
            lemma_filtered_owners(orig, keep);
            lemma_owners_of(orig);
            let sub = self.colliders@;
            assert forall|k: int| 0 <= k < sub.len() implies (#[trigger] sub[k]).index
                < self.next_key by {
                assert(sub.contains(sub[k]));
                orig.lemma_filter_contains_rev(keep, sub[k]);
                let m = choose|m: int| 0 <= m < orig.len() && orig[m] == sub[k];
                assert(orig[m].index < self.next_key);
            }
            assert forall|i: u32| #[trigger]
                owners_of(sub).contains_key(i) <==> (owners_of(orig).contains_key(i) && owners_of(
                    orig,
                )[i] != comp) by {}
        }
        if removed.len() == 0 {
            None
        } else {
            Some(removed)
        }
    }

    /// The indices of the live colliders, in ascending order.
    pub fn collider_indices(&self) -> (r: Vec<u32>)
        ensures
            r@ == indices_of(self.arena()),
    {
        let mut out: Vec<u32> = Vec::new();
        let mut k: usize = 0;
        while k < self.colliders.len()
            invariant
                k <= self.colliders.len(),
                out@ == indices_of(self.colliders@.take(k as int)),
            decreases self.colliders.len() - k,
        {
            out.push(self.colliders[k].index);
            proof {
                assert(indices_of(self.colliders@.take(k + 1)) =~= indices_of(
                    self.colliders@.take(k as int),
                ).push(self.colliders@[k as int].index));
            }
            k = k + 1;
        }
        proof {
            assert(self.colliders@.take(k as int) =~= self.colliders@);
        }
        out
    }

    /// The indices of the live colliders that `comp` owns, in ascending order.
    pub fn colliders_of(&self, comp: ComponentKey) -> (r: Vec<u32>)
        ensures
            r@ == indices_of(self.arena().filter(owned_by::<S>(comp))),
    {
        let ghost gone = owned_by::<S>(comp);
        let mut out: Vec<u32> = Vec::new();
        let mut k: usize = 0;
        proof {
            reveal(Seq::filter);
            assert(self.colliders@.take(0).filter(gone) =~= Seq::<Collider<S>>::empty());
        }
        while k < self.colliders.len()
            invariant
                k <= self.colliders.len(),
                gone == owned_by::<S>(comp),
                out@ == indices_of(self.colliders@.take(k as int).filter(gone)),
            decreases self.colliders.len() - k,
        {
            proof {
                assert(self.colliders@.take(k + 1) =~= self.colliders@.take(k as int).push(
                    self.colliders@[k as int],
                ));
                self.colliders@.take(k as int).lemma_filter_push(self.colliders@[k as int], gone);
            }
            if self.colliders[k].parent == comp {
                out.push(self.colliders[k].index);
                proof {
                    let sel = self.colliders@.take(k as int).filter(gone);
                    assert(indices_of(sel.push(self.colliders@[k as int])) =~= indices_of(sel).push(
                        self.colliders@[k as int].index,
                    ));
                }
            }
            k = k + 1;
        }
        proof {
            assert(self.colliders@.take(k as int) =~= self.colliders@);
        }
        out
    }

    /// The indices of the live colliders whose owner is one of `entities`, in
    /// ascending order: the colliders to refresh when those entities have
    /// moved.
    pub fn colliders_of_entities(&self, entities: &Vec<ComponentKey>) -> (r: Vec<u32>)
        requires
            self.wf(),
        ensures
            r@ == indices_of(self.arena().filter(owned_by_any::<S>(entities@))),
            forall|k: int|
                0 <= k < self.arena().len() ==> (r@.contains((#[trigger] self.arena()[k]).index)
                    <==> entities@.contains(self.arena()[k].parent)),
    {
        let ghost chosen = owned_by_any::<S>(entities@);
        let mut out: Vec<u32> = Vec::new();
        let mut k: usize = 0;
        proof {
            reveal(Seq::filter);
            assert(self.colliders@.take(0).filter(chosen) =~= Seq::<Collider<S>>::empty());
        }
        while k < self.colliders.len()
            invariant
                k <= self.colliders.len(),
                chosen == owned_by_any::<S>(entities@),
                out@ == indices_of(self.colliders@.take(k as int).filter(chosen)),
            decreases self.colliders.len() - k,
        {
            proof {
                assert(self.colliders@.take(k + 1) =~= self.colliders@.take(k as int).push(
                    self.colliders@[k as int],
                ));
                self.colliders@.take(k as int).lemma_filter_push(self.colliders@[k as int], chosen);
            }
            if has_entity(entities, self.colliders[k].parent) {
                out.push(self.colliders[k].index);
                proof {
                    let sel = self.colliders@.take(k as int).filter(chosen);
                    assert(indices_of(sel.push(self.colliders@[k as int])) =~= indices_of(sel).push(
                        self.colliders@[k as int].index,
                    ));
                }
            }
            k = k + 1;
        }
        proof {
            assert(self.colliders@.take(k as int) =~= self.colliders@);
            let arena = self.colliders@;
            let sub = arena.filter(chosen);
            lemma_filtered_owners(arena, chosen);
            lemma_filtered_arena(arena, chosen);
            lemma_owners_of(arena);
            lemma_owners_of(sub);
            assert forall|k: int| 0 <= k < arena.len() implies (out@.contains(
                (#[trigger] arena[k]).index,
            ) <==> entities@.contains(arena[k].parent)) by {
                let index = arena[k].index;
                if out@.contains(index) {
                    let j = choose|j: int| 0 <= j < out@.len() && out@[j] == index;
                    assert(sub[j].index == index);
                    assert(owners_of(sub).contains_key(index));
                }
                if entities@.contains(arena[k].parent) {
                    assert(chosen(arena[slot_of(arena, index)]));
                    assert(owners_of(sub).contains_key(index));
                    let j = slot_of(sub, index);
                    assert(out@[j] == index);
                }
            }
        }
        out
    }

    /// Every ordered pair of two different live colliders, in the order in
    /// which a detection pass probes them: the first collider against each
    /// other one, then the second against each other one, and so on.
    pub fn candidate_pairs(&self) -> (r: Vec<(u32, u32)>)
        ensures
            r@ == pairs_upto(indices_of(self.arena()), self.arena().len()),
    {
        let ghost indices = indices_of(self.colliders@);
        let n = self.colliders.len();
        let mut out: Vec<(u32, u32)> = Vec::new();
        let mut a: usize = 0;
        while a < n
            invariant
                a <= n,
                n == self.colliders.len(),
                indices == indices_of(self.colliders@),
                out@ == pairs_upto(indices, a as nat),
            decreases n - a,
        {
            let first = self.colliders[a].index;
            let ghost done = out@;
            let mut b: usize = 0;
            while b < n
                invariant
                    b <= n,
                    a < n,
                    n == self.colliders.len(),
                    indices == indices_of(self.colliders@),
                    first == indices[a as int],
                    out@ == done + if b <= a {
                        indices.take(b as int).map_values(|x: u32| (first, x))
                    } else {
                        indices.take(b as int).remove(a as int).map_values(|x: u32| (first, x))
                    },
                decreases n - b,
            {
                let ghost before = out@;
                if b != a {
                    out.push((first, self.colliders[b].index));
                }
                proof {
                    let f = |x: u32| (first, x);
                    let t0 = indices.take(b as int);
                    let t1 = indices.take(b + 1);
                    assert(t1 =~= t0.push(indices[b as int]));
                    if b < a {
                        assert(t1.map_values(f) =~= t0.map_values(f).push(
                            (first, indices[b as int]),
                        ));
                    } else if b == a {
                        assert(t1.remove(a as int) =~= t0);
                    } else {
                        assert(t1.remove(a as int) =~= t0.remove(a as int).push(indices[b as int]));
                        assert(t1.remove(a as int).map_values(f) =~= t0.remove(a as int).map_values(
                            f,
                        ).push((first, indices[b as int])));
                    }
                }
                b = b + 1;
            }
            proof {
                assert(indices.take(n as int) =~= indices);
            }
            a = a + 1;
        }
        out
    }

    /// Caches the world-space poses that the owners' world transforms give
    /// the colliders. Each entry names a collider and its world-space pose;
    /// of several entries for one collider the last counts. Colliders without
    /// an entry, and everything but the caches, stay as they are.
    pub fn update_collider_positions(&mut self, poses: &Vec<(u32, GlobalTransform)>)
        requires
            old(self).wf(),
        ensures
            final(self).wf(),
            final(self).colliding() == old(self).colliding(),
            final(self).next_index() == old(self).next_index(),
            final(self).owners() == old(self).owners(),
            final(self).arena().len() == old(self).arena().len(),
            forall|k: int|
                0 <= k < old(self).arena().len() ==> #[trigger] final(self).arena()[k]
                    == refreshed(old(self).arena()[k], pose_for(poses@, old(self).arena()[k].index)),
    {
        let mut k: usize = 0;
        while k < self.colliders.len()
            invariant
                k <= self.colliders.len(),
                self.colliders.len() == old(self).colliders.len(),
                self.colliding_pairs == old(self).colliding_pairs,
                self.next_key == old(self).next_key,
                forall|i: int|
                    0 <= i < k ==> #[trigger] self.colliders@[i] == refreshed(
                        old(self).colliders@[i],
                        pose_for(poses@, old(self).colliders@[i].index),
                    ),
                forall|i: int|
                    k <= i < self.colliders.len() ==> #[trigger] self.colliders@[i] == old(
                        self,
                    ).colliders@[i],
            decreases self.colliders.len() - k,
        {
            let pose = find_pose(poses, self.colliders[k].index);
            match pose {
                Some(g) => {
                    let slot = &mut self.colliders[k];
                    slot.transform.cache_global_pos(g.pos);
                    slot.transform.cache_global_rot(g.rot);
                },
                None => {},
            }
            k = k + 1;
        }
        proof {
            lemma_same_owners(old(self).colliders@, self.colliders@);
        }
    }

    /// Turns the successful tests of one ray, given in test order, into its
    /// intersections: every hit of a live collider is kept, none is preferred,
    /// and each is given the collider's owner.
    pub fn intersect_ray(&self, hits: &Vec<RayHit>) -> (r: Vec<RayIntersect>)
        requires
            self.wf(),
        ensures
            r@ == ray_intersections(self.owners(), hits@),
    {
        let mut intersections: Vec<RayIntersect> = Vec::new();
        let mut k: usize = 0;
        while k < hits.len()
            invariant
                k <= hits.len(),
                self.wf(),
                intersections@ == ray_intersections(self.owners(), hits@.take(k as int)),
            decreases hits.len() - k,
        {
            let hit = hits[k];
            proof {
                assert(hits@.take(k + 1).drop_last() =~= hits@.take(k as int));
                assert(hits@.take(k + 1).last() == hit);
            }
            match self.get_component(hit.collider_idx) {
                Some(component) => {
                    intersections.push(
                        RayIntersect { component, collider_idx: hit.collider_idx, loc: hit.loc },
                    );
                },
                None => {},
            }
            k = k + 1;
        }
        proof {
            assert(hits@.take(k as int) =~= hits@);
        }
        intersections
    }

    /// Refreshes what each raycast hits. `hits` holds, for the raycast in
    /// each slot, its successful tests; a raycast for which the lists run out
    /// hits nothing. Only the intersections change.
    pub fn intersect_raycasts(&self, raycasts: &mut Vec<Raycast>, hits: &Vec<Vec<RayHit>>)
        requires
            self.wf(),
        ensures
            final(raycasts).len() == old(raycasts).len(),
            forall|k: int|
                0 <= k < old(raycasts).len() ==> {
                    &&& (#[trigger] final(raycasts)[k]).id == old(raycasts)[k].id
                    &&& final(raycasts)[k].ray == old(raycasts)[k].ray
                    &&& final(raycasts)[k].max_dist == old(raycasts)[k].max_dist
                    &&& final(raycasts)[k].parent == old(raycasts)[k].parent
                    &&& final(raycasts)[k].intersections@ == ray_intersections(
                        self.owners(),
                        hits_for(hits@, k),
                    )
                },
    {
        let mut k: usize = 0;
        while k < raycasts.len()
            invariant
                k <= raycasts.len(),
                self.wf(),
                raycasts.len() == old(raycasts).len(),
                forall|i: int|
                    0 <= i < k ==> {
                        &&& (#[trigger] raycasts[i]).id == old(raycasts)[i].id
                        &&& raycasts[i].ray == old(raycasts)[i].ray
                        &&& raycasts[i].max_dist == old(raycasts)[i].max_dist
                        &&& raycasts[i].parent == old(raycasts)[i].parent
                        &&& raycasts[i].intersections@ == ray_intersections(
                            self.owners(),
                            hits_for(hits@, i),
                        )
                    },
                forall|i: int| k <= i < raycasts.len() ==> #[trigger] raycasts[i] == old(raycasts)[i],
            decreases raycasts.len() - k,
        {
            let found = if k < hits.len() {
                self.intersect_ray(&hits[k])
            } else {
                Vec::new()
            };
            let slot = &mut raycasts[k];
            slot.intersections = found;
            k = k + 1;
        }
    }
}

} // verus!
