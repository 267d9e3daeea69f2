//! Long-lived ray queries and what they currently hit.

use std::collections::HashMap;
use vstd::prelude::*;
use vstd::std_specs::hash::spec_keys_iter;
use vstd::std_specs::iter::IteratorSpec;
use crate::collisions::collision_manager::CollisionManager;
use crate::component_store::ComponentKey;
use crate::events::{Event, EventData, EventKey};
use crate::raycasting::intersections::ray_intersections;
use crate::raycasting::ray::{Ray, RayHit};
use crate::space::Point3;

verus! {

broadcast use vstd::std_specs::hash::group_hash_axioms;

/// A ray hit, with the entity that owns the collider hit.
#[derive(Clone, Copy, Debug, PartialEq, Eq, Structural)]
pub struct RayIntersect {
    pub component: ComponentKey,
    pub collider_idx: u32,
    pub loc: Point3,
}

/// A named ray query: the ray, how far it reaches (encoded), who owns it, and
/// what it hit when it was last refreshed.
#[derive(Clone, Debug, PartialEq)]
pub struct Raycast {
    pub id: u32,
    pub ray: Ray,
    pub max_dist: u32,
    pub parent: ComponentKey,
    pub intersections: Vec<RayIntersect>,
}

/// The event that reports one hit of a raycast to the owner of the collider
/// hit.
pub open spec fn raycast_event(hit: RayIntersect) -> Event {
    Event {
        key: EventKey::RaycastIntersectEvent(hit.component),
        data: EventData::RaycastIntersectEvent {
            component: hit.component,
            collider_idx: hit.collider_idx,
            intersect_loc: hit.loc,
        },
    }
}

/// One event per hit, in the order of the hits.
pub open spec fn hit_events(hits: Seq<RayIntersect>) -> Seq<Event> {
    hits.map_values(|h: RayIntersect| raycast_event(h))
}

/// The events of the raycasts named by `order`: raycast after raycast in
/// that order, hit after hit. An id without a raycast adds nothing.
pub open spec fn raycast_events(raycasts: Map<u32, Raycast>, order: Seq<u32>) -> Seq<Event>
    decreases order.len(),
{
    if order.len() == 0 {
        Seq::empty()
    } else {
        raycast_events(raycasts, order.drop_last()) + if raycasts.contains_key(order.last()) {
            hit_events(raycasts[order.last()].intersections@)
        } else {
            Seq::empty()
        }
    }
}

/// Whether `order` names every raycast, each once.
pub open spec fn visits_each_once(raycasts: Map<u32, Raycast>, order: Seq<u32>) -> bool {
    order.no_duplicates() && order.to_set() == raycasts.dom()
}

/// The successful tests given for raycast `id`: those of the last entry for
/// it, or none where there is no entry.
pub open spec fn hits_of(hits: Seq<(u32, Vec<RayHit>)>, id: u32) -> Seq<RayHit>
    decreases hits.len(),
{
    if hits.len() == 0 {
        Seq::empty()
    } else if hits.last().0 == id {
        hits.last().1@
    } else {
        hits_of(hits.drop_last(), id)
    }
}

/// Whether a raycast is what another one becomes when only its
/// intersections are replaced by `found`.
pub open spec fn refreshed_raycast(now: Raycast, before: Raycast, found: Seq<RayIntersect>) -> bool {
    &&& now.id == before.id
    &&& now.ray == before.ray
    &&& now.max_dist == before.max_dist
    &&& now.parent == before.parent
    &&& now.intersections@ == found
}

/// The place of the entry whose tests count for raycast `id`, as [`hits_of`]
/// has it.
pub fn find_hits(hits: &Vec<(u32, Vec<RayHit>)>, id: u32) -> (r: Option<usize>)
    ensures
        match r {
            Some(k) => k < hits.len() && hits@[k as int].0 == id && hits@[k as int].1@ == hits_of(
                hits@,
                id,
            ),
            None => hits_of(hits@, id) == Seq::<RayHit>::empty(),
        },
{
    let mut k: usize = hits.len();
    proof {
        assert(hits@.take(k as int) =~= hits@);
    }
    while k > 0
        invariant
            k <= hits.len(),
            hits_of(hits@, id) == hits_of(hits@.take(k as int), id),
        decreases k,
    {
        proof {
            assert(hits@.take(k as int).drop_last() =~= hits@.take(k - 1));
            assert(hits@.take(k as int).last() == hits@[k - 1]);
        }
        if hits[k - 1].0 == id {
            return Some(k - 1);
        }
        k = k - 1;
    }
    proof {
        assert(hits@.take(0).len() == 0);
    }
    None
}

/// The scene's raycasts, each under an id of its own.
pub struct RaycastManager {
    next_raycast_idx: u32,
    raycasts: HashMap<u32, Raycast>,
}

impl RaycastManager {
    /// The raycasts, by id.
    pub closed spec fn view(&self) -> Map<u32, Raycast> {
        self.raycasts@
    }

    /// The id that the next raycast gets.
    pub closed spec fn next_id(&self) -> u32 {
        self.next_raycast_idx
    }

    /// The manager's invariant: each raycast is filed under its own id, and
    /// every id was given out by this manager.
    pub open spec fn wf(&self) -> bool {
        forall|id: u32| #[trigger]
            self@.contains_key(id) ==> self@[id].id == id && id < self.next_id()
    }

    /// A manager without raycasts. The first raycast gets id one.
    pub fn new() -> (m: RaycastManager)
        ensures
            m.wf(),
            m@ == Map::<u32, Raycast>::empty(),
            m.next_id() == 1,
    {
        RaycastManager { next_raycast_idx: 1, raycasts: HashMap::new() }
    }

    /// A manager without raycasts, whose first raycast gets id `first`.
    pub fn with_first_id(first: u32) -> (m: RaycastManager)
        ensures
            m.wf(),
            m@ == Map::<u32, Raycast>::empty(),
            m.next_id() == first,
    {
        RaycastManager { next_raycast_idx: first, raycasts: HashMap::new() }
    }

    /// Stores a new raycast under the next id and returns a copy of it, with
    /// no intersections yet. Once the counter stands at its largest value no
    /// id is left: `None` is returned and nothing changes.
    pub fn new_raycast(&mut self, ray: Ray, max_dist: u32, parent: ComponentKey) -> (r: Option<
        Raycast,
    >)
        requires
            old(self).wf(),
        ensures
            final(self).wf(),
            !old(self)@.contains_key(old(self).next_id()),
            old(self).next_id() == u32::MAX ==> r is None && final(self)@ == old(self)@
                && final(self).next_id() == old(self).next_id(),
            old(self).next_id() < u32::MAX ==> {
                &&& r matches Some(raycast)
                &&& raycast.id == old(self).next_id()
                &&& raycast.ray == ray
                &&& raycast.max_dist == max_dist
                &&& raycast.parent == parent
                &&& raycast.intersections@ == Seq::<RayIntersect>::empty()
                &&& final(self).next_id() == old(self).next_id() + 1
                &&& final(self)@.contains_key(raycast.id)
                &&& final(self)@ == old(self)@.insert(raycast.id, final(self)@[raycast.id])
                &&& final(self)@[raycast.id].id == raycast.id
                &&& final(self)@[raycast.id].ray == ray
                &&& final(self)@[raycast.id].max_dist == max_dist
                &&& final(self)@[raycast.id].parent == parent
                &&& final(self)@[raycast.id].intersections@ == Seq::<RayIntersect>::empty()
            },
    {
        if self.next_raycast_idx == u32::MAX {
            return None;
        }
        let id = self.next_raycast_idx;
        let stored = Raycast { id, ray, max_dist, parent, intersections: Vec::new() };
        let copy = Raycast { id, ray, max_dist, parent, intersections: Vec::new() };
        self.raycasts.insert(id, stored);
        self.next_raycast_idx = self.next_raycast_idx + 1;
        proof {
            assert forall|x: u32| #[trigger] self@.contains_key(x) implies self@[x].id == x && x
                < self.next_id() by {
                if x != id {
                    assert(old(self)@.contains_key(x));
                }
            }
        }
        Some(copy)
    }

    /// Removes the raycast with this id and hands it back; `None`, and no
    /// change, where there is none.
    pub fn remove_raycast(&mut self, raycast_id: &u32) -> (r: Option<Raycast>)
        requires
            old(self).wf(),
        ensures
            final(self).wf(),
            final(self).next_id() == old(self).next_id(),
            final(self)@ == old(self)@.remove(*raycast_id),
            r == if old(self)@.contains_key(*raycast_id) {
                Some(old(self)@[*raycast_id])
            } else {
                None
            },
    {
        let removed = self.raycasts.remove(raycast_id);
        proof {
            assert forall|x: u32| #[trigger] self@.contains_key(x) implies self@[x].id == x && x
                < self.next_id() by {
                assert(old(self)@.contains_key(x));
            }
        }
        removed
    }

    /// How many raycasts there are.
    pub fn len(&self) -> (n: usize)
        ensures
            n == self@.dom().len(),
    {
        self.raycasts.len()
    }

    /// The raycast with this id, if there is one.
    pub fn get(&self, raycast_id: u32) -> (r: Option<&Raycast>)
        ensures
            r == if self@.contains_key(raycast_id) {
                Some(&self@[raycast_id])
            } else {
                None
            },
    {
        self.raycasts.get(&raycast_id)
    }

    /// The ids of the raycasts, each once, in no particular order.
    pub fn ids(&self) -> (ids: Vec<u32>)
        ensures
            visits_each_once(self@, ids@),
    {
        let mut ids: Vec<u32> = Vec::new();
        let ghost all = spec_keys_iter(&self.raycasts).remaining().unref();
        for id in it: self.raycasts.keys()
            invariant
                all == it.seq().unref(),
                ids@ == all.take(it.index()),
        {
            ids.push(*id);
            proof {
                assert(all.take(it.index() + 1) =~= all.take(it.index()).push(*id));
            }
        }
        proof {
            assert(all.take(all.len() as int) =~= all);
            assert(all.no_duplicates()) by {
                let refs = spec_keys_iter(&self.raycasts).remaining();
                assert forall|i: int, j: int| 0 <= i < all.len() && 0 <= j < all.len() && i
                    != j implies all[i] != all[j] by {
                    assert(refs[i] != refs[j]);
                }
            }
        }
        ids
    }

    /// Refreshes what each raycast hits, through the collision manager.
    /// `hits` holds, under the id of a raycast, its successful tests against
    /// the live colliders; a raycast without an entry hits nothing. Only the
    /// intersections change.
    pub fn intersect_colliders<S>(
        &mut self,
        collision_manager: &CollisionManager<S>,
        hits: &Vec<(u32, Vec<RayHit>)>,
    )
        requires
            old(self).wf(),
            collision_manager.wf(),
        ensures
            final(self).wf(),
            final(self).next_id() == old(self).next_id(),
            final(self)@.dom() == old(self)@.dom(),
            forall|id: u32| #[trigger]
                old(self)@.contains_key(id) ==> refreshed_raycast(
                    final(self)@[id],
                    old(self)@[id],
                    ray_intersections(collision_manager.owners(), hits_of(hits@, id)),
                ),
    {
        let ids = self.ids();
        let ghost owners = collision_manager.owners();
        let mut k: usize = 0;
        while k < ids.len()
            invariant
                k <= ids.len(),
                collision_manager.wf(),
                owners == collision_manager.owners(),
                visits_each_once(old(self)@, ids@),
                self.next_raycast_idx == old(self).next_raycast_idx,
                self@.dom() == old(self)@.dom(),
                forall|id: u32| #[trigger]
                    old(self)@.contains_key(id) ==> if ids@.take(k as int).contains(id) {
                        refreshed_raycast(
                            self@[id],
                            old(self)@[id],
                            ray_intersections(owners, hits_of(hits@, id)),
                        )
                    } else {
                        self@[id] == old(self)@[id]
                    },
            decreases ids.len() - k,
        {
            let id = ids[k];
            let ghost before = self@;
            proof {
                assert(ids@.to_set().contains(ids@[k as int]));
                assert(!ids@.take(k as int).contains(id)) by {
                    if ids@.take(k as int).contains(id) {
                        let j = choose|j: int| 0 <= j < k && ids@.take(k as int)[j] == id;
                        assert(ids@[j] == ids@[k as int]);
                    }
                }
                assert(ids@.take(k + 1) =~= ids@.take(k as int).push(id));
            }
            let found = match find_hits(hits, id) {
                Some(at) => collision_manager.intersect_ray(&hits[at].1),
                None => Vec::new(),
            };
            match self.raycasts.remove(&id) {
                Some(raycast) => {
                    let mut raycast = raycast;
                    raycast.intersections = found;
                    self.raycasts.insert(id, raycast);
                    proof {
                        assert(self@.dom() =~= before.dom());
                        assert forall|other: u32| #[trigger]
                            old(self)@.contains_key(other) implies if ids@.take(
                            k + 1,
                        ).contains(other) {
                            refreshed_raycast(
                                self@[other],
                                old(self)@[other],
                                ray_intersections(owners, hits_of(hits@, other)),
                            )
                        } else {
                            self@[other] == old(self)@[other]
                        } by {
                            if other != id {
                                assert(self@[other] == before[other]);
                                let shorter = ids@.take(k as int);
                                let longer = ids@.take(k + 1);
                                assert(longer =~= shorter.push(id));
                                if longer.contains(other) {
                                    let j = choose|j: int| 0 <= j < longer.len() && longer[j] == other;
                                    assert(shorter[j] == other);
                                }
                                if shorter.contains(other) {
                                    let j = choose|j: int|
                                        0 <= j < shorter.len() && shorter[j] == other;
                                    assert(longer[j] == other);
                                }
                            } else {
                                assert(ids@.take(k + 1)[k as int] == id);
                            }
                        }
                    }
                },
                None => {},
            }
            k = k + 1;
        }
        proof {
            assert(ids@.take(k as int) =~= ids@);
            assert forall|id: u32| #[trigger] old(self)@.contains_key(id) implies ids@.contains(
                id,
            ) by {
                assert(ids@.to_set().contains(id));
            }
        }
    }

    /// The events for what the raycasts currently hit: raycast after raycast,
    /// each raycast once, and for each of them one event per intersection, in
    /// the order of its intersections, addressed to the owner of the collider
    /// hit. In which order the raycasts are taken is not fixed.
    pub fn trigger_raycast_events(&self) -> (events: Vec<Event>)
        ensures
            exists|order: Seq<u32>| #[trigger]
                visits_each_once(self@, order) && events@ == raycast_events(self@, order),
    {
        let ids = self.ids();
        let events = self.events_in_order(&ids);
        proof {
            assert(visits_each_once(self@, ids@) && events@ == raycast_events(self@, ids@));
        }
        events
    }

    /// The events for what the raycasts named by `order` currently hit, in
    /// that order; an id without a raycast adds nothing.
    pub fn events_in_order(&self, order: &Vec<u32>) -> (events: Vec<Event>)
        ensures
            events@ == raycast_events(self@, order@),
    {
        let mut events: Vec<Event> = Vec::new();
        let mut k: usize = 0;
        while k < order.len()
            invariant
                k <= order.len(),
                events@ == raycast_events(self@, order@.take(k as int)),
            decreases order.len() - k,
        {
            let ghost done = events@;
            match self.raycasts.get(&order[k]) {
                Some(raycast) => {
                    let hits = &raycast.intersections;
                    let mut j: usize = 0;
                    while j < hits.len()
                        invariant
                            j <= hits.len(),
                            events@ == done + hit_events(hits@.take(j as int)),
                        decreases hits.len() - j,
                    {
                        let hit = hits[j];
                        events.push(
                            Event {
                                key: EventKey::RaycastIntersectEvent(hit.component),
                                data: EventData::RaycastIntersectEvent {
                                    component: hit.component,
                                    collider_idx: hit.collider_idx,
                                    intersect_loc: hit.loc,
                                },
                            },
                        );
                        proof {
                            assert(hits@.take(j + 1) =~= hits@.take(j as int).push(hit));
                            assert(hit_events(hits@.take(j + 1)) =~= hit_events(
                                hits@.take(j as int),
                            ).push(raycast_event(hit)));
                        }
                        j = j + 1;
                    }
                    proof {
                        assert(hits@.take(j as int) =~= hits@);
                    }
                },
                None => {
                    proof {
                        assert(events@ =~= done + Seq::<Event>::empty());
                    }
                },
            }
            proof {
                assert(order@.take(k + 1).drop_last() =~= order@.take(k as int));
                assert(order@.take(k + 1).last() == order@[k as int]);
            }
            k = k + 1;
        }
        proof {
            assert(order@.take(k as int) =~= order@);
        }
        events
    }
}

} // verus!
