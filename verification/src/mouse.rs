//! The pointer picker: which collider the pointer's ray hits first, and the
//! hover and select events that follow from it frame by frame.

use vstd::prelude::*;
use crate::collisions::collision_manager::CollisionManager;
use crate::component_store::ComponentKey;
use crate::events::{Event, EventData, EventKey};
use crate::raycasting::intersections::{intersection_of, ray_intersections};
use crate::raycasting::ray::{Ray, RayHit};
use crate::raycasting::raycast_manager::RayIntersect;

verus! {

/// Whether distance `a` is known to be greater than distance `b`. A distance
/// that is not a number is neither greater nor smaller than any other.
pub open spec fn farther(a: Option<u32>, b: Option<u32>) -> bool {
    a is Some && b is Some && a->0 > b->0
}

/// The hit that the pointer picks among a ray's successful tests, given in
/// test order: of the hits of live colliders the nearest, and of several
/// equally near the one tested last. A hit replaces the best so far unless
/// it is known to be farther.
pub open spec fn closest_hit(owners: Map<u32, ComponentKey>, hits: Seq<RayHit>) -> Option<RayHit>
    decreases hits.len(),
{
    if hits.len() == 0 {
        None
    } else {
        let best = closest_hit(owners, hits.drop_last());
        let h = hits.last();
        if !owners.contains_key(h.collider_idx) {
            best
        } else {
            match best {
                None => Some(h),
                Some(b) => if farther(h.distance, b.distance) {
                    Some(b)
                } else {
                    Some(h)
                },
            }
        }
    }
}

/// The intersection that the pointer picks: see [`closest_hit`].
pub open spec fn closest_intersect(owners: Map<u32, ComponentKey>, hits: Seq<RayHit>) -> Option<
    RayIntersect,
> {
    match closest_hit(owners, hits) {
        Some(h) => Some(intersection_of(owners, h)),
        None => None,
    }
}

pub open spec fn hover_start_event(hit: RayIntersect) -> Event {
    Event {
        key: EventKey::MouseHoverStartEvent(hit.component),
        data: EventData::MouseHoverStartEvent {
            component: hit.component,
            collider_idx: hit.collider_idx,
            intersect_loc: hit.loc,
        },
    }
}

pub open spec fn hovering_event(hit: RayIntersect) -> Event {
    Event {
        key: EventKey::MouseHoveringEvent(hit.component),
        data: EventData::MouseHoveringEvent {
            component: hit.component,
            collider_idx: hit.collider_idx,
            intersect_loc: hit.loc,
        },
    }
}

pub open spec fn hover_end_event(hit: RayIntersect) -> Event {
    Event {
        key: EventKey::MouseHoverEndEvent(hit.component),
        data: EventData::MouseHoverEndEvent {
            component: hit.component,
            collider_idx: hit.collider_idx,
        },
    }
}

pub open spec fn select_event(hit: RayIntersect) -> Event {
    Event {
        key: EventKey::MouseSelectEvent(hit.component),
        data: EventData::MouseSelectEvent {
            component: hit.component,
            collider_idx: hit.collider_idx,
            intersect_loc: hit.loc,
        },
    }
}

/// Whether the pointer has moved to another collider: something was picked
/// before, and what is picked now is a different collider.
pub open spec fn moved_on(last: Option<RayIntersect>, hit: RayIntersect) -> bool {
    last is Some && last->0.collider_idx != hit.collider_idx
}

/// The events of one frame, from whether the button is held, what was picked
/// in the frame before and what is picked now.
///
/// With the button held, what is picked is selected, and what was picked
/// before, if it is another collider, stops being hovered. With the button up,
/// what is picked is hovered; where it was not picked before, its hover starts
/// first and the hover of what was picked before ends. Where nothing is picked,
/// the hover of what was picked before ends.
pub open spec fn mouse_events(
    pressed: bool,
    last: Option<RayIntersect>,
    closest: Option<RayIntersect>,
) -> Seq<Event> {
    match closest {
        Some(hit) => {
            if pressed {
                if moved_on(last, hit) {
                    seq![select_event(hit), hover_end_event(last->0)]
                } else {
                    seq![select_event(hit)]
                }
            } else {
                if last is None {
                    seq![hover_start_event(hit), hovering_event(hit)]
                } else if moved_on(last, hit) {
                    seq![hover_start_event(hit), hover_end_event(last->0), hovering_event(hit)]
                } else {
                    seq![hovering_event(hit)]
                }
            }
        },
        None => match last {
            Some(l) => seq![hover_end_event(l)],
            None => Seq::empty(),
        },
    }
}

/// The pointer: its ray, whether its button is held, and what it picked in
/// this frame and in the one before.
#[derive(Clone, Copy, Debug, PartialEq)]
pub struct Mouse {
    /// The ray under the cursor, or `None` while the cursor is outside the
    /// viewport.
    pub ray: Option<Ray>,
    /// How far the ray reaches, encoded.
    pub max_dist: u32,
    /// Whether the button is held.
    pub pressed: bool,
    /// What was picked one refresh earlier.
    pub last_intersect: Option<RayIntersect>,
    /// What was picked at the latest refresh.
    pub closest_intersect: Option<RayIntersect>,
}

impl Mouse {
    /// A pointer without a ray, with the button up and nothing picked.
    pub fn new(max_raycast_dist: u32) -> (m: Mouse)
        ensures
            m == (Mouse {
                ray: None,
                max_dist: max_raycast_dist,
                pressed: false,
                last_intersect: None,
                closest_intersect: None,
            }),
    {
        Mouse {
            ray: None,
            pressed: false,
            max_dist: max_raycast_dist,
            last_intersect: None,
            closest_intersect: None,
        }
    }

    /// Takes the frame's input: the ray under the cursor, or `None` where the
    /// cursor has left the viewport, and whether the button is held. What was
    /// picked stays as it is.
    pub fn update_mouse_state(&mut self, ray: Option<Ray>, pressed: bool)
        ensures
            *final(self) == (Mouse { ray, pressed, ..*old(self) }),
    {
        self.ray = ray;
        self.pressed = pressed;
    }

    /// Refreshes what the pointer picks from the successful tests of its ray
    /// against the colliders, given in test order: the pick of the frame
    /// before is remembered and the new pick is the nearest hit of a live
    /// collider. Without a ray nothing changes.
    pub fn intersect_colliders<S>(
        &mut self,
        collision_manager: &CollisionManager<S>,
        hits: &Vec<RayHit>,
    )
        requires
            collision_manager.wf(),
        ensures
            final(self).ray == old(self).ray,
            final(self).max_dist == old(self).max_dist,
            final(self).pressed == old(self).pressed,
            old(self).ray is Some ==> {
                &&& final(self).last_intersect == old(self).closest_intersect
                &&& final(self).closest_intersect == closest_intersect(
                    collision_manager.owners(),
                    hits@,
                )
            },
            old(self).ray is None ==> *final(self) == *old(self),
    {
        if self.ray.is_some() {
            let next_intersect = pick_closest(collision_manager, hits);
            self.last_intersect = self.closest_intersect;
            self.closest_intersect = next_intersect;
        }
    }

    /// The events of this frame: see [`mouse_events`].
    pub fn trigger_mouse_events(&self) -> (events: Vec<Event>)
        ensures
            events@ == mouse_events(self.pressed, self.last_intersect, self.closest_intersect),
    {
        let mut events: Vec<Event> = Vec::new();
        match self.closest_intersect {
            Some(intersect) => {
                if self.pressed {
                    events.push(
                        Event {
                            key: EventKey::MouseSelectEvent(intersect.component),
                            data: EventData::MouseSelectEvent {
                                component: intersect.component,
                                collider_idx: intersect.collider_idx,
                                intersect_loc: intersect.loc,
                            },
                        },
                    );
                    match self.last_intersect {
                        Some(last) => {
                            if last.collider_idx != intersect.collider_idx {
                                events.push(
                                    Event {
                                        key: EventKey::MouseHoverEndEvent(last.component),
                                        data: EventData::MouseHoverEndEvent {
                                            component: last.component,
                                            collider_idx: last.collider_idx,
                                        },
                                    },
                                );
                            }
                        },
                        None => {},
                    }
                } else {
                    let fresh = match self.last_intersect {
                        Some(last) => last.collider_idx != intersect.collider_idx,
                        None => true,
                    };
                    if fresh {
                        events.push(
                            Event {
                                key: EventKey::MouseHoverStartEvent(intersect.component),
                                data: EventData::MouseHoverStartEvent {
                                    component: intersect.component,
                                    collider_idx: intersect.collider_idx,
                                    intersect_loc: intersect.loc,
                                },
                            },
                        );
                        match self.last_intersect {
                            Some(last) => {
                                events.push(
                                    Event {
                                        key: EventKey::MouseHoverEndEvent(last.component),
                                        data: EventData::MouseHoverEndEvent {
                                            component: last.component,
                                            collider_idx: last.collider_idx,
                                        },
                                    },
                                );
                            },
                            None => {},
                        }
                    }
                    events.push(
                        Event {
                            key: EventKey::MouseHoveringEvent(intersect.component),
                            data: EventData::MouseHoveringEvent {
                                component: intersect.component,
                                collider_idx: intersect.collider_idx,
                                intersect_loc: intersect.loc,
                            },
                        },
                    );
                }
            },
            None => {
                match self.last_intersect {
                    Some(last) => {
                        events.push(
                            Event {
                                key: EventKey::MouseHoverEndEvent(last.component),
                                data: EventData::MouseHoverEndEvent {
                                    component: last.component,
                                    collider_idx: last.collider_idx,
                                },
                            },
                        );
                    },
                    None => {},
                }
            },
        }
        proof {
            assert(events@ =~= mouse_events(
                self.pressed,
                self.last_intersect,
                self.closest_intersect,
            ));
        }
        events
    }
}

/// Whether distance `a` is known to be greater than distance `b`.
pub fn is_farther(a: Option<u32>, b: Option<u32>) -> (r: bool)
    ensures
        r == farther(a, b),
{
    match (a, b) {
        (Some(x), Some(y)) => x > y,
        _ => false,
    }
}

/// The intersection that the pointer picks among a ray's successful tests:
/// see [`closest_hit`].
pub fn pick_closest<S>(collision_manager: &CollisionManager<S>, hits: &Vec<RayHit>) -> (r: Option<
    RayIntersect,
>)
    requires
        collision_manager.wf(),
    ensures
        r == closest_intersect(collision_manager.owners(), hits@),
{
    let ghost owners = collision_manager.owners();
    let mut best: Option<RayHit> = None;
    let mut owner: Option<ComponentKey> = None;
    let mut k: usize = 0;
    while k < hits.len()
        invariant
            k <= hits.len(),
            collision_manager.wf(),
            owners == collision_manager.owners(),
            best == closest_hit(owners, hits@.take(k as int)),
            best is Some ==> owner == Some(owners[best->0.collider_idx]),
        decreases hits.len() - k,
    {
        let hit = hits[k];
        proof {
            assert(hits@.take(k + 1).drop_last() =~= hits@.take(k as int));
            assert(hits@.take(k + 1).last() == hit);
        }
        match collision_manager.get_component(hit.collider_idx) {
            Some(component) => {
                let replace = match best {
                    Some(b) => !is_farther(hit.distance, b.distance),
                    None => true,
                };
                if replace {
                    best = Some(hit);
                    owner = Some(component);
                }
            },
            None => {},
        }
        k = k + 1;
    }
    proof {
        assert(hits@.take(k as int) =~= hits@);
    }
    match (best, owner) {
        (Some(h), Some(component)) => Some(
            RayIntersect { component, collider_idx: h.collider_idx, loc: h.loc },
        ),
        _ => None,
    }
}

/// Whether a hit is of a live collider.
pub open spec fn live_hit(owners: Map<u32, ComponentKey>, h: RayHit) -> bool {
    owners.contains_key(h.collider_idx)
}

/// Whether every hit of a live collider has a distance that is a number.
pub open spec fn all_ranked(owners: Map<u32, ComponentKey>, hits: Seq<RayHit>) -> bool {
    forall|j: int|
        0 <= j < hits.len() && live_hit(owners, #[trigger] hits[j]) ==> hits[j].distance is Some
}

/// The position of the pick among the hits, or `-1` where nothing is picked.
pub open spec fn closest_index(owners: Map<u32, ComponentKey>, hits: Seq<RayHit>) -> int
    decreases hits.len(),
{
    if hits.len() == 0 {
        -1
    } else {
        let prior = closest_index(owners, hits.drop_last());
        let h = hits.last();
        if !live_hit(owners, h) {
            prior
        } else if prior < 0 {
            hits.len() - 1
        } else if farther(h.distance, hits[prior].distance) {
            prior
        } else {
            hits.len() - 1
        }
    }
}

/// The pick is the hit at [`closest_index`], a hit of a live collider, and
/// nothing is picked exactly when no live collider was hit, which is when the
/// ray has no intersections.
pub proof fn lemma_closest_index(owners: Map<u32, ComponentKey>, hits: Seq<RayHit>)
    ensures
        -1 <= closest_index(owners, hits) < hits.len(),
        closest_index(owners, hits) >= 0 ==> {
            &&& live_hit(owners, hits[closest_index(owners, hits)])
            &&& closest_hit(owners, hits) == Some(hits[closest_index(owners, hits)])
            &&& ray_intersections(owners, hits).contains(
                intersection_of(owners, hits[closest_index(owners, hits)]),
            )
        },
        closest_index(owners, hits) < 0 ==> {
            &&& closest_hit(owners, hits) is None
            &&& ray_intersections(owners, hits).len() == 0
            &&& forall|j: int| 0 <= j < hits.len() ==> !live_hit(owners, #[trigger] hits[j])
        },
    decreases hits.len(),
{
    if hits.len() > 0 {
        let before = hits.drop_last();
        let h = hits.last();
        lemma_closest_index(owners, before);
        let prior = closest_index(owners, before);
        let found = ray_intersections(owners, before);
        if prior >= 0 {
            assert(before[prior] == hits[prior]);
            let target = intersection_of(owners, hits[prior]);
            let at = choose|i: int| 0 <= i < found.len() && found[i] == target;
            if live_hit(owners, h) {
                assert(found.push(intersection_of(owners, h))[at] == target);
            }
        } else {
            assert forall|j: int| 0 <= j < hits.len() - 1 implies !live_hit(
                owners,
                #[trigger] hits[j],
            ) by {
                assert(before[j] == hits[j]);
            }
        }
        if live_hit(owners, h) {
            let all = found.push(intersection_of(owners, h));
            assert(all[found.len() as int] == intersection_of(owners, h));
        }
    }
}

/// Where every hit of a live collider has a distance that is a number, no
/// hit of a live collider is nearer than the pick, and every one tested after
/// the pick is farther: of several nearest hits the last tested is picked.
/// This is the hit that sorting the hits by descending distance, equal ones
/// kept in test order, leaves at the end.
pub proof fn lemma_closest_is_nearest(owners: Map<u32, ComponentKey>, hits: Seq<RayHit>)
    requires
        all_ranked(owners, hits),
    ensures
        forall|j: int|
            0 <= j < hits.len() && live_hit(owners, #[trigger] hits[j]) ==> hits[j].distance->0
                >= hits[closest_index(owners, hits)].distance->0,
        forall|j: int|
            closest_index(owners, hits) < j < hits.len() && live_hit(owners, #[trigger] hits[j])
                ==> hits[j].distance->0 > hits[closest_index(owners, hits)].distance->0,
    decreases hits.len(),
{
    if hits.len() > 0 {
        let before = hits.drop_last();
        let h = hits.last();
        assert(all_ranked(owners, before)) by {
            assert forall|j: int|
                0 <= j < before.len() && live_hit(owners, #[trigger] before[j]) implies before[j].distance is Some by {
                assert(before[j] == hits[j]);
            }
        }
        lemma_closest_is_nearest(owners, before);
        lemma_closest_index(owners, before);
        lemma_closest_index(owners, hits);
        let prior = closest_index(owners, before);
        let pick = closest_index(owners, hits);
        if prior >= 0 {
            assert(before[prior] == hits[prior]);
        }
        assert forall|j: int| 0 <= j < hits.len() && live_hit(owners, #[trigger] hits[j]) implies hits[j].distance->0
            >= hits[pick].distance->0 by {
            if j < before.len() {
                assert(before[j] == hits[j]);
            }
        }
        assert forall|j: int| pick < j < hits.len() && live_hit(owners, #[trigger] hits[j]) implies hits[j].distance->0
            > hits[pick].distance->0 by {
            if j < before.len() {
                assert(before[j] == hits[j]);
            }
        }
    }
}

/// A hover from its start to its end. With the button up throughout: where
/// nothing was picked and collider `a` is picked in two frames running and
/// nothing in the third, the first frame starts the hover and reports it, the
/// second only reports it, and the third ends it.
pub proof fn lemma_hover_run(a: RayIntersect, b: RayIntersect)
    requires
        a.collider_idx == b.collider_idx,
    ensures
        mouse_events(false, None, Some(a)) == seq![hover_start_event(a), hovering_event(a)],
        mouse_events(false, Some(a), Some(b)) == seq![hovering_event(b)],
        mouse_events(false, Some(b), None) == seq![hover_end_event(b)],
        mouse_events(false, None, None) == Seq::<Event>::empty(),
{
}

/// When each pointer event fires. A select event fires exactly while the
/// button is held over a pick; a hovering event exactly while it is up over
/// a pick; a hover-start event exactly when the button is up and the pick is
/// new; a hover-end event exactly when what was picked before is no longer
/// what is picked.
pub proof fn lemma_mouse_event_conditions(
    pressed: bool,
    last: Option<RayIntersect>,
    closest: Option<RayIntersect>,
)
    ensures
        closest matches Some(hit) ==> {
            &&& mouse_events(pressed, last, closest).contains(select_event(hit)) <==> pressed
            &&& mouse_events(pressed, last, closest).contains(hovering_event(hit)) <==> !pressed
            &&& mouse_events(pressed, last, closest).contains(hover_start_event(hit)) <==> (
            !pressed && (last is None || moved_on(last, hit)))
        },
        last matches Some(l) ==> (mouse_events(pressed, last, closest).contains(hover_end_event(l))
            <==> (closest is None || moved_on(last, closest->0))),
        closest is None && last is None ==> mouse_events(pressed, last, closest).len() == 0,
{
    let events = mouse_events(pressed, last, closest);
    match closest {
        Some(hit) => {
            if pressed {
                assert(events[0] == select_event(hit));
                if moved_on(last, hit) {
                    assert(events[1] == hover_end_event(last->0));
                }
            } else {
                if last is None {
                    assert(events[0] == hover_start_event(hit));
                    assert(events[1] == hovering_event(hit));
                } else if moved_on(last, hit) {
                    assert(events[0] == hover_start_event(hit));
                    assert(events[1] == hover_end_event(last->0));
                    assert(events[2] == hovering_event(hit));
                } else {
                    assert(events[0] == hovering_event(hit));
                }
            }
        },
        None => {
            match last {
                Some(l) => {
                    assert(events[0] == hover_end_event(l));
                },
                None => {},
            }
        },
    }
}

} // verus!
