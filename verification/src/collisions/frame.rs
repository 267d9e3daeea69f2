//! What one detection pass reports: which detections count, which pairs are
//! then colliding, and which events go out.
//!
//! Everything here is specification. A frame is described by the owners of
//! the live colliders, the pairs that were colliding before it, and the
//! detections made in it, in detection order.

use vstd::prelude::*;
use crate::collisions::collider::Collision;
use crate::collisions::index_pair::{
    distinct_pairs, in_pairs, lemma_in_pairs_push, lemma_in_pairs_same, IndexPair,
};
use crate::component_store::ComponentKey;
use crate::events::{Event, EventData, EventKey};

verus! {

/// Whether a collision between the two colliders of `pair` is reported: both
/// are registered, and under different entities.
pub open spec fn publishable(owners: Map<u32, ComponentKey>, pair: IndexPair) -> bool {
    &&& owners.contains_key(pair.0)
    &&& owners.contains_key(pair.1)
    &&& owners[pair.0] != owners[pair.1]
}

/// The two colliders of a detection, as a pair.
pub open spec fn pair_of(c: Collision) -> IndexPair {
    IndexPair(c.colliders.0, c.colliders.1)
}

/// The pairs of a sequence of detections, in the same order.
pub open spec fn pairs_of(cs: Seq<Collision>) -> Seq<IndexPair> {
    cs.map_values(|c: Collision| pair_of(c))
}

/// Whether some detection joins the two colliders of `pair`, in either
/// direction.
pub open spec fn detected(detections: Seq<Collision>, pair: IndexPair) -> bool {
    exists|k: int| 0 <= k < detections.len() && pair_of(#[trigger] detections[k]).same(pair)
}

/// The detections of a frame that count: of each unordered pair the first
/// one made, provided the two colliders are live and belong to different
/// entities.
pub open spec fn frame_collisions(
    owners: Map<u32, ComponentKey>,
    detections: Seq<Collision>,
) -> Seq<Collision>
    decreases detections.len(),
{
    if detections.len() == 0 {
        Seq::empty()
    } else {
        let earlier = frame_collisions(owners, detections.drop_last());
        let d = detections.last();
        if publishable(owners, pair_of(d)) && !in_pairs(pairs_of(earlier), pair_of(d)) {
            earlier.push(d)
        } else {
            earlier
        }
    }
}

/// The event telling entity `to` that `c1` and `c2` are in contact.
pub open spec fn ongoing_event(
    to: ComponentKey,
    c1: ComponentKey,
    c2: ComponentKey,
    collision: Collision,
) -> Event {
    Event {
        key: EventKey::CollisionOngoingEvent(to),
        data: EventData::CollisionOngoingEvent { c1, c2, collision },
    }
}

/// The event telling entity `to` that `c1` and `c2` have come into contact.
pub open spec fn start_event(
    to: ComponentKey,
    c1: ComponentKey,
    c2: ComponentKey,
    collision: Collision,
) -> Event {
    Event {
        key: EventKey::CollisionStartEvent(to),
        data: EventData::CollisionStartEvent { c1, c2, collision },
    }
}

/// The event telling entity `to` that `c1` and `c2` no longer touch.
pub open spec fn end_event(
    to: ComponentKey,
    c1: ComponentKey,
    c2: ComponentKey,
    collider_keys: (u32, u32),
) -> Event {
    Event {
        key: EventKey::CollisionEndEvent(to),
        data: EventData::CollisionEndEvent { c1, c2, collider_keys },
    }
}

/// The events for one counted detection: where the pair was not colliding
/// before, first a start event to each of the two owners; then, in every case,
/// an ongoing event to each.
pub open spec fn contact_events(
    owners: Map<u32, ComponentKey>,
    prev: Seq<IndexPair>,
    c: Collision,
) -> Seq<Event> {
    let c1 = owners[c.colliders.0];
    let c2 = owners[c.colliders.1];
    if in_pairs(prev, pair_of(c)) {
        seq![ongoing_event(c1, c1, c2, c), ongoing_event(c2, c1, c2, c)]
    } else {
        seq![
            start_event(c1, c1, c2, c),
            start_event(c2, c1, c2, c),
            ongoing_event(c1, c1, c2, c),
            ongoing_event(c2, c1, c2, c),
        ]
    }
}

/// The events for all counted detections, in detection order.
pub open spec fn contacts_events(
    owners: Map<u32, ComponentKey>,
    prev: Seq<IndexPair>,
    kept: Seq<Collision>,
) -> Seq<Event>
    decreases kept.len(),
{
    if kept.len() == 0 {
        Seq::empty()
    } else {
        contacts_events(owners, prev, kept.drop_last()) + contact_events(owners, prev, kept.last())
    }
}

/// An end event to each of the two owners of the pair `p`.
pub open spec fn end_events(owners: Map<u32, ComponentKey>, p: IndexPair) -> Seq<Event> {
    let c1 = owners[p.0];
    let c2 = owners[p.1];
    seq![end_event(c1, c1, c2, (p.0, p.1)), end_event(c2, c1, c2, (p.0, p.1))]
}

/// The events for one pair that was colliding before: an end event to each
/// of the two owners where the pair is colliding no more and both colliders
/// are still live, else nothing.
pub open spec fn release_events(
    owners: Map<u32, ComponentKey>,
    next: Seq<IndexPair>,
    p: IndexPair,
) -> Seq<Event> {
    if !in_pairs(next, p) && owners.contains_key(p.0) && owners.contains_key(p.1) {
        end_events(owners, p)
    } else {
        Seq::empty()
    }
}

/// The end events for all pairs that were colliding before, in their order.
pub open spec fn releases_events(
    owners: Map<u32, ComponentKey>,
    prev: Seq<IndexPair>,
    next: Seq<IndexPair>,
) -> Seq<Event>
    decreases prev.len(),
{
    if prev.len() == 0 {
        Seq::empty()
    } else {
        releases_events(owners, prev.drop_last(), next) + release_events(owners, next, prev.last())
    }
}

/// The pairs that are colliding after the frame.
pub open spec fn frame_pairs(owners: Map<u32, ComponentKey>, detections: Seq<Collision>) -> Seq<
    IndexPair,
> {
    pairs_of(frame_collisions(owners, detections))
}

/// Everything a frame publishes: first the contact events, then the end
/// events.
pub open spec fn frame_events(
    owners: Map<u32, ComponentKey>,
    prev: Seq<IndexPair>,
    detections: Seq<Collision>,
) -> Seq<Event> {
    contacts_events(owners, prev, frame_collisions(owners, detections)) + releases_events(
        owners,
        prev,
        frame_pairs(owners, detections),
    )
}

/// Whether a pair is publishable does not depend on the order of its two
/// indices.
pub proof fn lemma_publishable_symmetric(owners: Map<u32, ComponentKey>, p: IndexPair, q: IndexPair)
    requires
        p.same(q),
    ensures
        publishable(owners, p) == publishable(owners, q),
{
}

/// The pairs colliding after a frame are exactly the publishable pairs that
/// were detected in it, in one direction or the other; none occurs twice; and
/// each counted detection is one of the frame's detections.
pub proof fn lemma_frame_pairs(owners: Map<u32, ComponentKey>, detections: Seq<Collision>)
    ensures
        distinct_pairs(frame_pairs(owners, detections)),
        forall|p: IndexPair|
            in_pairs(frame_pairs(owners, detections), p) <==> (publishable(owners, p) && detected(
                detections,
                p,
            )),
        forall|k: int|
            0 <= k < frame_collisions(owners, detections).len() ==> {
                &&& detections.contains(#[trigger] frame_collisions(owners, detections)[k])
                &&& publishable(owners, pair_of(frame_collisions(owners, detections)[k]))
            },
    decreases detections.len(),
{
    let kept = frame_collisions(owners, detections);
    let pairs = frame_pairs(owners, detections);
    if detections.len() == 0 {
        assert forall|p: IndexPair| !in_pairs(pairs, p) by {}
        assert forall|p: IndexPair| !detected(detections, p) by {}
    } else {
        let before = detections.drop_last();
        let earlier = frame_collisions(owners, before);
        let d = detections.last();
        lemma_frame_pairs(owners, before);
        let grows = publishable(owners, pair_of(d)) && !in_pairs(pairs_of(earlier), pair_of(d));
        if grows {
            assert(pairs =~= pairs_of(earlier).push(pair_of(d)));
        } else {
            assert(pairs == pairs_of(earlier));
        }
        assert(distinct_pairs(pairs)) by {
            if grows {
                assert forall|i: int, j: int| 0 <= i < j < pairs.len() implies !(
                #[trigger] pairs[i]).same(#[trigger] pairs[j]) by {
                    if j == pairs.len() - 1 {
                        if pairs[i].same(pairs[j]) {
                            assert(pairs_of(earlier)[i].same(pair_of(d)));
                        }
                    } else {
                        assert(pairs_of(earlier)[i] == pairs[i]);
                        assert(pairs_of(earlier)[j] == pairs[j]);
                    }
                }
            }
        }
        assert forall|p: IndexPair|
            in_pairs(pairs, p) <==> (publishable(owners, p) && detected(detections, p)) by {
            lemma_detected_step(detections, p);
            if grows {
                lemma_in_pairs_push(pairs_of(earlier), pair_of(d), p);
            }
            if pair_of(d).same(p) {
                lemma_publishable_symmetric(owners, pair_of(d), p);
                lemma_in_pairs_same(pairs_of(earlier), pair_of(d), p);
            }
        }
        assert forall|k: int| 0 <= k < kept.len() implies {
            &&& detections.contains(#[trigger] kept[k])
            &&& publishable(owners, pair_of(kept[k]))
        } by {
            if grows && k == kept.len() - 1 {
                assert(detections[detections.len() - 1] == kept[k]);
            } else {
                assert(kept[k] == earlier[k]);
                assert(before.contains(earlier[k]));
                let i = choose|i: int| 0 <= i < before.len() && before[i] == earlier[k];
                assert(detections[i] == kept[k]);
            }
        }
    }
}

/// The pairs colliding after a frame hold no pair twice.
pub proof fn lemma_frame_pairs_distinct(owners: Map<u32, ComponentKey>, detections: Seq<Collision>)
    ensures
        distinct_pairs(frame_pairs(owners, detections)),
{
    lemma_frame_pairs(owners, detections);
}

/// A pair is colliding after a frame exactly when it is publishable and was
/// detected in the frame.
pub proof fn lemma_frame_pairs_member(
    owners: Map<u32, ComponentKey>,
    detections: Seq<Collision>,
    p: IndexPair,
)
    ensures
        in_pairs(frame_pairs(owners, detections), p) <==> (publishable(owners, p) && detected(
            detections,
            p,
        )),
{
    lemma_frame_pairs(owners, detections);
}

/// A pair is detected in a sequence of detections exactly when it is detected
/// in all but the last of them, or by the last.
pub proof fn lemma_detected_step(detections: Seq<Collision>, p: IndexPair)
    requires
        detections.len() > 0,
    ensures
        detected(detections, p) <==> (detected(detections.drop_last(), p) || pair_of(
            detections.last(),
        ).same(p)),
{
    let before = detections.drop_last();
    if detected(detections, p) {
        let k = choose|k: int|
            0 <= k < detections.len() && pair_of(#[trigger] detections[k]).same(p);
        if k < detections.len() - 1 {
            assert(pair_of(before[k]).same(p));
        }
    }
    if detected(before, p) {
        let k = choose|k: int| 0 <= k < before.len() && pair_of(#[trigger] before[k]).same(p);
        assert(pair_of(detections[k]).same(p));
    }
    if pair_of(detections.last()).same(p) {
        assert(pair_of(detections[detections.len() - 1]).same(p));
    }
}

} // verus!
