//! Laws of the detection pass, proved from its specification.

use vstd::prelude::*;
use crate::collisions::collider::Collision;
use crate::collisions::frame::{
    contact_events, contacts_events, detected, end_event, end_events, frame_collisions,
    frame_events, frame_pairs, lemma_detected_step, lemma_frame_pairs,
    lemma_frame_pairs_distinct, lemma_frame_pairs_member, lemma_publishable_symmetric,
    ongoing_event, pair_of, pairs_of, publishable, release_events, releases_events, start_event,
};
use crate::collisions::index_pair::{
    distinct_pairs, in_pairs, lemma_in_pairs_push, lemma_in_pairs_same, IndexPair,
};
use crate::component_store::ComponentKey;
use crate::events::{Event, EventData};

verus! {

/// The pair of colliders that a collision event is about.
pub open spec fn event_pair(e: Event) -> Option<IndexPair> {
    match e.data {
        EventData::CollisionOngoingEvent { collision, .. } => Some(pair_of(collision)),
        EventData::CollisionStartEvent { collision, .. } => Some(pair_of(collision)),
        EventData::CollisionEndEvent { collider_keys, .. } => Some(
            IndexPair(collider_keys.0, collider_keys.1),
        ),
        _ => None,
    }
}

/// Whether an event is about the two colliders of `p`, in either order.
pub open spec fn concerns(e: Event, p: IndexPair) -> bool {
    event_pair(e) matches Some(q) && q.same(p)
}

/// The events about the two colliders of `p`, in their order.
pub open spec fn events_about(events: Seq<Event>, p: IndexPair) -> Seq<Event> {
    events.filter(|e: Event| concerns(e, p))
}

/// Whether an event is about two live colliders of different entities and
/// names those entities as their owners.
pub open spec fn joins_two_entities(owners: Map<u32, ComponentKey>, e: Event) -> bool {
    match e.data {
        EventData::CollisionOngoingEvent { c1, c2, collision } => {
            &&& publishable(owners, pair_of(collision))
            &&& c1 == owners[collision.colliders.0]
            &&& c2 == owners[collision.colliders.1]
        },
        EventData::CollisionStartEvent { c1, c2, collision } => {
            &&& publishable(owners, pair_of(collision))
            &&& c1 == owners[collision.colliders.0]
            &&& c2 == owners[collision.colliders.1]
        },
        EventData::CollisionEndEvent { c1, c2, collider_keys } => {
            &&& publishable(owners, IndexPair(collider_keys.0, collider_keys.1))
            &&& c1 == owners[collider_keys.0]
            &&& c2 == owners[collider_keys.1]
        },
        _ => false,
    }
}

/// Every remembered pair whose two colliders are both live joins two
/// different entities. The manager keeps its remembered pairs so.
pub open spec fn live_pairs_publishable(owners: Map<u32, ComponentKey>, pairs: Seq<IndexPair>) -> bool {
    forall|k: int|
        0 <= k < pairs.len() ==> (owners.contains_key((#[trigger] pairs[k]).0)
            && owners.contains_key(pairs[k].1) ==> publishable(owners, pairs[k]))
}

/// The slot of `pairs` that holds the pair `p`, in either order.
pub open spec fn index_in(pairs: Seq<IndexPair>, p: IndexPair) -> int {
    choose|k: int| 0 <= k < pairs.len() && (#[trigger] pairs[k]).same(p)
}

/// The position of the first detection that joins the two colliders of `p`.
pub open spec fn first_index(detections: Seq<Collision>, p: IndexPair) -> int {
    choose|k: int|
        0 <= k < detections.len() && pair_of(#[trigger] detections[k]).same(p) && forall|j: int|
            0 <= j < k ==> !pair_of(#[trigger] detections[j]).same(p)
}

/// The first detection that joins the two colliders of `p`.
pub open spec fn first_detection(detections: Seq<Collision>, p: IndexPair) -> Collision {
    detections[first_index(detections, p)]
}

proof fn lemma_filter_all<A>(s: Seq<A>, pred: spec_fn(A) -> bool)
    requires
        forall|i: int| 0 <= i < s.len() ==> pred(#[trigger] s[i]),
    ensures
        s.filter(pred) == s,
    decreases s.len(),
{
    reveal(Seq::filter);
    if s.len() > 0 {
        lemma_filter_all(s.drop_last(), pred);
        assert(s.drop_last().push(s.last()) =~= s);
    } else {
        assert(s.filter(pred) =~= s);
    }
}

proof fn lemma_filter_none<A>(s: Seq<A>, pred: spec_fn(A) -> bool)
    requires
        forall|i: int| 0 <= i < s.len() ==> !pred(#[trigger] s[i]),
    ensures
        s.filter(pred) == Seq::<A>::empty(),
    decreases s.len(),
{
    reveal(Seq::filter);
    if s.len() > 0 {
        lemma_filter_none(s.drop_last(), pred);
    } else {
        assert(s.filter(pred) =~= Seq::<A>::empty());
    }
}

/// In a sequence without repeated pairs, a pair has one slot only.
proof fn lemma_index_in_unique(pairs: Seq<IndexPair>, p: IndexPair, k: int)
    requires
        distinct_pairs(pairs),
        0 <= k < pairs.len(),
        pairs[k].same(p),
    ensures
        in_pairs(pairs, p),
        index_in(pairs, p) == k,
{
    let i = index_in(pairs, p);
    assert(pairs[i].same(pairs[k]));
    if i < k {
        assert(!pairs[i].same(pairs[k]));
    }
    if k < i {
        assert(!pairs[k].same(pairs[i]));
    }
}

/// The events of one counted detection are all about its pair.
proof fn lemma_contact_events_about(
    owners: Map<u32, ComponentKey>,
    prev: Seq<IndexPair>,
    c: Collision,
    p: IndexPair,
)
    ensures
        events_about(contact_events(owners, prev, c), p) == if pair_of(c).same(p) {
            contact_events(owners, prev, c)
        } else {
            Seq::<Event>::empty()
        },
{
    let es = contact_events(owners, prev, c);
    let pred = |e: Event| concerns(e, p);
    assert forall|i: int| 0 <= i < es.len() implies pred(#[trigger] es[i]) == pair_of(c).same(
        p,
    ) by {}
    if pair_of(c).same(p) {
        lemma_filter_all(es, pred);
    } else {
        lemma_filter_none(es, pred);
    }
}

/// The end events of one remembered pair are all about that pair.
proof fn lemma_release_events_about(
    owners: Map<u32, ComponentKey>,
    next: Seq<IndexPair>,
    q: IndexPair,
    p: IndexPair,
)
    ensures
        events_about(release_events(owners, next, q), p) == if q.same(p) {
            release_events(owners, next, q)
        } else {
            Seq::<Event>::empty()
        },
{
    let es = release_events(owners, next, q);
    let pred = |e: Event| concerns(e, p);
    assert forall|i: int| 0 <= i < es.len() implies pred(#[trigger] es[i]) == q.same(p) by {}
    if q.same(p) {
        lemma_filter_all(es, pred);
    } else {
        lemma_filter_none(es, pred);
    }
}

/// Among the contact events of a frame, those about a pair are the events of
/// the one counted detection of that pair, or none where the pair was not
/// counted.
pub proof fn lemma_contacts_about(
    owners: Map<u32, ComponentKey>,
    prev: Seq<IndexPair>,
    kept: Seq<Collision>,
    p: IndexPair,
)
    requires
        distinct_pairs(pairs_of(kept)),
    ensures
        events_about(contacts_events(owners, prev, kept), p) == if in_pairs(pairs_of(kept), p) {
            contact_events(owners, prev, kept[index_in(pairs_of(kept), p)])
        } else {
            Seq::<Event>::empty()
        },
    decreases kept.len(),
{
    let pred = |e: Event| concerns(e, p);
    if kept.len() == 0 {
        assert(contacts_events(owners, prev, kept).filter(pred) =~= Seq::<Event>::empty()) by {
            reveal(Seq::filter);
        }
    } else {
        let before = kept.drop_last();
        let c = kept.last();
        let pairs = pairs_of(kept);
        assert(pairs_of(before) =~= pairs.drop_last());
        assert(distinct_pairs(pairs_of(before))) by {
            assert forall|i: int, j: int| 0 <= i < j < pairs_of(before).len() implies !(
            #[trigger] pairs_of(before)[i]).same(#[trigger] pairs_of(before)[j]) by {
                assert(pairs[i] == pairs_of(before)[i]);
                assert(pairs[j] == pairs_of(before)[j]);
            }
        }
        lemma_contacts_about(owners, prev, before, p);
        lemma_contact_events_about(owners, prev, c, p);
        Seq::filter_distributes_over_add(
            contacts_events(owners, prev, before),
            contact_events(owners, prev, c),
            pred,
        );
        assert(pairs =~= pairs_of(before).push(pair_of(c)));
        lemma_in_pairs_push(pairs_of(before), pair_of(c), p);
        if pair_of(c).same(p) {
            lemma_index_in_unique(pairs, p, kept.len() - 1);
            if in_pairs(pairs_of(before), p) {
                let k = index_in(pairs_of(before), p);
                assert(pairs[k].same(pairs[kept.len() - 1]));
            }
            assert(Seq::<Event>::empty() + contact_events(owners, prev, c) =~= contact_events(
                owners,
                prev,
                c,
            ));
        } else {
            if in_pairs(pairs_of(before), p) {
                let k = index_in(pairs_of(before), p);
                assert(pairs[k].same(p));
                lemma_index_in_unique(pairs, p, k);
                assert(kept[k] == before[k]);
            }
            assert(events_about(contacts_events(owners, prev, before), p) + Seq::<Event>::empty()
                =~= events_about(contacts_events(owners, prev, before), p));
        }
    }
}

/// Among the end events of a frame, those about a pair are the end events of
/// the one remembered slot of that pair, or none where it was not remembered.
pub proof fn lemma_releases_about(
    owners: Map<u32, ComponentKey>,
    prev: Seq<IndexPair>,
    next: Seq<IndexPair>,
    p: IndexPair,
)
    requires
        distinct_pairs(prev),
    ensures
        events_about(releases_events(owners, prev, next), p) == if in_pairs(prev, p) {
            release_events(owners, next, prev[index_in(prev, p)])
        } else {
            Seq::<Event>::empty()
        },
    decreases prev.len(),
{
    let pred = |e: Event| concerns(e, p);
    if prev.len() == 0 {
        assert(releases_events(owners, prev, next).filter(pred) =~= Seq::<Event>::empty()) by {
            reveal(Seq::filter);
        }
    } else {
        let before = prev.drop_last();
        let q = prev.last();
        assert(distinct_pairs(before)) by {
            assert forall|i: int, j: int| 0 <= i < j < before.len() implies !(
            #[trigger] before[i]).same(#[trigger] before[j]) by {
                assert(prev[i] == before[i]);
                assert(prev[j] == before[j]);
            }
        }
        lemma_releases_about(owners, before, next, p);
        lemma_release_events_about(owners, next, q, p);
        Seq::filter_distributes_over_add(
            releases_events(owners, before, next),
            release_events(owners, next, q),
            pred,
        );
        assert(prev =~= before.push(q));
        lemma_in_pairs_push(before, q, p);
        if q.same(p) {
            lemma_index_in_unique(prev, p, prev.len() - 1);
            if in_pairs(before, p) {
                let k = index_in(before, p);
                assert(prev[k].same(prev[prev.len() - 1]));
            }
            assert(Seq::<Event>::empty() + release_events(owners, next, q) =~= release_events(
                owners,
                next,
                q,
            ));
        } else {
            if in_pairs(before, p) {
                let k = index_in(before, p);
                assert(prev[k].same(p));
                lemma_index_in_unique(prev, p, k);
            }
            assert(events_about(releases_events(owners, before, next), p) + Seq::<Event>::empty()
                =~= events_about(releases_events(owners, before, next), p));
        }
    }
}

/// Where a pair is detected, one of its detections is the first.
pub proof fn lemma_first_index(detections: Seq<Collision>, p: IndexPair)
    requires
        detected(detections, p),
    ensures
        0 <= first_index(detections, p) < detections.len(),
        pair_of(first_detection(detections, p)).same(p),
        forall|j: int|
            0 <= j < first_index(detections, p) ==> !pair_of(#[trigger] detections[j]).same(p),
    decreases detections.len(),
{
    let before = detections.drop_last();
    lemma_detected_step(detections, p);
    if detected(before, p) {
        lemma_first_index(before, p);
        let k = first_index(before, p);
        assert(pair_of(detections[k]).same(p));
        assert forall|j: int| 0 <= j < k implies !pair_of(#[trigger] detections[j]).same(p) by {
            assert(detections[j] == before[j]);
        }
    } else {
        let k = detections.len() - 1;
        assert(pair_of(detections[k]).same(p));
        assert forall|j: int| 0 <= j < k implies !pair_of(#[trigger] detections[j]).same(p) by {
            assert(detections[j] == before[j]);
        }
    }
}

/// A position that holds a detection of the pair, with none of it earlier,
/// is the first.
proof fn lemma_first_index_is(detections: Seq<Collision>, p: IndexPair, k: int)
    requires
        0 <= k < detections.len(),
        pair_of(detections[k]).same(p),
        forall|j: int| 0 <= j < k ==> !pair_of(#[trigger] detections[j]).same(p),
    ensures
        first_index(detections, p) == k,
{
    lemma_first_index(detections, p);
    let f = first_index(detections, p);
    if f < k {
        assert(!pair_of(detections[f]).same(p));
    }
    if k < f {
        assert(!pair_of(detections[k]).same(p));
    }
}

/// The detection counted for a publishable pair is the first one made of it
/// in the frame.
pub proof fn lemma_counted_is_first(
    owners: Map<u32, ComponentKey>,
    detections: Seq<Collision>,
    p: IndexPair,
)
    requires
        publishable(owners, p),
        detected(detections, p),
    ensures
        in_pairs(frame_pairs(owners, detections), p),
        frame_collisions(owners, detections)[index_in(frame_pairs(owners, detections), p)]
            == first_detection(detections, p),
    decreases detections.len(),
{
    let before = detections.drop_last();
    let d = detections.last();
    let earlier = frame_collisions(owners, before);
    let kept = frame_collisions(owners, detections);
    let pairs = frame_pairs(owners, detections);
    lemma_frame_pairs(owners, detections);
    lemma_frame_pairs(owners, before);
    lemma_detected_step(detections, p);
    lemma_first_index(detections, p);
    let grows = publishable(owners, pair_of(d)) && !in_pairs(pairs_of(earlier), pair_of(d));
    if grows {
        assert(pairs =~= pairs_of(earlier).push(pair_of(d)));
    }
    if detected(before, p) {
        lemma_counted_is_first(owners, before, p);
        lemma_first_index(before, p);
        let i0 = index_in(pairs_of(earlier), p);
        let f = first_index(before, p);
        assert(pair_of(detections[f]).same(p));
        assert forall|j: int| 0 <= j < f implies !pair_of(#[trigger] detections[j]).same(p) by {
            assert(detections[j] == before[j]);
        }
        lemma_first_index_is(detections, p, f);
        assert(pairs[i0] == pairs_of(earlier)[i0]);
        lemma_index_in_unique(pairs, p, i0);
        assert(kept[i0] == earlier[i0]);
    } else {
        assert(pair_of(d).same(p));
        lemma_publishable_symmetric(owners, pair_of(d), p);
        lemma_in_pairs_same(pairs_of(earlier), pair_of(d), p);
        assert(grows);
        let k = detections.len() - 1;
        assert forall|j: int| 0 <= j < k implies !pair_of(#[trigger] detections[j]).same(p) by {
            if pair_of(detections[j]).same(p) {
                assert(pair_of(before[j]).same(p));
            }
        }
        lemma_first_index_is(detections, p, k);
        lemma_index_in_unique(pairs, p, kept.len() - 1);
    }
}

/// What a frame publishes about a publishable pair that it detects: the
/// contact events of the pair's first detection, and nothing else.
pub proof fn lemma_frame_about_detected(
    owners: Map<u32, ComponentKey>,
    prev: Seq<IndexPair>,
    detections: Seq<Collision>,
    p: IndexPair,
)
    requires
        distinct_pairs(prev),
        publishable(owners, p),
        detected(detections, p),
    ensures
        in_pairs(frame_pairs(owners, detections), p),
        events_about(frame_events(owners, prev, detections), p) == contact_events(
            owners,
            prev,
            first_detection(detections, p),
        ),
{
    let kept = frame_collisions(owners, detections);
    let next = frame_pairs(owners, detections);
    let contacts = contacts_events(owners, prev, kept);
    let releases = releases_events(owners, prev, next);
    let pred = |e: Event| concerns(e, p);
    lemma_frame_pairs_distinct(owners, detections);
    lemma_counted_is_first(owners, detections, p);
    assert(events_about(contacts, p) == contact_events(
        owners,
        prev,
        first_detection(detections, p),
    )) by {
        lemma_contacts_about(owners, prev, kept, p);
    }
    assert(events_about(releases, p) == Seq::<Event>::empty()) by {
        lemma_releases_about(owners, prev, next, p);
        if in_pairs(prev, p) {
            let q = prev[index_in(prev, p)];
            assert(q.same(p));
            lemma_in_pairs_same(next, q, p);
        }
    }
    assert(events_about(contacts + releases, p) == events_about(contacts, p) + events_about(
        releases,
        p,
    )) by {
        Seq::filter_distributes_over_add(contacts, releases, pred);
    }
    assert(events_about(contacts, p) + Seq::<Event>::empty() =~= events_about(contacts, p));
}

/// What a frame publishes about a publishable pair that it does not detect:
/// the end events of the slot under which the pair was remembered, or nothing
/// where it was not colliding before.
pub proof fn lemma_frame_about_undetected(
    owners: Map<u32, ComponentKey>,
    prev: Seq<IndexPair>,
    detections: Seq<Collision>,
    p: IndexPair,
)
    requires
        distinct_pairs(prev),
        publishable(owners, p),
        !detected(detections, p),
    ensures
        !in_pairs(frame_pairs(owners, detections), p),
        in_pairs(prev, p) ==> events_about(frame_events(owners, prev, detections), p)
            == end_events(owners, prev[index_in(prev, p)]),
        !in_pairs(prev, p) ==> events_about(frame_events(owners, prev, detections), p)
            == Seq::<Event>::empty(),
{
    let kept = frame_collisions(owners, detections);
    let next = frame_pairs(owners, detections);
    let contacts = contacts_events(owners, prev, kept);
    let releases = releases_events(owners, prev, next);
    let pred = |e: Event| concerns(e, p);
    lemma_frame_pairs_distinct(owners, detections);
    lemma_frame_pairs_member(owners, detections, p);
    assert(events_about(contacts, p) == Seq::<Event>::empty()) by {
        lemma_contacts_about(owners, prev, kept, p);
    }
    assert(events_about(releases, p) == if in_pairs(prev, p) {
        end_events(owners, prev[index_in(prev, p)])
    } else {
        Seq::<Event>::empty()
    }) by {
        lemma_releases_about(owners, prev, next, p);
        if in_pairs(prev, p) {
            let q = prev[index_in(prev, p)];
            assert(q.same(p));
            lemma_in_pairs_same(next, q, p);
            lemma_publishable_symmetric(owners, q, p);
        }
    }
    assert(events_about(contacts + releases, p) == events_about(contacts, p) + events_about(
        releases,
        p,
    )) by {
        Seq::filter_distributes_over_add(contacts, releases, pred);
    }
    assert(Seq::<Event>::empty() + events_about(releases, p) =~= events_about(releases, p));
}

/// Transition completeness. Take a pair of live colliders of different
/// entities that was not colliding, and three passes in a row over the same
/// colliders: the pair is detected in the first and in the second, and not in
/// the third. Then the first pass publishes about it a start event to each
/// owner and then an ongoing event to each, the second an ongoing event to
/// each owner and no start, and the third an end event to each owner; each
/// pass publishes nothing else about it.
pub proof fn lemma_transition_completeness(
    owners: Map<u32, ComponentKey>,
    prev: Seq<IndexPair>,
    first: Seq<Collision>,
    second: Seq<Collision>,
    third: Seq<Collision>,
    p: IndexPair,
)
    requires
        distinct_pairs(prev),
        publishable(owners, p),
        !in_pairs(prev, p),
        detected(first, p),
        detected(second, p),
        !detected(third, p),
    ensures
        ({
            let after_first = frame_pairs(owners, first);
            let after_second = frame_pairs(owners, second);
            let after_third = frame_pairs(owners, third);
            let d1 = first_detection(first, p);
            let d2 = first_detection(second, p);
            let a1 = owners[d1.colliders.0];
            let b1 = owners[d1.colliders.1];
            let a2 = owners[d2.colliders.0];
            let b2 = owners[d2.colliders.1];
            &&& events_about(frame_events(owners, prev, first), p) == seq![
                start_event(a1, a1, b1, d1),
                start_event(b1, a1, b1, d1),
                ongoing_event(a1, a1, b1, d1),
                ongoing_event(b1, a1, b1, d1),
            ]
            &&& events_about(frame_events(owners, after_first, second), p) == seq![
                ongoing_event(a2, a2, b2, d2),
                ongoing_event(b2, a2, b2, d2),
            ]
            &&& events_about(frame_events(owners, after_second, third), p) == seq![
                end_event(a2, a2, b2, d2.colliders),
                end_event(b2, a2, b2, d2.colliders),
            ]
            &&& in_pairs(after_first, p)
            &&& in_pairs(after_second, p)
            &&& !in_pairs(after_third, p)
        }),
{
    let after_first = frame_pairs(owners, first);
    let after_second = frame_pairs(owners, second);
    lemma_frame_pairs_distinct(owners, first);
    lemma_frame_pairs_distinct(owners, second);
    lemma_frame_about_detected(owners, prev, first, p);
    lemma_frame_about_detected(owners, after_first, second, p);
    lemma_frame_about_undetected(owners, after_second, third, p);
    lemma_first_index(first, p);
    lemma_first_index(second, p);
    let d1 = first_detection(first, p);
    let d2 = first_detection(second, p);
    lemma_in_pairs_same(prev, pair_of(d1), p);
    lemma_in_pairs_same(after_first, pair_of(d2), p);
    lemma_counted_is_first(owners, second, p);
    let slot = index_in(after_second, p);
    assert(after_second[slot] == pair_of(frame_collisions(owners, second)[slot]));
}

/// Self-entity exclusion. Every event of a frame is about two live colliders
/// of different entities, so no event is about two colliders that one entity
/// owns.
pub proof fn lemma_events_join_two_entities(
    owners: Map<u32, ComponentKey>,
    prev: Seq<IndexPair>,
    detections: Seq<Collision>,
)
    requires
        live_pairs_publishable(owners, prev),
    ensures
        forall|k: int|
            0 <= k < frame_events(owners, prev, detections).len() ==> joins_two_entities(
                owners,
                #[trigger] frame_events(owners, prev, detections)[k],
            ),
        forall|k: int, a: u32, b: u32|
            0 <= k < frame_events(owners, prev, detections).len() && owners.contains_key(a)
                && owners.contains_key(b) && owners[a] == owners[b] ==> !#[trigger] concerns(
                frame_events(owners, prev, detections)[k],
                IndexPair(a, b),
            ),
{
    let kept = frame_collisions(owners, detections);
    let next = frame_pairs(owners, detections);
    let events = frame_events(owners, prev, detections);
    lemma_frame_pairs(owners, detections);
    lemma_contacts_join(owners, prev, kept);
    lemma_releases_join(owners, prev, next);
    assert forall|k: int| 0 <= k < events.len() implies joins_two_entities(
        owners,
        #[trigger] events[k],
    ) by {
        let contacts = contacts_events(owners, prev, kept);
        if k < contacts.len() {
            assert(events[k] == contacts[k]);
        } else {
            assert(events[k] == releases_events(owners, prev, next)[k - contacts.len()]);
        }
    }
    assert forall|k: int, a: u32, b: u32|
        0 <= k < events.len() && owners.contains_key(a) && owners.contains_key(b) && owners[a]
            == owners[b] implies !#[trigger] concerns(events[k], IndexPair(a, b)) by {
        assert(joins_two_entities(owners, events[k]));
        if concerns(events[k], IndexPair(a, b)) {
            lemma_publishable_symmetric(owners, event_pair(events[k])->0, IndexPair(a, b));
        }
    }
}

proof fn lemma_contacts_join(
    owners: Map<u32, ComponentKey>,
    prev: Seq<IndexPair>,
    kept: Seq<Collision>,
)
    requires
        forall|k: int| 0 <= k < kept.len() ==> publishable(owners, pair_of(#[trigger] kept[k])),
    ensures
        forall|k: int|
            0 <= k < contacts_events(owners, prev, kept).len() ==> joins_two_entities(
                owners,
                #[trigger] contacts_events(owners, prev, kept)[k],
            ),
    decreases kept.len(),
{
    if kept.len() > 0 {
        let before = kept.drop_last();
        assert forall|k: int| 0 <= k < before.len() implies publishable(
            owners,
            pair_of(#[trigger] before[k]),
        ) by {
            assert(before[k] == kept[k]);
        }
        lemma_contacts_join(owners, prev, before);
        let head = contacts_events(owners, prev, before);
        let tail = contact_events(owners, prev, kept.last());
        assert(publishable(owners, pair_of(kept[kept.len() - 1])));
        assert forall|k: int| 0 <= k < (head + tail).len() implies joins_two_entities(
            owners,
            #[trigger] (head + tail)[k],
        ) by {
            if k < head.len() {
                assert((head + tail)[k] == head[k]);
            } else {
                assert((head + tail)[k] == tail[k - head.len()]);
            }
        }
    }
}

proof fn lemma_releases_join(
    owners: Map<u32, ComponentKey>,
    prev: Seq<IndexPair>,
    next: Seq<IndexPair>,
)
    requires
        live_pairs_publishable(owners, prev),
    ensures
        forall|k: int|
            0 <= k < releases_events(owners, prev, next).len() ==> joins_two_entities(
                owners,
                #[trigger] releases_events(owners, prev, next)[k],
            ),
    decreases prev.len(),
{
    if prev.len() > 0 {
        let before = prev.drop_last();
        assert forall|k: int|
            0 <= k < before.len() && owners.contains_key((#[trigger] before[k]).0)
                && owners.contains_key(before[k].1) implies publishable(owners, before[k]) by {
            assert(before[k] == prev[k]);
        }
        lemma_releases_join(owners, before, next);
        let head = releases_events(owners, before, next);
        let tail = release_events(owners, next, prev.last());
        let q = prev[prev.len() - 1];
        assert(owners.contains_key(q.0) && owners.contains_key(q.1) ==> publishable(owners, q));
        assert forall|k: int| 0 <= k < (head + tail).len() implies joins_two_entities(
            owners,
            #[trigger] (head + tail)[k],
        ) by {
            if k < head.len() {
                assert((head + tail)[k] == head[k]);
            } else {
                assert((head + tail)[k] == tail[k - head.len()]);
            }
        }
    }
}

/// Either direction suffices. A detection of a publishable pair, whichever of
/// the two colliders made it, puts the pair among the colliding pairs of the
/// frame, under either order of its indices.
pub proof fn lemma_either_direction_counts(
    owners: Map<u32, ComponentKey>,
    detections: Seq<Collision>,
    k: int,
)
    requires
        0 <= k < detections.len(),
        publishable(owners, pair_of(detections[k])),
    ensures
        in_pairs(frame_pairs(owners, detections), pair_of(detections[k])),
        in_pairs(
            frame_pairs(owners, detections),
            IndexPair(detections[k].colliders.1, detections[k].colliders.0),
        ),
{
    let p = pair_of(detections[k]);
    let q = IndexPair(detections[k].colliders.1, detections[k].colliders.0);
    lemma_frame_pairs(owners, detections);
    assert(pair_of(detections[k]).same(p));
    assert(detected(detections, p));
    lemma_in_pairs_same(frame_pairs(owners, detections), p, q);
}

} // verus!
