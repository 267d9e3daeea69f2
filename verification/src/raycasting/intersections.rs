//! What a ray hits, given its successful tests against the colliders.

use vstd::prelude::*;
use crate::component_store::ComponentKey;
use crate::raycasting::ray::RayHit;
use crate::raycasting::raycast_manager::RayIntersect;

verus! {

/// A hit of a live collider as an intersection, with the collider's owner.
pub open spec fn intersection_of(owners: Map<u32, ComponentKey>, h: RayHit) -> RayIntersect {
    RayIntersect { component: owners[h.collider_idx], collider_idx: h.collider_idx, loc: h.loc }
}

/// Whether an intersection is that of some hit of a live collider.
pub open spec fn from_live_hit(
    owners: Map<u32, ComponentKey>,
    hits: Seq<RayHit>,
    x: RayIntersect,
) -> bool {
    exists|k: int|
        0 <= k < hits.len() && owners.contains_key((#[trigger] hits[k]).collider_idx) && x
            == intersection_of(owners, hits[k])
}

/// What a ray hits, given its successful tests in test order: each hit of a
/// live collider, with the collider's owner; hits of colliders that are not
/// live are left out.
pub open spec fn ray_intersections(owners: Map<u32, ComponentKey>, hits: Seq<RayHit>) -> Seq<
    RayIntersect,
>
    decreases hits.len(),
{
    if hits.len() == 0 {
        Seq::empty()
    } else {
        let earlier = ray_intersections(owners, hits.drop_last());
        let h = hits.last();
        if owners.contains_key(h.collider_idx) {
            earlier.push(intersection_of(owners, h))
        } else {
            earlier
        }
    }
}

/// How many of the hits are of live colliders.
pub open spec fn live_hits(owners: Map<u32, ComponentKey>, hits: Seq<RayHit>) -> nat
    decreases hits.len(),
{
    if hits.len() == 0 {
        0
    } else {
        live_hits(owners, hits.drop_last()) + if owners.contains_key(hits.last().collider_idx) {
            1nat
        } else {
            0nat
        }
    }
}

/// Every hit counts. A ray has as many intersections as it has hits of live
/// colliders; each such hit is among them, and each of them is such a hit.
/// None is dropped for being farther than another.
pub proof fn lemma_every_hit_is_returned(owners: Map<u32, ComponentKey>, hits: Seq<RayHit>)
    ensures
        ray_intersections(owners, hits).len() == live_hits(owners, hits),
        forall|k: int|
            0 <= k < hits.len() && owners.contains_key((#[trigger] hits[k]).collider_idx)
                ==> ray_intersections(owners, hits).contains(intersection_of(owners, hits[k])),
        forall|i: int|
            0 <= i < ray_intersections(owners, hits).len() ==> from_live_hit(
                owners,
                hits,
                #[trigger] ray_intersections(owners, hits)[i],
            ),
    decreases hits.len(),
{
    if hits.len() > 0 {
        let before = hits.drop_last();
        let h = hits.last();
        let found = ray_intersections(owners, before);
        let all = ray_intersections(owners, hits);
        lemma_every_hit_is_returned(owners, before);
        assert forall|k: int|
            0 <= k < hits.len() && owners.contains_key(
                (#[trigger] hits[k]).collider_idx,
            ) implies all.contains(intersection_of(owners, hits[k])) by {
            if k < before.len() {
                assert(before[k] == hits[k]);
                let target = intersection_of(owners, hits[k]);
                let at = choose|i: int| 0 <= i < found.len() && found[i] == target;
                assert(all[at] == target);
            } else {
                assert(all[all.len() - 1] == intersection_of(owners, h));
            }
        }
        assert forall|i: int| 0 <= i < all.len() implies from_live_hit(
            owners,
            hits,
            #[trigger] all[i],
        ) by {
            if i < found.len() {
                assert(all[i] == found[i]);
                assert(from_live_hit(owners, before, found[i]));
                let k = choose|k: int|
                    0 <= k < before.len() && owners.contains_key(
                        (#[trigger] before[k]).collider_idx,
                    ) && found[i] == intersection_of(owners, before[k]);
                assert(hits[k] == before[k]);
            } else {
                assert(hits[hits.len() - 1] == h);
            }
        }
    }
}

/// The successful tests of the raycast in slot `k`: the `k`-th list, or none
/// where the lists run out before.
pub open spec fn hits_for(hits: Seq<Vec<RayHit>>, k: int) -> Seq<RayHit> {
    if 0 <= k < hits.len() {
        hits[k]@
    } else {
        Seq::empty()
    }
}

} // verus!
