//! The arena of live colliders as a sequence: who owns which index, and what
//! selecting colliders from it leaves.

use vstd::prelude::*;
use crate::collisions::collider::Collider;
use crate::component_store::ComponentKey;

verus! {

/// Whether some collider of the arena has this index.
pub open spec fn registered<S>(arena: Seq<Collider<S>>, index: u32) -> bool {
    exists|k: int| 0 <= k < arena.len() && (#[trigger] arena[k]).index == index
}

/// A slot of the arena that holds the collider with this index.
pub open spec fn slot_of<S>(arena: Seq<Collider<S>>, index: u32) -> int {
    choose|k: int| 0 <= k < arena.len() && (#[trigger] arena[k]).index == index
}

/// Which entity owns each registered collider index.
pub open spec fn owners_of<S>(arena: Seq<Collider<S>>) -> Map<u32, ComponentKey> {
    Map::new(|i: u32| registered(arena, i), |i: u32| arena[slot_of(arena, i)].parent)
}

/// Indices grow strictly along the arena, so no index occurs twice.
pub open spec fn ascending<S>(arena: Seq<Collider<S>>) -> bool {
    forall|i: int, j: int|
        0 <= i < j < arena.len() ==> (#[trigger] arena[i]).index < (#[trigger] arena[j]).index
}

/// In an ascending arena each slot is the slot of its own index, and the
/// owners are read off the slots.
pub proof fn lemma_owners_of<S>(arena: Seq<Collider<S>>)
    requires
        ascending(arena),
    ensures
        forall|k: int|
            0 <= k < arena.len() ==> {
                &&& registered(arena, (#[trigger] arena[k]).index)
                &&& slot_of(arena, arena[k].index) == k
                &&& owners_of(arena).contains_key(arena[k].index)
                &&& owners_of(arena)[arena[k].index] == arena[k].parent
            },
        forall|i: u32| #[trigger]
            owners_of(arena).contains_key(i) ==> {
                &&& 0 <= slot_of(arena, i) < arena.len()
                &&& arena[slot_of(arena, i)].index == i
            },
{
    assert forall|k: int| 0 <= k < arena.len() implies {
        &&& registered(arena, (#[trigger] arena[k]).index)
        &&& slot_of(arena, arena[k].index) == k
        &&& owners_of(arena).contains_key(arena[k].index)
        &&& owners_of(arena)[arena[k].index] == arena[k].parent
    } by {
        let s = slot_of(arena, arena[k].index);
        assert(arena[s].index == arena[k].index);
        if s < k {
            assert(arena[s].index < arena[k].index);
        }
        if k < s {
            assert(arena[k].index < arena[s].index);
        }
    }
}

/// Two arenas whose slots agree on index and owner give the same owners.
pub proof fn lemma_same_owners<S>(a: Seq<Collider<S>>, b: Seq<Collider<S>>)
    requires
        a.len() == b.len(),
        forall|k: int|
            0 <= k < a.len() ==> (#[trigger] a[k]).index == (#[trigger] b[k]).index && a[k].parent
                == b[k].parent,
    ensures
        ascending(a) == ascending(b),
        ascending(a) ==> owners_of(a) == owners_of(b),
{
    if ascending(a) {
        assert(ascending(b)) by {
            assert forall|i: int, j: int| 0 <= i < j < b.len() implies (#[trigger] b[i]).index < (
            #[trigger] b[j]).index by {
                assert(a[i].index < a[j].index);
            }
        }
        lemma_owners_of(a);
        lemma_owners_of(b);
        assert forall|i: u32| registered(a, i) <==> registered(b, i) by {
            if registered(a, i) {
                assert(b[slot_of(a, i)].index == i);
            }
            if registered(b, i) {
                assert(a[slot_of(b, i)].index == i);
            }
        }
        assert forall|i: u32| registered(a, i) implies owners_of(a)[i] == owners_of(b)[i] by {
            let k = slot_of(a, i);
            assert(b[k].index == i);
        }
        assert(owners_of(a) =~= owners_of(b));
    } else {
        if ascending(b) {
            assert forall|i: int, j: int| 0 <= i < j < a.len() implies (#[trigger] a[i]).index < (
            #[trigger] a[j]).index by {
                assert(b[i].index < b[j].index);
            }
        }
    }
}

/// Selects the colliders that `comp` owns.
pub open spec fn owned_by<S>(comp: ComponentKey) -> spec_fn(Collider<S>) -> bool {
    |c: Collider<S>| c.parent == comp
}

/// Selects the colliders that `comp` does not own.
pub open spec fn not_owned_by<S>(comp: ComponentKey) -> spec_fn(Collider<S>) -> bool {
    |c: Collider<S>| c.parent != comp
}

/// Selects the colliders whose owner is one of `entities`.
pub open spec fn owned_by_any<S>(entities: Seq<ComponentKey>) -> spec_fn(Collider<S>) -> bool {
    |c: Collider<S>| entities.contains(c.parent)
}

/// Selecting colliders from an ascending arena leaves an ascending arena.
pub proof fn lemma_filtered_arena<S>(arena: Seq<Collider<S>>, pred: spec_fn(Collider<S>) -> bool)
    requires
        ascending(arena),
    ensures
        ascending(arena.filter(pred)),
    decreases arena.len(),
{
    reveal(Seq::filter);
    if arena.len() > 0 {
        let before = arena.drop_last();
        let last = arena.last();
        let kept = before.filter(pred);
        let all = arena.filter(pred);
        assert(ascending(before)) by {
            assert forall|i: int, j: int| 0 <= i < j < before.len() implies (
            #[trigger] before[i]).index < (#[trigger] before[j]).index by {
                assert(arena[i].index < arena[j].index);
            }
        }
        lemma_filtered_arena(before, pred);
        assert forall|i: int, j: int| 0 <= i < j < all.len() implies (#[trigger] all[i]).index < (
        #[trigger] all[j]).index by {
            if j < kept.len() {
                assert(kept[i].index < kept[j].index);
            } else {
                assert(all[i] == kept[i]);
                assert(kept.contains(kept[i]));
                before.lemma_filter_contains_rev(pred, kept[i]);
                let m = choose|m: int| 0 <= m < before.len() && before[m] == kept[i];
                assert(arena[m].index < arena[arena.len() - 1].index);
            }
        }
    }
}

/// The owners of a selection from an ascending arena: each selected collider
/// keeps its owner, and the others are gone.
pub proof fn lemma_filtered_owners<S>(arena: Seq<Collider<S>>, pred: spec_fn(Collider<S>) -> bool)
    requires
        ascending(arena),
    ensures
        forall|i: u32| #[trigger]
            owners_of(arena.filter(pred)).contains_key(i) <==> (registered(arena, i) && pred(
                arena[slot_of(arena, i)],
            )),
        forall|i: u32| #[trigger]
            owners_of(arena.filter(pred)).contains_key(i) ==> owners_of(arena.filter(pred))[i]
                == owners_of(arena)[i],
{
    let sub = arena.filter(pred);
    lemma_filtered_arena(arena, pred);
    lemma_owners_of(arena);
    lemma_owners_of(sub);
    assert forall|i: u32| #[trigger]
        owners_of(sub).contains_key(i) <==> (registered(arena, i) && pred(
            arena[slot_of(arena, i)],
        )) by {
        if owners_of(sub).contains_key(i) {
            let j = slot_of(sub, i);
            arena.lemma_filter_pred(pred, j);
            assert(sub.contains(sub[j]));
            arena.lemma_filter_contains_rev(pred, sub[j]);
            let m = choose|m: int| 0 <= m < arena.len() && arena[m] == sub[j];
            assert(arena[m].index == i);
            assert(slot_of(arena, arena[m].index) == m);
        }
        if registered(arena, i) && pred(arena[slot_of(arena, i)]) {
            let m = slot_of(arena, i);
            arena.lemma_filter_contains(pred, m);
            let j = choose|j: int| 0 <= j < sub.len() && sub[j] == arena[m];
            assert(sub[j].index == i);
        }
    }
    assert forall|i: u32| #[trigger] owners_of(sub).contains_key(i) implies owners_of(sub)[i]
        == owners_of(arena)[i] by {
        let j = slot_of(sub, i);
        assert(sub.contains(sub[j]));
        arena.lemma_filter_contains_rev(pred, sub[j]);
        let m = choose|m: int| 0 <= m < arena.len() && arena[m] == sub[j];
        assert(arena[m].index == i);
        assert(slot_of(arena, arena[m].index) == m);
    }
}

/// The indices of an arena's colliders, slot by slot.
pub open spec fn indices_of<S>(arena: Seq<Collider<S>>) -> Seq<u32> {
    arena.map_values(|c: Collider<S>| c.index)
}

/// The pairs that pair the index in slot `a` with every other index, in
/// slot order.
pub open spec fn pairs_from(indices: Seq<u32>, a: int) -> Seq<(u32, u32)> {
    indices.remove(a).map_values(|x: u32| (indices[a], x))
}

/// The pairs of the first `n` slots with every other index, slot after slot.
pub open spec fn pairs_upto(indices: Seq<u32>, n: nat) -> Seq<(u32, u32)>
    decreases n,
{
    if n == 0 {
        Seq::empty()
    } else {
        pairs_upto(indices, (n - 1) as nat) + pairs_from(indices, n - 1)
    }
}

/// The candidate pairs are exactly the ordered pairs of two different live
/// indices: a detection pass probes each collider against each other one, in
/// both directions, and none against itself.
pub proof fn lemma_candidate_pairs<S>(arena: Seq<Collider<S>>, a: u32, b: u32)
    requires
        ascending(arena),
    ensures
        pairs_upto(indices_of(arena), arena.len()).contains((a, b)) <==> (registered(arena, a)
            && registered(arena, b) && a != b),
{
    let indices = indices_of(arena);
    assert forall|i: int, j: int| 0 <= i < j < indices.len() implies indices[i] != indices[j] by {
        assert(arena[i].index < arena[j].index);
    }
    lemma_pairs_upto(indices, arena.len(), a, b);
    if registered(arena, a) && registered(arena, b) && a != b {
        let i = slot_of(arena, a);
        let j = slot_of(arena, b);
        assert(indices[i] == a && indices[j] == b);
    }
    if pairs_upto(indices, arena.len()).contains((a, b)) {
        let (i, j) = choose|i: int, j: int|
            0 <= i < arena.len() && 0 <= j < indices.len() && i != j && indices[i] == a
                && indices[j] == b;
        assert(arena[i].index == a);
        assert(arena[j].index == b);
    }
}

/// The pairs of the first `n` slots hold `(a, b)` exactly when `a` sits in one
/// of those slots and `b` in any other slot.
proof fn lemma_pairs_upto(indices: Seq<u32>, n: nat, a: u32, b: u32)
    requires
        n <= indices.len(),
    ensures
        pairs_upto(indices, n).contains((a, b)) <==> exists|i: int, j: int|
            0 <= i < n && 0 <= j < indices.len() && i != j && indices[i] == a && indices[j] == b,
    decreases n,
{
    if n > 0 {
        let m = (n - 1) as nat;
        lemma_pairs_upto(indices, m, a, b);
        let head = pairs_upto(indices, m);
        let row = pairs_from(indices, m as int);
        let rest = indices.remove(m as int);
        if pairs_upto(indices, n).contains((a, b)) {
            let k = choose|k: int| 0 <= k < (head + row).len() && (head + row)[k] == (a, b);
            if k < head.len() {
                assert(head[k] == (a, b));
                assert(head.contains((a, b)));
            } else {
                let r = k - head.len();
                assert(row[r] == (a, b));
                let j = if r < m {
                    r
                } else {
                    r + 1
                };
                assert(rest[r] == indices[j]);
                assert(0 <= m < n && 0 <= j < indices.len() && m != j && indices[m as int] == a
                    && indices[j] == b);
            }
        }
        if exists|i: int, j: int|
            0 <= i < n && 0 <= j < indices.len() && i != j && indices[i] == a && indices[j] == b {
            let (i, j) = choose|i: int, j: int|
                0 <= i < n && 0 <= j < indices.len() && i != j && indices[i] == a && indices[j]
                    == b;
            if i < m {
                assert(head.contains((a, b)));
                let k = choose|k: int| 0 <= k < head.len() && head[k] == (a, b);
                assert((head + row)[k] == (a, b));
            } else {
                let r = if j < m {
                    j
                } else {
                    j - 1
                };
                assert(rest[r] == indices[j]);
                assert(row[r] == (a, b));
                assert((head + row)[head.len() + r] == (a, b));
            }
        }
    }
}

} // verus!
