//! A symmetric key over two collider indices.

use vstd::prelude::*;
use vstd::std_specs::cmp::PartialEqSpecImpl;

verus! {

/// The smaller index first, the larger second: the form under which a pair
/// is compared and hashed.
pub open spec fn pair_key(a: u32, b: u32) -> (u32, u32) {
    if a < b {
        (a, b)
    } else {
        (b, a)
    }
}

/// Two collider indices in the order in which they were detected. Equality and
/// hashing ignore that order: `(a, b)` and `(b, a)` are the same pair.
#[derive(Clone, Copy, Debug)]
pub struct IndexPair(pub u32, pub u32);

impl IndexPair {
    /// The order-free identity of the pair.
    pub open spec fn key(self) -> (u32, u32) {
        pair_key(self.0, self.1)
    }

    /// Whether two pairs hold the same two indices, in either order.
    pub open spec fn same(self, other: IndexPair) -> bool {
        self.key() == other.key()
    }

    pub fn new(a: u32, b: u32) -> (pair: IndexPair)
        ensures
            pair == IndexPair(a, b),
    {
        IndexPair(a, b)
    }

    /// The value that is hashed: the two indices, smaller first.
    pub fn hash_key(&self) -> (k: (u32, u32))
        ensures
            k == self.key(),
            k.0 <= k.1,
    {
        if self.0 < self.1 {
            (self.0, self.1)
        } else {
            (self.1, self.0)
        }
    }

    /// Whether `index` is one of the two members.
    pub fn involves(&self, index: u32) -> (r: bool)
        ensures
            r == (self.0 == index || self.1 == index),
    {
        self.0 == index || self.1 == index
    }
}

impl PartialEq for IndexPair {
    fn eq(&self, other: &IndexPair) -> (r: bool) {
        (self.0 == other.0 && self.1 == other.1) || (self.0 == other.1 && self.1 == other.0)
    }
}

impl Eq for IndexPair {

}

impl PartialEqSpecImpl for IndexPair {
    open spec fn obeys_eq_spec() -> bool {
        true
    }

    open spec fn eq_spec(&self, other: &IndexPair) -> bool {
        self.same(*other)
    }
}

/// `u32::hash` feeds the integer to the hasher. Nothing is claimed of the
/// hasher's state afterwards.
pub assume_specification<H: std::hash::Hasher>[ <u32 as std::hash::Hash>::hash ](
    value: &u32,
    state: &mut H,
);

impl std::hash::Hash for IndexPair {
    fn hash<H: std::hash::Hasher>(&self, state: &mut H) {
        let (low, high) = self.hash_key();
        low.hash(state);
        high.hash(state);
    }
}

/// Swapping the two indices changes neither what a pair equals nor what is
/// hashed for it.
pub proof fn lemma_pair_order_irrelevant(a: u32, b: u32)
    ensures
        IndexPair(a, b).same(IndexPair(b, a)),
        IndexPair(a, b).key() == IndexPair(b, a).key(),
{
}

/// Pair identity is an equivalence: reflexive, symmetric and transitive, and
/// two pairs are the same exactly when they hold the same indices in the same
/// or in the opposite order.
pub proof fn lemma_pair_identity(p: IndexPair, q: IndexPair, r: IndexPair)
    ensures
        p.same(p),
        p.same(q) == q.same(p),
        p.same(q) && q.same(r) ==> p.same(r),
        p.same(q) <==> (p.0 == q.0 && p.1 == q.1) || (p.0 == q.1 && p.1 == q.0),
{
}

/// Whether `pair` occurs among `pairs`, in either order.
pub open spec fn in_pairs(pairs: Seq<IndexPair>, pair: IndexPair) -> bool {
    exists|k: int| 0 <= k < pairs.len() && (#[trigger] pairs[k]).same(pair)
}

/// No unordered pair occurs twice.
pub open spec fn distinct_pairs(pairs: Seq<IndexPair>) -> bool {
    forall|i: int, j: int|
        0 <= i < j < pairs.len() ==> !(#[trigger] pairs[i]).same(#[trigger] pairs[j])
}

/// Membership among pairs does not depend on the order of the indices asked
/// for.
pub proof fn lemma_in_pairs_same(pairs: Seq<IndexPair>, p: IndexPair, q: IndexPair)
    requires
        p.same(q),
    ensures
        in_pairs(pairs, p) == in_pairs(pairs, q),
{
    if in_pairs(pairs, p) {
        let k = choose|k: int| 0 <= k < pairs.len() && (#[trigger] pairs[k]).same(p);
        assert(pairs[k].same(q));
    }
    if in_pairs(pairs, q) {
        let k = choose|k: int| 0 <= k < pairs.len() && (#[trigger] pairs[k]).same(q);
        assert(pairs[k].same(p));
    }
}

/// A pair occurs among `pairs` with `q` appended exactly when it occurs among
/// `pairs` or is `q`.
pub proof fn lemma_in_pairs_push(pairs: Seq<IndexPair>, q: IndexPair, p: IndexPair)
    ensures
        in_pairs(pairs.push(q), p) <==> (in_pairs(pairs, p) || q.same(p)),
{
    let longer = pairs.push(q);
    if in_pairs(longer, p) {
        let k = choose|k: int| 0 <= k < longer.len() && (#[trigger] longer[k]).same(p);
        if k < pairs.len() {
            assert(pairs[k].same(p));
        }
    }
    if in_pairs(pairs, p) {
        let k = choose|k: int| 0 <= k < pairs.len() && (#[trigger] pairs[k]).same(p);
        assert(longer[k].same(p));
    }
    if q.same(p) {
        assert(longer[pairs.len() as int].same(p));
    }
}

/// Whether `pair` occurs among `pairs`, in either order.
pub fn contains_pair(pairs: &Vec<IndexPair>, pair: &IndexPair) -> (r: bool)
    ensures
        r == in_pairs(pairs@, *pair),
{
    let mut k: usize = 0;
    while k < pairs.len()
        invariant
            k <= pairs.len(),
            forall|i: int| 0 <= i < k ==> !(#[trigger] pairs@[i]).same(*pair),
        decreases pairs.len() - k,
    {
        if pairs[k] == *pair {
            return true;
        }
        k = k + 1;
    }
    false
}

} // verus!
