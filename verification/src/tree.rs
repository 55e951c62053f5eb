//! The interval index: what is assumed of the array-backed interval tree
//! that answers the range queries.
//!
//! The tree holds half-open intervals `lo..hi` of `u128` bounds, each with
//! the position of a record as its data.

use vstd::prelude::*;
use bio::data_structures::interval_tree::ArrayBackedIntervalTree;

verus! {

/// `bio::data_structures::interval_tree::ArrayBackedIntervalTree`, taken as
/// an opaque type.
#[verifier::external_type_specification]
#[verifier::external_body]
#[verifier::reject_recursive_types(N)]
#[verifier::reject_recursive_types(D)]
pub struct ExArrayBackedIntervalTree<N: Ord + Clone + Copy, D>(ArrayBackedIntervalTree<N, D>);

/// One entry of the tree: the bounds `lo..hi` and the data.
pub type Entry = (u128, u128, usize);

/// The entries of the tree in the order in which it stores them.
pub uninterp spec fn tree_entries(t: ArrayBackedIntervalTree<u128, usize>) -> Seq<Entry>;

/// Whether the tree has been indexed since its last insertion.
pub uninterp spec fn tree_indexed(t: ArrayBackedIntervalTree<u128, usize>) -> bool;

/// Whether the entries stand in the order of their lower bounds.
pub open spec fn sorted_by_start(e: Seq<Entry>) -> bool {
    forall|i: int, j: int| 0 <= i <= j < e.len() ==> (#[trigger] e[i]).0 <= (#[trigger] e[j]).0
}

/// Whether `after` keeps entries with the same lower bound in the order in
/// which `before` has them.
pub open spec fn keeps_ties(before: Seq<Entry>, after: Seq<Entry>) -> bool {
    forall|a: int, b: int|
        0 <= a < b < before.len() && (#[trigger] before[a]).0 == (#[trigger] before[b]).0
            ==> exists|x: int, y: int|
            0 <= x < y < after.len() && #[trigger] after[x] == before[a] && #[trigger] after[y]
                == before[b]
}

/// Whether the entry meets the half-open query `lo..hi`.
pub open spec fn entry_meets(e: Entry, lo: u128, hi: u128) -> bool {
    e.0 < hi && lo < e.1
}

/// The data of the entries that meet the query `lo..hi`, in the order of the
/// entries.
pub open spec fn hits(e: Seq<Entry>, lo: u128, hi: u128) -> Seq<usize>
    decreases e.len(),
{
    if e.len() == 0 {
        Seq::empty()
    } else if entry_meets(e.last(), lo, hi) {
        hits(e.drop_last(), lo, hi).push(e.last().2)
    } else {
        hits(e.drop_last(), lo, hi)
    }
}

/// `ArrayBackedIntervalTree::new` makes a tree without entries that is not
/// indexed.
#[verifier::external_body]
pub(crate) fn tree_new() -> (t: ArrayBackedIntervalTree<u128, usize>)
    ensures
        tree_entries(t) == Seq::<Entry>::empty(),
        !tree_indexed(t),
{
    ArrayBackedIntervalTree::new()
}

/// `ArrayBackedIntervalTree::insert` appends the entry behind those that the
/// tree holds and marks the tree as not indexed. The range must not end
/// before it starts.
#[verifier::external_body]
pub(crate) fn tree_insert(
    t: &mut ArrayBackedIntervalTree<u128, usize>,
    lo: u128,
    hi: u128,
    data: usize,
)
    requires
        lo <= hi,
    ensures
        tree_entries(*final(t)) == tree_entries(*old(t)).push((lo, hi, data)),
        !tree_indexed(*final(t)),
{
    t.insert(lo..hi, data)
}

/// `ArrayBackedIntervalTree::index` leaves an indexed tree as it is. It puts
/// the entries of a tree that is not indexed into the order of their lower
/// bounds with a stable sort, so that it loses and adds none and leaves
/// entries with the same lower bound in their order, and marks the tree as
/// indexed.
#[verifier::external_body]
pub(crate) fn tree_index(t: &mut ArrayBackedIntervalTree<u128, usize>)
    ensures
        tree_indexed(*final(t)),
        tree_entries(*final(t)).to_multiset() == tree_entries(*old(t)).to_multiset(),
        tree_indexed(*old(t)) ==> tree_entries(*final(t)) == tree_entries(*old(t)),
        !tree_indexed(*old(t)) ==> sorted_by_start(tree_entries(*final(t))),
        keeps_ties(tree_entries(*old(t)), tree_entries(*final(t))),
{
    t.index()
}

/// `ArrayBackedIntervalTree::find` on an indexed tree returns the entries
/// whose interval meets the query `lo..hi`, in the order in which the tree
/// stores them; here each is given by its data. The tree must be indexed and
/// the query must not end before it starts.
#[verifier::external_body]
pub(crate) fn tree_find(t: &ArrayBackedIntervalTree<u128, usize>, lo: u128, hi: u128) -> (found:
    Vec<usize>)
    requires
        tree_indexed(*t),
        lo <= hi,
    ensures
        found@ == hits(tree_entries(*t), lo, hi),
{
    t.find(lo..hi).iter().map(|e| *e.data()).collect()
}

/// The positions of the entries that meet the query `lo..hi`, ascending.
pub open spec fn hit_positions(e: Seq<Entry>, lo: u128, hi: u128) -> Seq<int>
    decreases e.len(),
{
    if e.len() == 0 {
        Seq::empty()
    } else if entry_meets(e.last(), lo, hi) {
        hit_positions(e.drop_last(), lo, hi).push(e.len() - 1)
    } else {
        hit_positions(e.drop_last(), lo, hi)
    }
}

/// The hits are the data of the entries at the hit positions; these ascend,
/// each of them meets the query, and none that meets it is missing.
pub proof fn lemma_hits(e: Seq<Entry>, lo: u128, hi: u128)
    ensures
        hit_positions(e, lo, hi).len() == hits(e, lo, hi).len(),
        forall|a: int|
            0 <= a < hits(e, lo, hi).len() ==> {
                let k = #[trigger] hit_positions(e, lo, hi)[a];
                0 <= k < e.len() && entry_meets(e[k], lo, hi) && hits(e, lo, hi)[a] == e[k].2
            },
        forall|a: int, b: int|
            0 <= a < b < hits(e, lo, hi).len() ==> #[trigger] hit_positions(e, lo, hi)[a]
                < #[trigger] hit_positions(e, lo, hi)[b],
        forall|k: int|
            0 <= k < e.len() && entry_meets(#[trigger] e[k], lo, hi) ==> hit_positions(
                e,
                lo,
                hi,
            ).contains(k),
    decreases e.len(),
{
    if e.len() == 0 {
    } else {
        let d = e.drop_last();
        lemma_hits(d, lo, hi);
        let p = hit_positions(e, lo, hi);
        let pd = hit_positions(d, lo, hi);
        let last = e.len() - 1;
        assert forall|k: int|
            0 <= k < e.len() && entry_meets(#[trigger] e[k], lo, hi) implies p.contains(k) by {
            if k < last {
                assert(d[k] == e[k]);
                assert(pd.contains(k));
                let a = choose|a: int| 0 <= a < pd.len() && pd[a] == k;
                assert(p[a] == k);
            } else {
                assert(p[p.len() - 1] == k);
            }
        }
        assert forall|a: int| 0 <= a < hits(e, lo, hi).len() implies {
            let k = #[trigger] p[a];
            0 <= k < e.len() && entry_meets(e[k], lo, hi) && hits(e, lo, hi)[a] == e[k].2
        } by {
            if a < pd.len() {
                assert(p[a] == pd[a]);
                assert(d[pd[a]] == e[pd[a]]);
            }
        }
        assert forall|a: int, b: int| 0 <= a < b < hits(e, lo, hi).len() implies #[trigger] p[a]
            < #[trigger] p[b] by {
            if b < pd.len() {
                assert(p[a] == pd[a] && p[b] == pd[b]);
            } else {
                assert(p[a] == pd[a]);
                assert(pd[a] < d.len());
            }
        }
    }
}

} // verus!
