//! What the hierarchy engine computes: the parent that each record resolves
//! to, the children of each record, and the records whose parent is missing.

use vstd::prelude::*;
use crate::object::GffObject;
use crate::utils::Types;

verus! {

/// The position that the parent of the record at `i` resolves to: the record
/// names a parent, the lookup holds that identity, and it leads to another
/// record.
pub open spec fn parent_of(
    records: Seq<GffObject>,
    identities: Map<Seq<char>, usize>,
    i: int,
) -> Option<usize> {
    match records[i].parent_id_str {
        Some(p) => if identities.contains_key(p@) && identities[p@] != i {
            Some(identities[p@])
        } else {
            None
        },
        None => None,
    }
}

/// Whether the record at `i` names a parent that resolves to no other
/// record.
pub open spec fn dangling_at(
    records: Seq<GffObject>,
    identities: Map<Seq<char>, usize>,
    i: int,
) -> bool {
    records[i].parent_id_str is Some && parent_of(records, identities, i) is None
}

/// The positions among the first `n` whose parent resolves to `j`,
/// ascending.
pub open spec fn children_among(
    records: Seq<GffObject>,
    identities: Map<Seq<char>, usize>,
    j: int,
    n: int,
) -> Seq<usize>
    decreases n,
{
    if n <= 0 {
        Seq::empty()
    } else if parent_of(records, identities, n - 1) == Some(j as usize) {
        children_among(records, identities, j, n - 1).push((n - 1) as usize)
    } else {
        children_among(records, identities, j, n - 1)
    }
}

/// The positions among the first `n` whose parent is missing, ascending.
pub open spec fn dangling_among(
    records: Seq<GffObject>,
    identities: Map<Seq<char>, usize>,
    n: int,
) -> Seq<usize>
    decreases n,
{
    if n <= 0 {
        Seq::empty()
    } else if dangling_at(records, identities, n - 1) {
        dangling_among(records, identities, n - 1).push((n - 1) as usize)
    } else {
        dangling_among(records, identities, n - 1)
    }
}

/// Whether the record at `i` is out of place in a hierarchy: it names no
/// parent and is no gene.
pub open spec fn anomalous_at(records: Seq<GffObject>, i: int) -> bool {
    records[i].parent_id_str is None && records[i].g_type != Types::Gene
}

/// The positions among the first `n` of records that are out of place,
/// ascending.
pub open spec fn anomalies_among(records: Seq<GffObject>, n: int) -> Seq<usize>
    decreases n,
{
    if n <= 0 {
        Seq::empty()
    } else if anomalous_at(records, n - 1) {
        anomalies_among(records, n - 1).push((n - 1) as usize)
    } else {
        anomalies_among(records, n - 1)
    }
}

/// Whether two records differ in nothing but their children and their
/// parent.
pub open spec fn same_but_links(a: GffObject, b: GffObject) -> bool {
    &&& a.seqid == b.seqid
    &&& a.strand == b.strand
    &&& a.source == b.source
    &&& a.g_type == b.g_type
    &&& a.attrs == b.attrs
    &&& a.extra_attrs == b.extra_attrs
    &&& a.id == b.id
    &&& a.interval == b.interval
    &&& a.id_str == b.id_str
    &&& a.parent_id_str == b.parent_id_str
}

/// Whether `after` holds the records of `before` linked into their
/// hierarchy: each record has the parent that it resolves to and, as
/// children, the records that resolve to it, in arena order.
pub open spec fn linked(
    before: Seq<GffObject>,
    identities: Map<Seq<char>, usize>,
    after: Seq<GffObject>,
) -> bool {
    &&& after.len() == before.len()
    &&& forall|j: int|
        0 <= j < before.len() ==> {
            &&& same_but_links(before[j], #[trigger] after[j])
            &&& after[j].parent == parent_of(before, identities, j)
            &&& after[j].children@ == children_among(before, identities, j, before.len() as int)
        }
}

/// Every child that was found is a stored record.
pub proof fn lemma_children_in_range(
    records: Seq<GffObject>,
    identities: Map<Seq<char>, usize>,
    j: int,
    n: int,
)
    requires
        0 <= n <= records.len() <= usize::MAX,
    ensures
        forall|k: int|
            0 <= k < children_among(records, identities, j, n).len()
                ==> #[trigger] children_among(records, identities, j, n)[k] < n,
    decreases n,
{
    if n > 0 {
        lemma_children_in_range(records, identities, j, n - 1);
        let now = children_among(records, identities, j, n);
        let before = children_among(records, identities, j, n - 1);
        assert forall|k: int| 0 <= k < now.len() implies #[trigger] now[k] < n by {
            if k < before.len() {
                assert(now[k] == before[k]);
            }
        }
    }
}

/// The children depend on nothing but the parent identities of the records
/// and the lookup.
pub proof fn lemma_children_same(
    a: Seq<GffObject>,
    b: Seq<GffObject>,
    identities: Map<Seq<char>, usize>,
    j: int,
    n: int,
)
    requires
        0 <= n <= a.len() == b.len(),
        forall|i: int| 0 <= i < a.len() ==> (#[trigger] a[i]).parent_id_str == b[i].parent_id_str,
    ensures
        children_among(a, identities, j, n) == children_among(b, identities, j, n),
    decreases n,
{
    if n > 0 {
        lemma_children_same(a, b, identities, j, n - 1);
        assert(a[n - 1].parent_id_str == b[n - 1].parent_id_str);
    }
}

/// Linking is repeatable: linking records that are linked already, with the
/// same lookup, gives each record the same children and the same parent
/// again.
pub proof fn lemma_linked_again(
    a: Seq<GffObject>,
    b: Seq<GffObject>,
    c: Seq<GffObject>,
    identities: Map<Seq<char>, usize>,
)
    requires
        linked(a, identities, b),
        linked(b, identities, c),
    ensures
        forall|j: int|
            0 <= j < a.len() ==> (#[trigger] c[j]).children@ == b[j].children@ && c[j].parent
                == b[j].parent,
{
    assert forall|j: int| 0 <= j < a.len() implies (#[trigger] c[j]).children@ == b[j].children@
        && c[j].parent == b[j].parent by {
        assert forall|i: int| 0 <= i < a.len() implies (#[trigger] a[i]).parent_id_str
            == b[i].parent_id_str by {
            assert(same_but_links(a[i], b[i]));
        }
        lemma_children_same(a, b, identities, j, a.len() as int);
        assert(same_but_links(a[j], b[j]));
    }
}

/// Linking is determined: two results of linking the same records with the
/// same lookup agree on every record.
pub proof fn lemma_linked_once(
    a: Seq<GffObject>,
    b: Seq<GffObject>,
    c: Seq<GffObject>,
    identities: Map<Seq<char>, usize>,
)
    requires
        linked(a, identities, b),
        linked(a, identities, c),
    ensures
        forall|j: int|
            0 <= j < a.len() ==> (#[trigger] c[j]).children@ == b[j].children@ && c[j].parent
                == b[j].parent && same_but_links(b[j], c[j]),
{
    assert forall|j: int| 0 <= j < a.len() implies (#[trigger] c[j]).children@ == b[j].children@
        && c[j].parent == b[j].parent && same_but_links(b[j], c[j]) by {
        assert(same_but_links(a[j], b[j]));
        assert(same_but_links(a[j], c[j]));
    }
}

/// A record whose parent is missing: the record names a parent, and no other
/// stored record has that identity.
#[derive(Debug)]
pub struct DanglingParent {
    /// The position of the record.
    pub child: usize,
    /// The identity of the parent that it names.
    pub parent_id: String,
}

/// Whether every record knows the position at which it is stored.
pub open spec fn placed_all(records: Seq<GffObject>) -> bool {
    forall|i: int| 0 <= i < records.len() ==> (#[trigger] records[i]).id == Some(i as usize)
}

/// Whether `index` is the first position whose record does not know it.
pub open spec fn first_unplaced(records: Seq<GffObject>, index: int) -> bool {
    &&& 0 <= index < records.len()
    &&& records[index].id != Some(index as usize)
    &&& forall|i: int| 0 <= i < index ==> (#[trigger] records[i]).id == Some(i as usize)
}

/// Whether the report names the first `n` records whose parent is missing,
/// each with the identity that it names, in arena order.
pub open spec fn reports(
    report: Seq<DanglingParent>,
    records: Seq<GffObject>,
    identities: Map<Seq<char>, usize>,
    n: int,
) -> bool {
    let missing = dangling_among(records, identities, n);
    &&& report.len() == missing.len()
    &&& forall|k: int|
        0 <= k < report.len() ==> {
            &&& (#[trigger] report[k]).child == missing[k]
            &&& report[k].child < n
            &&& dangling_at(records, identities, report[k].child as int)
            &&& Some(report[k].parent_id) == records[report[k].child as int].parent_id_str
        }
}

/// The bounds of an interval that is known, or none.
pub type Span = Option<(int, int)>;

/// The smallest span that covers both spans.
pub open spec fn join(a: Span, b: Span) -> Span {
    match (a, b) {
        (None, _) => b,
        (_, None) => a,
        (Some(p), Some(q)) => Some(
            (
                if p.0 <= q.0 {
                    p.0
                } else {
                    q.0
                },
                if p.1 >= q.1 {
                    p.1
                } else {
                    q.1
                },
            ),
        ),
    }
}

/// Whether a record has no child that is stored.
pub open spec fn is_leaf(kids: Seq<usize>, n: int) -> bool {
    forall|k: int| 0 <= k < kids.len() ==> #[trigger] kids[k] >= n
}

/// The span over the known spans of the stored children among the first `k`
/// of `kids`.
pub open spec fn hull_over(vals: Seq<Span>, kids: Seq<usize>, k: int) -> Span
    decreases k,
{
    if k <= 0 {
        None
    } else if kids[k - 1] < vals.len() {
        join(hull_over(vals, kids, k - 1), vals[kids[k - 1] as int])
    } else {
        hull_over(vals, kids, k - 1)
    }
}

/// One round of propagation: a leaf has its own interval, every other record
/// the span over what is known of its children.
pub open spec fn step(own: Seq<(int, int)>, kids: Seq<Seq<usize>>, vals: Seq<Span>) -> Seq<Span> {
    Seq::new(
        own.len(),
        |i: int|
            if is_leaf(kids[i], own.len() as int) {
                Some(own[i])
            } else {
                hull_over(vals, kids[i], kids[i].len() as int)
            },
    )
}

/// What is known after `d` rounds, starting from nothing.
pub open spec fn spans(own: Seq<(int, int)>, kids: Seq<Seq<usize>>, d: int) -> Seq<Span>
    decreases d,
{
    if d <= 0 {
        Seq::new(own.len(), |i: int| None)
    } else {
        step(own, kids, spans(own, kids, d - 1))
    }
}

/// The intervals after propagation: a record takes the span that is known
/// for it after as many rounds as there are records, and keeps its own
/// interval where none is known. So a record with children spans the leaves
/// below it, and a record without leaves below it stays as it is.
pub open spec fn resolved(own: Seq<(int, int)>, kids: Seq<Seq<usize>>) -> Seq<(int, int)> {
    Seq::new(
        own.len(),
        |i: int|
            match spans(own, kids, own.len() as int)[i] {
                Some(v) => v,
                None => own[i],
            },
    )
}

/// Once a round changes nothing, no later round does.
pub proof fn lemma_spans_stable(own: Seq<(int, int)>, kids: Seq<Seq<usize>>, d: int, m: int)
    requires
        0 <= d <= m,
        step(own, kids, spans(own, kids, d)) == spans(own, kids, d),
    ensures
        spans(own, kids, m) == spans(own, kids, d),
    decreases m - d,
{
    if m > d {
        lemma_spans_stable(own, kids, d, m - 1);
    }
}

/// What is known depends on the intervals of the leaves alone.
pub proof fn lemma_spans_leaves(
    own: Seq<(int, int)>,
    other: Seq<(int, int)>,
    kids: Seq<Seq<usize>>,
    d: int,
)
    requires
        own.len() == other.len(),
        forall|i: int|
            0 <= i < own.len() && is_leaf(#[trigger] kids[i], own.len() as int) ==> own[i]
                == other[i],
    ensures
        spans(own, kids, d) == spans(other, kids, d),
    decreases d,
{
    if d > 0 {
        lemma_spans_leaves(own, other, kids, d - 1);
        assert(step(own, kids, spans(own, kids, d - 1)) =~= step(
            other,
            kids,
            spans(other, kids, d - 1),
        ));
    } else {
        assert(spans(own, kids, d) =~= spans(other, kids, d));
    }
}

/// Propagating twice gives the same intervals as propagating once.
pub proof fn lemma_resolved_idempotent(own: Seq<(int, int)>, kids: Seq<Seq<usize>>)
    ensures
        resolved(resolved(own, kids), kids) == resolved(own, kids),
{
    let n = own.len() as int;
    let once = resolved(own, kids);
    assert forall|i: int| 0 <= i < n && is_leaf(#[trigger] kids[i], n) implies own[i]
        == once[i] by {
        assert(spans(own, kids, n)[i] == Some(own[i]));
    }
    lemma_spans_leaves(own, once, kids, n);
    assert(resolved(once, kids) =~= once);
}

/// A node of a hierarchy that is given by positions alone.
#[derive(Debug)]
pub struct Object {
    /// The name under which the node is entered as a child.
    pub id: usize,
    /// The position of the node's parent, if it has one.
    pub parent_id: Option<usize>,
    /// The names of the node's children.
    pub children: Vec<usize>,
}

impl Object {
    /// A node without children.
    pub fn new(id: usize, parent_id: Option<usize>) -> (obj: Object)
        ensures
            obj.id == id,
            obj.parent_id == parent_id,
            obj.children@ == Seq::<usize>::empty(),
    {
        Object { id, parent_id, children: Vec::new() }
    }
}

/// The names of the nodes among the first `n` whose parent is at position
/// `j`, in order.
pub open spec fn named_children(objects: Seq<Object>, j: int, n: int) -> Seq<usize>
    decreases n,
{
    if n <= 0 {
        Seq::empty()
    } else if objects[n - 1].parent_id == Some(j as usize) {
        named_children(objects, j, n - 1).push(objects[n - 1].id)
    } else {
        named_children(objects, j, n - 1)
    }
}

/// The nodes of a hierarchy, each at its position.
#[derive(Debug)]
pub struct ObjectManager {
    /// The nodes.
    pub objects: Vec<Object>,
}

impl ObjectManager {
    /// Enters every node as a child of its parent.
    ///
    /// In a first pass the pairs of parent and child are collected in the
    /// order of the nodes; in a second pass each child is put behind the
    /// children that its parent has. A node whose parent is at no position is
    /// entered nowhere.
    pub fn build_hierarchy(&mut self)
        ensures
            final(self).objects@.len() == old(self).objects@.len(),
            forall|j: int|
                0 <= j < old(self).objects@.len() ==> {
                    &&& (#[trigger] final(self).objects@[j]).id == old(self).objects@[j].id
                    &&& final(self).objects@[j].parent_id == old(self).objects@[j].parent_id
                    &&& final(self).objects@[j].children@ == old(self).objects@[j].children@
                        + named_children(old(self).objects@, j, old(self).objects@.len() as int)
                },
    {
        let n = self.objects.len();
        let ghost before = self.objects@;
        let mut updates: Vec<(usize, usize)> = Vec::new();
        let mut i: usize = 0;
        while i < n
            invariant
                i <= n,
                n == before.len(),
                self.objects@ == before,
                updates@.len() <= i,
                forall|u: int| 0 <= u < updates@.len() ==> (#[trigger] updates@[u]).0 < n,
                forall|j: int|
                    0 <= j < n ==> #[trigger] pairs_for(updates@, j, updates@.len() as int)
                        == named_children(before, j, i as int),
            decreases n - i,
        {
            let ghost seen = updates@;
            match self.objects[i].parent_id {
                Some(p) => {
                    if p < n {
                        updates.push((p, self.objects[i].id));
                        proof {
                            assert forall|j: int| 0 <= j < n implies #[trigger] pairs_for(
                                updates@,
                                j,
                                updates@.len() as int,
                            ) == named_children(before, j, i + 1) by {
                                lemma_pairs_prefix(seen, updates@, j, seen.len() as int);
                                assert(pairs_for(seen, j, seen.len() as int) == named_children(
                                    before,
                                    j,
                                    i as int,
                                ));
                            }
                        }
                    }
                },
                None => {},
            }
            i += 1;
        }
        let total = updates.len();
        let mut u: usize = 0;
        while u < total
            invariant
                u <= total,
                total == updates@.len(),
                n == before.len(),
                self.objects@.len() == n,
                forall|k: int| 0 <= k < updates@.len() ==> (#[trigger] updates@[k]).0 < n,
                forall|j: int|
                    0 <= j < n ==> {
                        &&& (#[trigger] self.objects@[j]).id == before[j].id
                        &&& self.objects@[j].parent_id == before[j].parent_id
                        &&& self.objects@[j].children@ == before[j].children@ + pairs_for(
                            updates@,
                            j,
                            u as int,
                        )
                    },
            decreases total - u,
        {
            let (parent, child) = updates[u];
            let ghost seen = self.objects@;
            self.objects[parent].children.push(child);
            proof {
                assert forall|j: int| 0 <= j < n implies {
                    &&& (#[trigger] self.objects@[j]).id == before[j].id
                    &&& self.objects@[j].parent_id == before[j].parent_id
                    &&& self.objects@[j].children@ == before[j].children@ + pairs_for(
                        updates@,
                        j,
                        u + 1,
                    )
                } by {
                    assert(seen[j].children@ == before[j].children@ + pairs_for(
                        updates@,
                        j,
                        u as int,
                    ));
                    if j == parent {
                        assert(self.objects@[j].children@ =~= before[j].children@ + pairs_for(
                            updates@,
                            j,
                            u as int,
                        ).push(child));
                    } else {
                        assert(self.objects@[j] == seen[j]);
                    }
                }
            }
            u += 1;
        }
    }
}

/// The children that the first `n` of the collected pairs give to the node
/// at position `j`, in order.
pub open spec fn pairs_for(updates: Seq<(usize, usize)>, j: int, n: int) -> Seq<usize>
    decreases n,
{
    if n <= 0 {
        Seq::empty()
    } else if updates[n - 1].0 == j {
        pairs_for(updates, j, n - 1).push(updates[n - 1].1)
    } else {
        pairs_for(updates, j, n - 1)
    }
}

/// What the first pairs give depends on those pairs alone.
proof fn lemma_pairs_prefix(a: Seq<(usize, usize)>, b: Seq<(usize, usize)>, j: int, n: int)
    requires
        0 <= n <= a.len() <= b.len(),
        forall|k: int| 0 <= k < a.len() ==> a[k] == b[k],
    ensures
        pairs_for(a, j, n) == pairs_for(b, j, n),
    decreases n,
{
    if n > 0 {
        lemma_pairs_prefix(a, b, j, n - 1);
    }
}

/// Whether `rank` orders the hierarchy: every stored child has a smaller
/// rank than its parent. A hierarchy that can be ranked has no cycle.
pub open spec fn ranked(kids: Seq<Seq<usize>>, rank: Seq<nat>) -> bool {
    &&& rank.len() == kids.len()
    &&& forall|i: int, k: int|
        0 <= i < kids.len() && 0 <= k < kids[i].len() && (#[trigger] kids[i][k]) < kids.len()
            ==> rank[kids[i][k] as int] < rank[i]
}

/// Whether one span covers another.
pub open spec fn covers(outer: (int, int), inner: (int, int)) -> bool {
    outer.0 <= inner.0 && inner.1 <= outer.1
}

/// The span over the children depends on what is known of the stored
/// children alone.
proof fn lemma_hull_same(a: Seq<Span>, b: Seq<Span>, kids: Seq<usize>, k: int)
    requires
        a.len() == b.len(),
        0 <= k <= kids.len(),
        forall|x: int|
            0 <= x < k && (#[trigger] kids[x]) < a.len() ==> a[kids[x] as int]
                == b[kids[x] as int],
    ensures
        hull_over(a, kids, k) == hull_over(b, kids, k),
    decreases k,
{
    if k > 0 {
        lemma_hull_same(a, b, kids, k - 1);
        if kids[k - 1] < a.len() {
            assert(a[kids[k - 1] as int] == b[kids[k - 1] as int]);
        }
    }
}

/// The span over the children covers what is known of each stored child.
proof fn lemma_hull_covers(vals: Seq<Span>, kids: Seq<usize>, n: int, k: int)
    requires
        0 <= k < n <= kids.len(),
        kids[k] < vals.len(),
        vals[kids[k] as int] is Some,
    ensures
        hull_over(vals, kids, n) is Some,
        covers(hull_over(vals, kids, n)->Some_0, vals[kids[k] as int]->Some_0),
    decreases n,
{
    if k < n - 1 {
        lemma_hull_covers(vals, kids, n - 1, k);
    }
}

/// In a hierarchy without cycle, what is known of a record no longer
/// changes once there were more rounds than its rank, and something is known
/// of every record then.
proof fn lemma_ranked_stable(
    own: Seq<(int, int)>,
    kids: Seq<Seq<usize>>,
    rank: Seq<nat>,
    i: int,
    d: int,
)
    requires
        own.len() == kids.len(),
        ranked(kids, rank),
        0 <= i < own.len(),
        d > rank[i],
    ensures
        spans(own, kids, d)[i] == spans(own, kids, rank[i] as int + 1)[i],
        spans(own, kids, d)[i] is Some,
    decreases rank[i],
{
    let n = own.len() as int;
    let r = rank[i] as int;
    if is_leaf(kids[i], n) {
        assert(spans(own, kids, d)[i] == Some(own[i]));
        assert(spans(own, kids, r + 1)[i] == Some(own[i]));
    } else {
        let late = spans(own, kids, d - 1);
        let early = spans(own, kids, r);
        let mine = kids[i];
        assert forall|x: int|
            0 <= x < mine.len() && (#[trigger] mine[x]) < n implies late[mine[x] as int]
            == early[mine[x] as int] && late[mine[x] as int] is Some by {
            let c = mine[x] as int;
            assert(rank[c] < rank[i]);
            lemma_ranked_stable(own, kids, rank, c, d - 1);
            lemma_ranked_stable(own, kids, rank, c, r);
        }
        lemma_hull_same(late, early, mine, mine.len() as int);
        let x = choose|x: int| 0 <= x < mine.len() && !(#[trigger] mine[x] >= n);
        lemma_hull_covers(late, mine, mine.len() as int, x);
    }
}

/// In a hierarchy without cycle, propagation settles: after as many rounds
/// as there are records, one more round changes nothing.
pub proof fn lemma_ranked_settles(own: Seq<(int, int)>, kids: Seq<Seq<usize>>, rank: Seq<nat>)
    requires
        own.len() == kids.len(),
        ranked(kids, rank),
        forall|i: int| 0 <= i < rank.len() ==> #[trigger] rank[i] < rank.len(),
    ensures
        step(own, kids, spans(own, kids, own.len() as int)) == spans(own, kids, own.len() as int),
        forall|i: int|
            0 <= i < own.len() ==> (#[trigger] spans(own, kids, own.len() as int)[i]) is Some,
{
    let n = own.len() as int;
    assert forall|i: int| 0 <= i < n implies spans(own, kids, n + 1)[i] == spans(own, kids, n)[i]
        && (#[trigger] spans(own, kids, n)[i]) is Some by {
        assert(rank[i] < n);
        lemma_ranked_stable(own, kids, rank, i, n);
        lemma_ranked_stable(own, kids, rank, i, n + 1);
    }
    assert(spans(own, kids, n + 1) =~= spans(own, kids, n));
}

/// In a hierarchy without cycle, every record spans each of its stored
/// children after propagation.
pub proof fn lemma_resolved_covers(
    own: Seq<(int, int)>,
    kids: Seq<Seq<usize>>,
    rank: Seq<nat>,
    i: int,
    k: int,
)
    requires
        own.len() == kids.len(),
        ranked(kids, rank),
        forall|j: int| 0 <= j < rank.len() ==> #[trigger] rank[j] < rank.len(),
        0 <= i < own.len(),
        0 <= k < kids[i].len(),
        kids[i][k] < own.len(),
    ensures
        covers(resolved(own, kids)[i], resolved(own, kids)[kids[i][k] as int]),
{
    let n = own.len() as int;
    let vals = spans(own, kids, n);
    lemma_ranked_settles(own, kids, rank);
    let c = kids[i][k] as int;
    assert(vals[c] is Some);
    assert(!is_leaf(kids[i], n));
    assert(step(own, kids, vals)[i] == hull_over(vals, kids[i], kids[i].len() as int));
    lemma_hull_covers(vals, kids[i], kids[i].len() as int, k);
}

} // verus!
