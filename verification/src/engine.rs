//! The hierarchy engine of the store: linking the records into their
//! hierarchy, and propagating the intervals of the leaves to the records above
//! them.

use vstd::prelude::*;
use crate::error::GffError;
use crate::group::{entries_of, entry_of, Transcriptome};
use crate::hierarchy::{
    anomalies_among, children_among, dangling_among, dangling_at, first_unplaced, hull_over,
    is_leaf, join, lemma_resolved_idempotent, lemma_spans_stable, linked, parent_of, placed_all,
    reports, resolved, same_but_links, spans, step, DanglingParent, Span,
};
use crate::interval::Interval;
use crate::object::GffObject;
use crate::utils::Types;

verus! {

impl Transcriptome {
    /// The first position whose record does not know it, if there is one.
    fn find_unplaced(&self) -> (r: Option<usize>)
        ensures
            match r {
                Some(index) => first_unplaced(self.records(), index as int),
                None => placed_all(self.records()),
            },
    {
        let mut i: usize = 0;
        while i < self.objects.len()
            invariant
                i <= self.objects@.len(),
                forall|k: int| 0 <= k < i ==> (#[trigger] self.objects@[k]).id == Some(k as usize),
            decreases self.objects@.len() - i,
        {
            match self.objects[i].id {
                Some(x) => {
                    if x != i {
                        return Some(i);
                    }
                },
                None => {
                    return Some(i);
                },
            }
            i += 1;
        }
        None
    }

    /// The positions of the records that are out of place in a hierarchy:
    /// those that name no parent and are no gene. Nothing is done about
    /// them.
    pub fn anomalies(&self) -> (r: Vec<usize>)
        ensures
            r@ == anomalies_among(self.records(), self.records().len() as int),
    {
        let mut r: Vec<usize> = Vec::new();
        let mut i: usize = 0;
        while i < self.objects.len()
            invariant
                i <= self.objects@.len(),
                r@ == anomalies_among(self.objects@, i as int),
            decreases self.objects@.len() - i,
        {
            let obj = &self.objects[i];
            if obj.parent_id_str.is_none() && obj.g_type != Types::Gene {
                r.push(i);
            }
            i += 1;
        }
        r
    }

    /// The collect pass: the parent that each record resolves to, and the
    /// records whose parent is missing.
    fn collect_parents(&self) -> (r: (Vec<Option<usize>>, Vec<DanglingParent>))
        requires
            self.wf(),
        ensures
            r.0@.len() == self.records().len(),
            forall|i: int|
                0 <= i < r.0@.len() ==> #[trigger] r.0@[i] == parent_of(
                    self.records(),
                    self.identities(),
                    i,
                ),
            forall|i: int|
                0 <= i < r.0@.len() && (#[trigger] r.0@[i]) is Some ==> r.0@[i]->Some_0
                    < self.records().len(),
            reports(r.1@, self.records(), self.identities(), self.records().len() as int),
    {
        let ghost records = self.objects@;
        let ghost ids = self.id_map@;
        let mut parents: Vec<Option<usize>> = Vec::new();
        let mut dangling: Vec<DanglingParent> = Vec::new();
        let mut i: usize = 0;
        while i < self.objects.len()
            invariant
                i <= self.objects@.len(),
                self.wf(),
                records == self.objects@,
                ids == self.id_map@,
                parents@.len() == i,
                forall|k: int| 0 <= k < i ==> #[trigger] parents@[k] == parent_of(records, ids, k),
                forall|k: int|
                    0 <= k < i && (#[trigger] parents@[k]) is Some ==> parents@[k]->Some_0
                        < records.len(),
                reports(dangling@, records, ids, i as int),
            decreases self.objects@.len() - i,
        {
            let ghost report = dangling@;
            let mut found: Option<usize> = None;
            match &self.objects[i].parent_id_str {
                Some(p) => {
                    match self.id_map.get(p.as_str()) {
                        Some(j) => {
                            if *j != i {
                                found = Some(*j);
                            }
                        },
                        None => {},
                    }
                    if found.is_none() {
                        dangling.push(DanglingParent { child: i, parent_id: p.clone() });
                    }
                },
                None => {},
            }
            parents.push(found);
            i += 1;
            proof {
                let missing = dangling_among(records, ids, i as int);
                assert forall|k: int| 0 <= k < dangling@.len() implies {
                    &&& (#[trigger] dangling@[k]).child == missing[k]
                    &&& dangling@[k].child < i
                    &&& dangling_at(records, ids, dangling@[k].child as int)
                    &&& Some(dangling@[k].parent_id)
                        == records[dangling@[k].child as int].parent_id_str
                } by {
                    if k < report.len() {
                        assert(dangling@[k] == report[k]);
                    }
                }
            }
        }
        (parents, dangling)
    }

    /// Links the records into their hierarchy.
    ///
    /// Each record that names a parent is looked up by that identity. Where
    /// the identity leads to another record, the record becomes a child of
    /// that one; the children of a record stand in arena order. Where it
    /// leads nowhere, or to the record itself, the record is reported as one
    /// whose parent is missing, and has no parent. Links from an earlier run
    /// are replaced.
    ///
    /// Nothing is linked, and the store stays as it is, where a record does
    /// not know its position.
    pub fn finalize(&mut self) -> (r: Result<Vec<DanglingParent>, GffError>)
        requires
            old(self).wf(),
        ensures
            final(self).wf(),
            final(self).identities() == old(self).identities(),
            final(self).duplicates() == old(self).duplicates(),
            final(self).rebuilds() == old(self).rebuilds(),
            final(self).indexed() == old(self).indexed(),
            match r {
                Ok(report) => {
                    &&& placed_all(old(self).records())
                    &&& linked(old(self).records(), old(self).identities(), final(self).records())
                    &&& reports(
                        report@,
                        old(self).records(),
                        old(self).identities(),
                        old(self).records().len() as int,
                    )
                },
                Err(e) => {
                    &&& final(self).records() == old(self).records()
                    &&& match e {
                        GffError::Unplaced { index } => first_unplaced(
                            old(self).records(),
                            index as int,
                        ),
                        _ => false,
                    }
                },
            },
    {
        match self.find_unplaced() {
            Some(index) => {
                return Err(GffError::Unplaced { index });
            },
            None => {},
        }
        let (parents, report) = self.collect_parents();
        let ghost before = self.objects@;
        let ghost ids = self.id_map@;
        let ghost start = *self;
        let n = self.objects.len();
        let mut j: usize = 0;
        while j < n
            invariant
                self.id_map == start.id_map,
                self.tree == start.tree,
                self.is_indexed == start.is_indexed,
                self.n_duplicates == start.n_duplicates,
                self.n_rebuilds == start.n_rebuilds,
                j <= n,
                n == before.len(),
                self.objects@.len() == n,
                parents@.len() == n,
                forall|k: int| 0 <= k < n ==> #[trigger] parents@[k] == parent_of(before, ids, k),
                forall|k: int|
                    0 <= k < j ==> same_but_links(before[k], #[trigger] self.objects@[k])
                        && self.objects@[k].parent == parent_of(before, ids, k)
                        && self.objects@[k].children@ == Seq::<usize>::empty(),
                forall|k: int| j <= k < n ==> #[trigger] self.objects@[k] == before[k],
            decreases n - j,
        {
            self.objects[j].children = Vec::new();
            self.objects[j].parent = parents[j];
            j += 1;
        }
        let mut i: usize = 0;
        while i < n
            invariant
                self.id_map == start.id_map,
                self.tree == start.tree,
                self.is_indexed == start.is_indexed,
                self.n_duplicates == start.n_duplicates,
                self.n_rebuilds == start.n_rebuilds,
                i <= n,
                n == before.len(),
                self.objects@.len() == n,
                parents@.len() == n,
                forall|k: int| 0 <= k < n ==> #[trigger] parents@[k] == parent_of(before, ids, k),
                forall|k: int|
                    0 <= k < n && (#[trigger] parents@[k]) is Some ==> parents@[k]->Some_0 < n,
                forall|k: int|
                    0 <= k < n ==> same_but_links(before[k], #[trigger] self.objects@[k])
                        && self.objects@[k].parent == parent_of(before, ids, k)
                        && self.objects@[k].children@ == children_among(before, ids, k, i as int),
            decreases n - i,
        {
            match parents[i] {
                Some(p) => {
                    self.objects[p].children.push(i);
                },
                None => {},
            }
            i += 1;
        }
        proof {
            assert(entries_of(self.objects@) =~= entries_of(before)) by {
                assert forall|k: int| 0 <= k < n implies entry_of(self.objects@[k], k)
                    == entry_of(before[k], k) by {
                    assert(same_but_links(before[k], self.objects@[k]));
                }
            }
        }
        Ok(report)
    }
}

/// The bounds of the intervals of the records.
pub open spec fn own_of(records: Seq<GffObject>) -> Seq<(int, int)> {
    Seq::new(records.len(), |i: int| records[i].interval@)
}

/// The children of the records.
pub open spec fn kids_of(records: Seq<GffObject>) -> Seq<Seq<usize>> {
    Seq::new(records.len(), |i: int| records[i].children@)
}

/// Whether two records differ in nothing but their interval.
pub open spec fn same_but_interval(a: GffObject, b: GffObject) -> bool {
    &&& a.seqid == b.seqid
    &&& a.strand == b.strand
    &&& a.source == b.source
    &&& a.g_type == b.g_type
    &&& a.attrs == b.attrs
    &&& a.extra_attrs == b.extra_attrs
    &&& a.id == b.id
    &&& a.children == b.children
    &&& a.parent == b.parent
    &&& a.id_str == b.id_str
    &&& a.parent_id_str == b.parent_id_str
}

/// Whether `after` holds the records of `before` with the intervals that
/// propagation from the leaves gives them.
pub open spec fn spanned(before: Seq<GffObject>, after: Seq<GffObject>) -> bool {
    &&& after.len() == before.len()
    &&& forall|i: int|
        0 <= i < before.len() ==> {
            &&& same_but_interval(before[i], #[trigger] after[i])
            &&& after[i].interval@ == resolved(own_of(before), kids_of(before))[i]
        }
}

/// Propagation is repeatable: propagating the intervals of records whose
/// intervals were propagated already changes no interval.
pub proof fn lemma_spanned_again(a: Seq<GffObject>, b: Seq<GffObject>, c: Seq<GffObject>)
    requires
        spanned(a, b),
        spanned(b, c),
    ensures
        forall|i: int| 0 <= i < a.len() ==> (#[trigger] c[i]).interval@ == b[i].interval@,
{
    let own = own_of(a);
    let kids = kids_of(a);
    assert(kids_of(b) =~= kids) by {
        assert forall|i: int| 0 <= i < a.len() implies kids_of(b)[i] == kids[i] by {
            assert(same_but_interval(a[i], b[i]));
        }
    }
    assert(own_of(b) =~= resolved(own, kids));
    lemma_resolved_idempotent(own, kids);
    assert forall|i: int| 0 <= i < a.len() implies (#[trigger] c[i]).interval@
        == b[i].interval@ by {
        assert(c[i].interval@ == resolved(own_of(b), kids_of(b))[i]);
        assert(b[i].interval@ == resolved(own, kids)[i]);
    }
}

/// The bounds of an interval that may be known.
pub open spec fn span_of(v: Option<Interval>) -> Span {
    match v {
        Some(i) => Some(i@),
        None => None,
    }
}

/// The bounds of the intervals that are known.
pub open spec fn span_views(v: Seq<Option<Interval>>) -> Seq<Span> {
    Seq::new(v.len(), |i: int| span_of(v[i]))
}

/// The smallest interval that covers what is known of both.
fn join_spans(a: Option<Interval>, b: Option<Interval>) -> (r: Option<Interval>)
    ensures
        span_of(r) == join(span_of(a), span_of(b)),
{
    match a {
        None => b,
        Some(p) => match b {
            None => Some(p),
            Some(q) => Some(p.hull(&q)),
        },
    }
}

/// Whether the same is known of both.
fn same_span(a: &Option<Interval>, b: &Option<Interval>) -> (r: bool)
    ensures
        r == (span_of(*a) == span_of(*b)),
{
    match a {
        None => b.is_none(),
        Some(p) => match b {
            None => false,
            Some(q) => p.same(q),
        },
    }
}

impl Transcriptome {
    /// One round of propagation over all records.
    fn propagate(&self, cur: &Vec<Option<Interval>>) -> (next: Vec<Option<Interval>>)
        requires
            cur@.len() == self.records().len(),
        ensures
            span_views(next@) == step(
                own_of(self.records()),
                kids_of(self.records()),
                span_views(cur@),
            ),
    {
        let n = self.objects.len();
        let ghost own = own_of(self.objects@);
        let ghost kids = kids_of(self.objects@);
        let ghost vals = span_views(cur@);
        let mut next: Vec<Option<Interval>> = Vec::new();
        let mut i: usize = 0;
        while i < n
            invariant
                i <= n,
                n == self.objects@.len(),
                cur@.len() == n,
                own == own_of(self.objects@),
                kids == kids_of(self.objects@),
                vals == span_views(cur@),
                next@.len() == i,
                forall|k: int|
                    0 <= k < i ==> span_of(#[trigger] next@[k]) == step(own, kids, vals)[k],
            decreases n - i,
        {
            let children = &self.objects[i].children;
            let mut leaf = true;
            let mut hull: Option<Interval> = None;
            let mut k: usize = 0;
            while k < children.len()
                invariant
                    k <= children@.len(),
                    cur@.len() == n,
                    vals == span_views(cur@),
                    leaf == is_leaf(children@.subrange(0, k as int), n as int),
                    span_of(hull) == hull_over(vals, children@, k as int),
                decreases children@.len() - k,
            {
                let c = children[k];
                let ghost seen = children@.subrange(0, k as int);
                let ghost more = children@.subrange(0, k + 1);
                proof {
                    assert(more[k as int] == c);
                    assert forall|x: int| 0 <= x < seen.len() implies seen[x] == more[x] by {}
                    if is_leaf(more, n as int) {
                        assert forall|x: int| 0 <= x < seen.len() implies #[trigger] seen[x]
                            >= n by {
                            assert(more[x] >= n);
                        }
                    }
                }
                if c < n {
                    leaf = false;
                    hull = join_spans(hull, cur[c]);
                }
                k += 1;
            }
            proof {
                assert(children@.subrange(0, children@.len() as int) =~= children@);
                assert(kids[i as int] == children@);
            }
            let value = if leaf {
                Some(self.objects[i].interval)
            } else {
                hull
            };
            next.push(value);
            i += 1;
        }
        proof {
            assert(span_views(next@) =~= step(own, kids, vals));
        }
        next
    }

    /// Sets the interval of every record with children to the span of the
    /// leaves below it.
    ///
    /// A record without stored children is a leaf and keeps its interval. In
    /// rounds, each other record takes the span over what is known of its
    /// children, until a round changes nothing, and for at most as many
    /// rounds as there are records. A record below which there is no leaf
    /// keeps its interval. An interval that changes makes the interval index
    /// invalid.
    pub fn reset_intervals(&mut self)
        requires
            old(self).wf(),
        ensures
            final(self).wf(),
            final(self).identities() == old(self).identities(),
            final(self).duplicates() == old(self).duplicates(),
            final(self).rebuilds() == old(self).rebuilds(),
            spanned(old(self).records(), final(self).records()),
            final(self).indexed() == (old(self).indexed() && own_of(final(self).records())
                == own_of(old(self).records())),
    {
        let n = self.objects.len();
        let ghost before = self.objects@;
        let ghost own = own_of(before);
        let ghost kids = kids_of(before);
        let mut cur: Vec<Option<Interval>> = Vec::new();
        let mut i: usize = 0;
        while i < n
            invariant
                i <= n,
                cur@.len() == i,
                forall|k: int| 0 <= k < i ==> (#[trigger] cur@[k]) is None,
            decreases n - i,
        {
            cur.push(None);
            i += 1;
        }
        proof {
            assert(span_views(cur@) =~= spans(own, kids, 0));
        }
        let mut d: usize = 0;
        while d < n
            invariant
                d <= n,
                n == before.len(),
                self.objects@ == before,
                own == own_of(before),
                kids == kids_of(before),
                cur@.len() == n,
                span_views(cur@) == spans(own, kids, d as int),
            ensures
                cur@.len() == n,
                span_views(cur@) == spans(own, kids, n as int),
            decreases n - d,
        {
            let next = self.propagate(&cur);
            assert(next@.len() == n) by {
                assert(span_views(next@).len() == n);
            }
            let mut settled = true;
            let mut k: usize = 0;
            while k < n
                invariant
                    k <= n,
                    cur@.len() == n,
                    next@.len() == n,
                    settled == (forall|x: int|
                        0 <= x < k ==> span_of(#[trigger] next@[x]) == span_of(cur@[x])),
                decreases n - k,
            {
                if !same_span(&next[k], &cur[k]) {
                    settled = false;
                }
                k += 1;
            }
            if settled {
                proof {
                    assert(span_views(next@) =~= span_views(cur@));
                    lemma_spans_stable(own, kids, d as int, n as int);
                }
                break ;
            }
            cur = next;
            d += 1;
        }
        let ghost start = *self;
        let ghost want = resolved(own, kids);
        let mut changed = false;
        let mut j: usize = 0;
        while j < n
            invariant
                self.id_map == start.id_map,
                self.tree == start.tree,
                self.is_indexed == start.is_indexed,
                self.n_duplicates == start.n_duplicates,
                self.n_rebuilds == start.n_rebuilds,
                start.objects@ == before,
                j <= n,
                n == before.len(),
                self.objects@.len() == n,
                cur@.len() == n,
                own == own_of(before),
                kids == kids_of(before),
                want == resolved(own, kids),
                span_views(cur@) == spans(own, kids, n as int),
                forall|k: int|
                    0 <= k < j ==> same_but_interval(before[k], #[trigger] self.objects@[k])
                        && self.objects@[k].interval@ == want[k],
                forall|k: int| j <= k < n ==> #[trigger] self.objects@[k] == before[k],
                changed == (exists|k: int|
                    0 <= k < j && (#[trigger] self.objects@[k]).interval@ != before[k].interval@),
            decreases n - j,
        {
            proof {
                assert(span_views(cur@)[j as int] == span_of(cur@[j as int]));
                assert(own[j as int] == before[j as int].interval@);
            }
            let ghost seen = self.objects@;
            let mut differs = false;
            match cur[j] {
                Some(v) => {
                    if !v.same(&self.objects[j].interval) {
                        differs = true;
                        self.objects[j].interval = v;
                    }
                },
                None => {},
            }
            proof {
                assert forall|k: int| 0 <= k < j implies self.objects@[k] == seen[k] by {}
                if changed {
                    let k = choose|k: int|
                        0 <= k < j && (#[trigger] seen[k]).interval@ != before[k].interval@;
                    assert(self.objects@[k].interval@ != before[k].interval@);
                }
                if differs {
                    assert(self.objects@[j as int].interval@ != before[j as int].interval@);
                }
                if !changed && !differs {
                    assert forall|k: int| 0 <= k < j + 1 implies !((
                    #[trigger] self.objects@[k]).interval@ != before[k].interval@) by {
                        if k < j {
                            assert(seen[k].interval@ == before[k].interval@);
                        }
                    }
                }
            }
            if differs {
                changed = true;
            }
            j += 1;
        }
        proof {
            if changed {
                let k = choose|k: int|
                    0 <= k < n && (#[trigger] self.objects@[k]).interval@ != before[k].interval@;
                assert(own_of(self.objects@)[k] != own_of(before)[k]);
            } else {
                assert(own_of(self.objects@) =~= own_of(before));
                assert(entries_of(self.objects@) =~= entries_of(before)) by {
                    assert forall|k: int| 0 <= k < n implies entry_of(self.objects@[k], k)
                        == entry_of(before[k], k) by {
                        assert(self.objects@[k].interval@ == before[k].interval@);
                    }
                }
            }
        }
        if changed {
            self.is_indexed = false;
        }
    }
}

} // verus!
