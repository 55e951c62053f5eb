//! The interval index of the store: building it, and the range queries that
//! it answers.

use vstd::prelude::*;
use crate::group::{entries_of, entry_of, Transcriptome};
use crate::interval::Interval;
use crate::object::GffObject;
use crate::tree::{
    entry_meets, hit_positions, hits, keeps_ties, lemma_hits, sorted_by_start, tree_entries,
    tree_find, tree_index, tree_indexed, tree_insert, tree_new, Entry,
};

verus! {

/// Whether the record at position `i` lies on the sequence `seqid` and its
/// interval shares a coordinate with `query`.
pub open spec fn overlaps_at(
    records: Seq<GffObject>,
    i: int,
    seqid: Seq<char>,
    query: Interval,
) -> bool {
    &&& 0 <= i < records.len()
    &&& records[i].seqid@ == seqid
    &&& records[i].interval.meets(&query)
}

/// Whether the record at position `i` lies on the sequence `seqid` and its
/// interval covers `query`.
pub open spec fn contains_at(
    records: Seq<GffObject>,
    i: int,
    seqid: Seq<char>,
    query: Interval,
) -> bool {
    &&& 0 <= i < records.len()
    &&& records[i].seqid@ == seqid
    &&& records[i].interval.covers(&query)
}

/// A record that covers the query shares a coordinate with it: what the
/// containment query returns is among what the overlap query returns.
pub proof fn lemma_contains_within_overlap(
    records: Seq<GffObject>,
    i: int,
    seqid: Seq<char>,
    query: Interval,
)
    requires
        query.lo() <= query.hi(),
        contains_at(records, i, seqid, query),
    ensures
        overlaps_at(records, i, seqid, query),
{
}

/// Whether the positions name records in the order of their starts, and
/// records with the same start in the order of their positions.
pub open spec fn by_start(records: Seq<GffObject>, r: Seq<usize>) -> bool {
    forall|a: int, b: int|
        0 <= a < b < r.len() ==> {
            let x = records[(#[trigger] r[a]) as int].interval.lo();
            let y = records[(#[trigger] r[b]) as int].interval.lo();
            x < y || (x == y && r[a] < r[b])
        }
}

/// What a query of an index that holds the records returns: each position
/// once, exactly those whose interval shares a coordinate with the query, in
/// the order of their starts and, among equal starts, of their positions.
proof fn lemma_index_hits(records: Seq<GffObject>, e: Seq<Entry>, query: Interval)
    requires
        records.len() <= usize::MAX,
        e.to_multiset() == entries_of(records).to_multiset(),
        sorted_by_start(e),
        keeps_ties(entries_of(records), e),
    ensures
        ({
            let h = hits(e, query.lo() as u128, (query.hi() + 1) as u128);
            &&& h.no_duplicates()
            &&& forall|i: usize|
                h.contains(i) <==> (i < records.len() && records[i as int].interval.meets(&query))
            &&& forall|a: int| 0 <= a < h.len() ==> (#[trigger] h[a]) < records.len()
            &&& by_start(records, h)
        }),
{
    broadcast use vstd::seq_lib::to_multiset_contains;

    let lo = query.lo() as u128;
    let hi = (query.hi() + 1) as u128;
    let x = entries_of(records);
    let h = hits(e, lo, hi);
    let p = hit_positions(e, lo, hi);
    query.lemma_bounds();
    lemma_hits(e, lo, hi);
    assert forall|i: int, j: int| 0 <= i < x.len() && 0 <= j < x.len() && i != j implies x[i]
        != x[j] by {
        assert(x[i].2 == i && x[j].2 == j);
    }
    assert(x.no_duplicates());
    x.lemma_multiset_has_no_duplicates();
    e.lemma_multiset_has_no_duplicates_conv();
    // each entry of the index is the entry of the record that it names
    assert forall|k: int| 0 <= k < e.len() implies (#[trigger] e[k]).2 < records.len() && e[k]
        == entry_of(records[e[k].2 as int], e[k].2 as int) by {
        assert(e.contains(e[k]));
        assert(e.to_multiset().count(e[k]) > 0);
        assert(x.contains(e[k]));
        let j = choose|j: int| 0 <= j < x.len() && x[j] == e[k];
        assert(x[j].2 == j);
    }
    assert forall|k: int| 0 <= k < e.len() implies (entry_meets(#[trigger] e[k], lo, hi)
        <==> records[e[k].2 as int].interval.meets(&query)) by {
        records[e[k].2 as int].interval.lemma_bounds();
    }
    assert forall|a: int, b: int| 0 <= a < h.len() && 0 <= b < h.len() && a != b implies h[a]
        != h[b] by {
        let ka = p[a];
        let kb = p[b];
        if a < b {
            assert(p[a] < p[b]);
        } else {
            assert(p[b] < p[a]);
        }
        if h[a] == h[b] {
            assert(e[ka] == e[kb]);
        }
    }
    assert forall|i: usize|
        h.contains(i) <==> (i < records.len() && records[i as int].interval.meets(&query)) by {
        if h.contains(i) {
            let a = choose|a: int| 0 <= a < h.len() && h[a] == i;
            let k = p[a];
            assert(e[k].2 == i);
        }
        if i < records.len() && records[i as int].interval.meets(&query) {
            assert(x[i as int] == entry_of(records[i as int], i as int));
            assert(x.contains(x[i as int]));
            assert(x.to_multiset().count(x[i as int]) > 0);
            assert(e.contains(x[i as int]));
            let k = choose|k: int| 0 <= k < e.len() && e[k] == x[i as int];
            assert(e[k].2 == i);
            assert(entry_meets(e[k], lo, hi));
            assert(p.contains(k));
            let a = choose|a: int| 0 <= a < p.len() && p[a] == k;
            assert(h[a] == i);
        }
    }
    assert forall|a: int| 0 <= a < h.len() implies (#[trigger] h[a]) < records.len() by {
        let k = p[a];
        assert(h[a] == e[k].2);
    }
    assert forall|a: int, b: int| 0 <= a < b < h.len() implies {
        let s = records[(#[trigger] h[a]) as int].interval.lo();
        let t = records[(#[trigger] h[b]) as int].interval.lo();
        s < t || (s == t && h[a] < h[b])
    } by {
        let ka = p[a];
        let kb = p[b];
        assert(p[a] < p[b]);
        assert(e[ka].0 <= e[kb].0);
        records[h[a] as int].interval.lemma_bounds();
        records[h[b] as int].interval.lemma_bounds();
        assert(h[a] == e[ka].2 && h[b] == e[kb].2);
        if e[ka].0 == e[kb].0 && h[a] > h[b] {
            let first = h[b] as int;
            let second = h[a] as int;
            assert(x[first] == e[kb] && x[second] == e[ka]);
            assert(x[first].0 == x[second].0);
            let (u, v) = choose|u: int, v: int|
                0 <= u < v < e.len() && #[trigger] e[u] == x[first] && #[trigger] e[v]
                    == x[second];
            assert(u == kb && v == ka);
        }
    }
}

impl Transcriptome {
    /// The number of index builds after one more, as far as it can be
    /// counted.
    pub open spec fn one_more(n: nat) -> nat {
        if n < usize::MAX {
            n + 1
        } else {
            n
        }
    }

    /// The number of index builds after the index was made valid.
    pub open spec fn rebuilds_after(&self) -> nat {
        if self.indexed() {
            self.rebuilds()
        } else {
            Self::one_more(self.rebuilds())
        }
    }

    /// Makes the interval index valid. An index that is valid stays as it
    /// is; otherwise it is built anew over all records, and the count of
    /// builds grows by one.
    pub fn build_index(&mut self)
        requires
            old(self).wf(),
        ensures
            final(self).wf(),
            final(self).indexed(),
            final(self).records() == old(self).records(),
            final(self).identities() == old(self).identities(),
            final(self).duplicates() == old(self).duplicates(),
            final(self).rebuilds() == old(self).rebuilds_after(),
    {
        if self.is_indexed {
            return ;
        }
        let mut tree = tree_new();
        let mut i: usize = 0;
        while i < self.objects.len()
            invariant
                i <= self.objects@.len(),
                tree_entries(tree) == entries_of(self.objects@).subrange(0, i as int),
                !tree_indexed(tree),
            decreases self.objects@.len() - i,
        {
            let interval = &self.objects[i].interval;
            let lo: u128 = interval.start() as u128;
            let hi: u128 = interval.end() as u128 + 1;
            tree_insert(&mut tree, lo, hi, i);
            proof {
                assert(entries_of(self.objects@).subrange(0, i + 1) =~= entries_of(
                    self.objects@,
                ).subrange(0, i as int).push((lo, hi, i)));
            }
            i += 1;
        }
        proof {
            assert(entries_of(self.objects@).subrange(0, self.objects@.len() as int)
                =~= entries_of(self.objects@));
        }
        tree_index(&mut tree);
        self.tree = tree;
        self.is_indexed = true;
        if self.n_rebuilds < usize::MAX {
            self.n_rebuilds = self.n_rebuilds + 1;
        }
    }

    /// The positions of the records on `seqid` whose interval shares a
    /// coordinate with `interval`: each once, in the order of their starts
    /// and, among equal starts, of their positions. An index that is not
    /// valid is built first.
    pub fn query_overlap(&mut self, seqid: &str, interval: &Interval) -> (r: Vec<usize>)
        requires
            old(self).wf(),
        ensures
            final(self).wf(),
            final(self).indexed(),
            final(self).records() == old(self).records(),
            final(self).identities() == old(self).identities(),
            final(self).duplicates() == old(self).duplicates(),
            final(self).rebuilds() == old(self).rebuilds_after(),
            r@.no_duplicates(),
            forall|i: usize|
                r@.contains(i) <==> overlaps_at(old(self).records(), i as int, seqid@, *interval),
            by_start(old(self).records(), r@),
    {
        self.build_index();
        let lo: u128 = interval.start() as u128;
        let hi: u128 = interval.end() as u128 + 1;
        let found = tree_find(&self.tree, lo, hi);
        let wanted = seqid.to_owned();
        let ghost records = self.objects@;
        let n = self.objects.len();
        proof {
            lemma_index_hits(records, tree_entries(self.tree), *interval);
        }
        let mut r: Vec<usize> = Vec::new();
        let mut t: usize = 0;
        while t < found.len()
            invariant
                t <= found@.len(),
                records == self.objects@,
                wanted@ == seqid@,
                found@.no_duplicates(),
                forall|a: int| 0 <= a < found@.len() ==> (#[trigger] found@[a]) < records.len(),
                by_start(records, found@),
                forall|c: int|
                    0 <= c < r@.len() ==> exists|a: int|
                        0 <= a < t && found@[a] == #[trigger] r@[c] && records[r@[c] as int].seqid@
                            == seqid@,
                forall|a: int|
                    0 <= a < t && records[(#[trigger] found@[a]) as int].seqid@ == seqid@
                        ==> r@.contains(found@[a]),
                r@.no_duplicates(),
                by_start(records, r@),
            decreases found@.len() - t,
        {
            let oid = found[t];
            if self.objects[oid].seqid == wanted {
                proof {
                    assert forall|c: int| 0 <= c < r@.len() implies r@[c] != oid && ({
                        let x = records[r@[c] as int].interval.lo();
                        let y = records[oid as int].interval.lo();
                        x < y || (x == y && r@[c] < oid)
                    }) by {
                        let a = choose|a: int|
                            0 <= a < t && found@[a] == r@[c] && records[r@[c] as int].seqid@
                                == seqid@;
                        assert(found@[a] != found@[t as int]);
                    }
                }
                let ghost before = r@;
                r.push(oid);
                proof {
                    assert forall|a: int|
                        0 <= a < t + 1 && records[(#[trigger] found@[a]) as int].seqid@
                            == seqid@ implies r@.contains(found@[a]) by {
                        if a < t {
                            assert(before.contains(found@[a]));
                            let c = choose|c: int| 0 <= c < before.len() && before[c] == found@[a];
                            assert(r@[c] == found@[a]);
                        } else {
                            assert(r@[r@.len() - 1] == oid);
                        }
                    }
                    assert forall|c: int| 0 <= c < r@.len() implies exists|a: int|
                        0 <= a < t + 1 && found@[a] == #[trigger] r@[c]
                            && records[r@[c] as int].seqid@ == seqid@ by {
                        if c < before.len() {
                            assert(r@[c] == before[c]);
                            let a = choose|a: int|
                                0 <= a < t && found@[a] == before[c]
                                    && records[before[c] as int].seqid@ == seqid@;
                            assert(found@[a] == r@[c]);
                        } else {
                            assert(found@[t as int] == r@[c]);
                        }
                    }
                    assert forall|a: int, b: int| 0 <= a < b < r@.len() implies {
                        let x = records[(#[trigger] r@[a]) as int].interval.lo();
                        let y = records[(#[trigger] r@[b]) as int].interval.lo();
                        x < y || (x == y && r@[a] < r@[b])
                    } by {
                        if b < before.len() {
                            assert(r@[a] == before[a] && r@[b] == before[b]);
                        } else {
                            assert(r@[a] == before[a]);
                        }
                    }
                }
            }
            t += 1;
        }
        proof {
            assert forall|i: usize|
                r@.contains(i) <==> overlaps_at(records, i as int, seqid@, *interval) by {
                if r@.contains(i) {
                    let c = choose|c: int| 0 <= c < r@.len() && r@[c] == i;
                    let a = choose|a: int|
                        0 <= a < t && found@[a] == r@[c] && records[r@[c] as int].seqid@
                            == seqid@;
                    assert(found@.contains(i));
                }
                if overlaps_at(records, i as int, seqid@, *interval) {
                    assert(found@.contains(i));
                    let a = choose|a: int| 0 <= a < found@.len() && found@[a] == i;
                    assert(r@.contains(found@[a]));
                }
            }
        }
        r
    }

    /// The positions of the records on `seqid` whose interval covers
    /// `interval`: each once, in the order of their starts and, among equal
    /// starts, of their positions. An index that is not valid is built first.
    pub fn query_contains(&mut self, seqid: &str, interval: &Interval) -> (r: Vec<usize>)
        requires
            old(self).wf(),
        ensures
            final(self).wf(),
            final(self).indexed(),
            final(self).records() == old(self).records(),
            final(self).identities() == old(self).identities(),
            final(self).duplicates() == old(self).duplicates(),
            final(self).rebuilds() == old(self).rebuilds_after(),
            r@.no_duplicates(),
            forall|i: usize|
                r@.contains(i) <==> contains_at(old(self).records(), i as int, seqid@, *interval),
            by_start(old(self).records(), r@),
    {
        let found = self.query_overlap(seqid, interval);
        let ghost records = self.objects@;
        let qs = interval.start();
        let qe = interval.end();
        let mut r: Vec<usize> = Vec::new();
        let mut t: usize = 0;
        while t < found.len()
            invariant
                t <= found@.len(),
                records == self.objects@,
                qs == interval.lo(),
                qe == interval.hi(),
                qs <= qe,
                found@.no_duplicates(),
                forall|i: usize|
                    found@.contains(i) <==> overlaps_at(records, i as int, seqid@, *interval),
                by_start(records, found@),
                forall|c: int|
                    0 <= c < r@.len() ==> exists|a: int|
                        0 <= a < t && found@[a] == #[trigger] r@[c]
                            && records[r@[c] as int].interval.covers(interval),
                forall|a: int|
                    0 <= a < t && records[(#[trigger] found@[a]) as int].interval.covers(interval)
                        ==> r@.contains(found@[a]),
                r@.no_duplicates(),
                by_start(records, r@),
            decreases found@.len() - t,
        {
            let oid = found[t];
            assert(found@.contains(oid));
            assert(overlaps_at(records, oid as int, seqid@, *interval));
            if self.objects[oid].interval.contains(interval) {
                proof {
                    assert forall|c: int| 0 <= c < r@.len() implies r@[c] != oid && ({
                        let x = records[r@[c] as int].interval.lo();
                        let y = records[oid as int].interval.lo();
                        x < y || (x == y && r@[c] < oid)
                    }) by {
                        let a = choose|a: int|
                            0 <= a < t && found@[a] == r@[c]
                                && records[r@[c] as int].interval.covers(interval);
                        assert(found@[a] != found@[t as int]);
                    }
                }
                let ghost before = r@;
                r.push(oid);
                proof {
                    assert forall|a: int|
                        0 <= a < t + 1 && records[(#[trigger] found@[a]) as int].interval.covers(
                            interval,
                        ) implies r@.contains(found@[a]) by {
                        if a < t {
                            assert(before.contains(found@[a]));
                            let c = choose|c: int| 0 <= c < before.len() && before[c] == found@[a];
                            assert(r@[c] == found@[a]);
                        } else {
                            assert(r@[r@.len() - 1] == oid);
                        }
                    }
                    assert forall|c: int| 0 <= c < r@.len() implies exists|a: int|
                        0 <= a < t + 1 && found@[a] == #[trigger] r@[c]
                            && records[r@[c] as int].interval.covers(interval) by {
                        if c < before.len() {
                            assert(r@[c] == before[c]);
                            let a = choose|a: int|
                                0 <= a < t && found@[a] == before[c]
                                    && records[before[c] as int].interval.covers(interval);
                            assert(found@[a] == r@[c]);
                        } else {
                            assert(found@[t as int] == r@[c]);
                        }
                    }
                    assert forall|a: int, b: int| 0 <= a < b < r@.len() implies {
                        let x = records[(#[trigger] r@[a]) as int].interval.lo();
                        let y = records[(#[trigger] r@[b]) as int].interval.lo();
                        x < y || (x == y && r@[a] < r@[b])
                    } by {
                        if b < before.len() {
                            assert(r@[a] == before[a] && r@[b] == before[b]);
                        } else {
                            assert(r@[a] == before[a]);
                        }
                    }
                }
            }
            t += 1;
        }
        proof {
            assert forall|i: usize|
                r@.contains(i) <==> contains_at(records, i as int, seqid@, *interval) by {
                if r@.contains(i) {
                    let c = choose|c: int| 0 <= c < r@.len() && r@[c] == i;
                    let a = choose|a: int|
                        0 <= a < t && found@[a] == r@[c]
                            && records[r@[c] as int].interval.covers(interval);
                    assert(found@.contains(i));
                }
                if contains_at(records, i as int, seqid@, *interval) {
                    assert(overlaps_at(records, i as int, seqid@, *interval));
                    assert(found@.contains(i));
                    let a = choose|a: int| 0 <= a < found@.len() && found@[a] == i;
                    assert(r@.contains(found@[a]));
                }
            }
        }
        r
    }
}

} // verus!
