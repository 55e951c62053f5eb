//! Filling the store from readers and from the lines of files.

use vstd::prelude::*;
use crate::error::GffError;
use crate::group::{registered, taken, Transcriptome};
use crate::object::{line_fault, GffObject};
use crate::treader::{data_lines, file_dialect, line_texts, tagged, Pending, STReader, TReader};

verus! {

/// Whether the records from position `n0` on are those that the first `m`
/// lines spell, each at its place and without links.
pub open spec fn holds_lines(
    records: Seq<GffObject>,
    n0: int,
    lines: Seq<Pending>,
    m: int,
) -> bool {
    forall|p: int|
        n0 <= p < n0 + m ==> {
            &&& line_fault(lines[p - n0].0, lines[p - n0].1) is None
            &&& (#[trigger] records[p]).spells_content(lines[p - n0].0, lines[p - n0].1)
            &&& records[p].id == Some(p as usize)
            &&& records[p].children@.len() == 0
            &&& records[p].parent is None
        }
}

/// The lookup after the identities of the records from `from` up to `to`
/// were registered in arena order.
pub open spec fn registered_upto(
    identities: Map<Seq<char>, usize>,
    records: Seq<GffObject>,
    from: int,
    to: int,
) -> Map<Seq<char>, usize>
    decreases to - from,
{
    if to <= from {
        identities
    } else {
        registered(
            registered_upto(identities, records, from, to - 1),
            records[to - 1].id_str,
            (to - 1) as usize,
        )
    }
}

/// How many of the records from `from` up to `to` took an identity over
/// when they were registered in arena order.
pub open spec fn taken_upto(
    identities: Map<Seq<char>, usize>,
    records: Seq<GffObject>,
    from: int,
    to: int,
) -> nat
    decreases to - from,
{
    if to <= from {
        0
    } else {
        taken_upto(identities, records, from, to - 1) + (if taken(
            registered_upto(identities, records, from, to - 1),
            records[to - 1].id_str,
        ) {
            1nat
        } else {
            0nat
        })
    }
}

/// What is registered depends on the records in the range alone.
proof fn lemma_registered_same(
    identities: Map<Seq<char>, usize>,
    a: Seq<GffObject>,
    b: Seq<GffObject>,
    from: int,
    to: int,
)
    requires
        0 <= from,
        to <= a.len(),
        to <= b.len(),
        forall|p: int| from <= p < to ==> (#[trigger] a[p]).id_str == b[p].id_str,
    ensures
        registered_upto(identities, a, from, to) == registered_upto(identities, b, from, to),
        taken_upto(identities, a, from, to) == taken_upto(identities, b, from, to),
    decreases to - from,
{
    if to > from {
        lemma_registered_same(identities, a, b, from, to - 1);
        assert(a[to - 1].id_str == b[to - 1].id_str);
    }
}

/// Whether the store `after` holds, from position `n0` on, the records that
/// the first `m` of the lines spell, with their identities registered on top
/// of `identities` and the duplicates among them counted on top of
/// `duplicates`.
pub open spec fn grown(
    n0: int,
    identities: Map<Seq<char>, usize>,
    duplicates: nat,
    after: Transcriptome,
    lines: Seq<Pending>,
    m: int,
) -> bool {
    &&& 0 <= m <= lines.len()
    &&& after.records().len() == n0 + m
    &&& holds_lines(after.records(), n0, lines, m)
    &&& after.identities() == registered_upto(identities, after.records(), n0, n0 + m)
    &&& after.duplicates() == duplicates + taken_upto(identities, after.records(), n0, n0 + m)
}

/// Whether the store `after` is the store `before` with the records that the
/// first `m` of the lines spell behind its own. The interval index stays
/// valid only where nothing was added.
pub open spec fn ingested(
    before: Transcriptome,
    after: Transcriptome,
    lines: Seq<Pending>,
    m: int,
) -> bool {
    let n0 = before.records().len() as int;
    &&& grown(n0, before.identities(), before.duplicates(), after, lines, m)
    &&& after.records().subrange(0, n0) == before.records()
    &&& after.rebuilds() == before.rebuilds()
    &&& after.indexed() == (before.indexed() && m == 0)
}

/// Whether the line at position `m` is the first that is rejected, and `e`
/// the failure for it.
pub open spec fn rejects_at(lines: Seq<Pending>, m: int, e: GffError) -> bool {
    &&& 0 <= m < lines.len()
    &&& line_fault(lines[m].0, lines[m].1) is Some
    &&& e.is_malformed(lines[m].0, line_fault(lines[m].0, lines[m].1)->Some_0)
}

impl Transcriptome {
    /// Stores the records that the reader still has to give, in its order.
    ///
    /// Reading ends at the first line that is rejected: the records before
    /// it are stored, the failure for the line is returned, and the store
    /// stays valid.
    pub fn add_from_reader(&mut self, reader: &mut TReader) -> (r: Result<(), GffError>)
        requires
            old(self).wf(),
            old(reader).wf(),
        ensures
            final(self).wf(),
            final(reader).wf(),
            ingested(
                *old(self),
                *final(self),
                old(reader).pending(),
                final(self).records().len() - old(self).records().len(),
            ),
            match r {
                Ok(()) => final(self).records().len() - old(self).records().len()
                    == old(reader).pending().len() && final(reader).pending().len() == 0,
                Err(e) => rejects_at(
                    old(reader).pending(),
                    final(self).records().len() - old(self).records().len(),
                    e,
                ),
            },
    {
        let ghost lines = reader.pending();
        let ghost n0 = self.objects@.len() as int;
        proof {
            assert(self.records().subrange(0, n0) =~= self.records());
        }
        loop
            invariant
                self.wf(),
                reader.wf(),
                n0 == old(self).records().len(),
                lines == old(reader).pending(),
                ingested(*old(self), *self, lines, self.records().len() - n0),
                reader.pending() == lines.subrange(self.records().len() - n0, lines.len() as int),
            decreases reader.pending().len(),
        {
            let ghost m = self.objects@.len() - n0;
            let ghost seen = *self;
            match reader.next() {
                None => {
                    return Ok(());
                },
                Some(item) => {
                    proof {
                        assert(lines.subrange(m, lines.len() as int)[0] == lines[m]);
                    }
                    match item {
                        Ok(obj) => {
                            let oid = self.add_object(obj);
                            proof {
                                let now = self.records();
                                assert(now.subrange(0, n0) =~= seen.records().subrange(0, n0));
                                assert forall|p: int| n0 <= p < n0 + m implies now[p]
                                    == seen.records()[p] by {}
                                lemma_registered_same(
                                    old(self).identities(),
                                    now,
                                    seen.records(),
                                    n0,
                                    n0 + m,
                                );
                                assert(lines.subrange(m, lines.len() as int).drop_first()
                                    =~= lines.subrange(m + 1, lines.len() as int));
                            }
                        },
                        Err(e) => {
                            return Err(e);
                        },
                    }
                },
            }
        }
    }

    /// Whether the failure is one with which reading the file `fname` ends:
    /// the dialect cannot be told, or `m` lines are read and the next is
    /// rejected.
    pub open spec fn file_fails(
        e: GffError,
        fname: Seq<char>,
        lines: Seq<Seq<char>>,
        m: int,
    ) -> bool {
        match file_dialect(lines, 0) {
            Ok(gff) => rejects_at(tagged(data_lines(lines, 0), gff), m, e),
            Err(_) => m == 0 && STReader::detection_fails(e, fname, lines),
        }
    }

    /// The lines of a file that carry a record, each with the dialect that
    /// is detected for the file; none where the dialect cannot be told.
    pub open spec fn file_lines(lines: Seq<Seq<char>>) -> Seq<Pending> {
        match file_dialect(lines, 0) {
            Ok(gff) => tagged(data_lines(lines, 0), gff),
            Err(_) => Seq::empty(),
        }
    }

    /// Stores the records of the file `fname`, given by its lines, behind
    /// those that are stored.
    ///
    /// The dialect is detected from the lines. Reading ends at the first line
    /// that is rejected: the records before it are stored, and the failure
    /// is returned. Nothing is stored where the dialect cannot be told.
    pub fn add_from_file(&mut self, fname: &str, lines: Vec<String>) -> (r: Result<(), GffError>)
        requires
            old(self).wf(),
        ensures
            final(self).wf(),
            ingested(
                *old(self),
                *final(self),
                Self::file_lines(line_texts(lines@)),
                final(self).records().len() - old(self).records().len(),
            ),
            match r {
                Ok(()) => file_dialect(line_texts(lines@), 0) is Ok
                    && final(self).records().len() - old(self).records().len()
                    == Self::file_lines(line_texts(lines@)).len(),
                Err(e) => Self::file_fails(
                    e,
                    fname@,
                    line_texts(lines@),
                    final(self).records().len() - old(self).records().len(),
                ),
            },
    {
        proof {
            assert(self.records().subrange(0, self.records().len() as int) =~= self.records());
        }
        match TReader::new(Some((fname, lines))) {
            Ok(mut reader) => self.add_from_reader(&mut reader),
            Err(e) => Err(e),
        }
    }

    /// The store of the records of the file `fname`, given by its lines.
    pub fn from_file(fname: &str, lines: Vec<String>) -> (r: Result<Transcriptome, GffError>)
        ensures
            match r {
                Ok(store) => {
                    &&& store.wf()
                    &&& file_dialect(line_texts(lines@), 0) is Ok
                    &&& grown(
                        0,
                        Map::<Seq<char>, usize>::empty(),
                        0,
                        store,
                        Self::file_lines(line_texts(lines@)),
                        Self::file_lines(line_texts(lines@)).len() as int,
                    )
                    &&& store.rebuilds() == 0
                    &&& !store.indexed()
                },
                Err(e) => exists|m: int| Self::file_fails(e, fname@, line_texts(lines@), m),
            },
    {
        let mut store = Transcriptome::new();
        let ghost fresh = store;
        match store.add_from_file(fname, lines) {
            Ok(()) => Ok(store),
            Err(e) => {
                proof {
                    let m = store.records().len() - fresh.records().len();
                    assert(Self::file_fails(e, fname@, line_texts(lines@), m));
                }
                Err(e)
            },
        }
    }
}

} // verus!
