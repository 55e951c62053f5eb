//! The feature store: an arena of records with a lookup by identity and an
//! interval index.
//!
//! The store owns its records and hands them out by position. The interval
//! index, the hierarchy engine and the readers work on it from their own
//! modules.

use vstd::prelude::*;
use vstd::hash_map::StringHashMap;
use bio::data_structures::interval_tree::ArrayBackedIntervalTree;
use crate::error::GffError;
use crate::hierarchy::placed_all;
use crate::object::{GffObject, GffObjectT};
use crate::transcript::TranscriptRef;
use crate::tree::{keeps_ties, sorted_by_start, tree_entries, tree_indexed, tree_new, Entry};
use crate::utils::Types;

verus! {

/// The entry under which the interval index holds the record at position
/// `i`: the closed interval of the record as a half-open one, with `i` as
/// data.
pub open spec fn entry_of(obj: GffObject, i: int) -> Entry {
    (obj.interval.lo() as u128, (obj.interval.hi() + 1) as u128, i as usize)
}

/// The entries of the interval index of the records, in arena order.
pub open spec fn entries_of(records: Seq<GffObject>) -> Seq<Entry> {
    Seq::new(records.len(), |i: int| entry_of(records[i], i))
}

/// The record `obj` as the store keeps it at position `oid`.
pub open spec fn placed(obj: GffObject, oid: usize) -> GffObject {
    GffObject { id: Some(oid), ..obj }
}

/// The lookup after a record with the identity `id_str` was stored at
/// position `oid`: a later record takes the identity over from an earlier one.
pub open spec fn registered(
    identities: Map<Seq<char>, usize>,
    id_str: Option<String>,
    oid: usize,
) -> Map<Seq<char>, usize> {
    match id_str {
        Some(s) => identities.insert(s@, oid),
        None => identities,
    }
}

/// Whether the identity `id_str` is one that the lookup already holds.
pub open spec fn taken(identities: Map<Seq<char>, usize>, id_str: Option<String>) -> bool {
    match id_str {
        Some(s) => identities.contains_key(s@),
        None => false,
    }
}

/// The feature store.
pub struct Transcriptome {
    /// The arena: the records, each at its position.
    pub(crate) objects: Vec<GffObject>,
    /// The position under which each identity is registered.
    pub(crate) id_map: StringHashMap<usize>,
    /// The interval index; it tells the truth only while `is_indexed` holds.
    pub(crate) tree: ArrayBackedIntervalTree<u128, usize>,
    /// Whether the interval index reflects the records.
    pub(crate) is_indexed: bool,
    /// How many records took an identity over from an earlier record.
    pub(crate) n_duplicates: usize,
    /// How many times the interval index was built.
    pub(crate) n_rebuilds: usize,
}

impl Transcriptome {
    /// The records in arena order.
    pub open(crate) spec fn records(&self) -> Seq<GffObject> {
        self.objects@
    }

    /// The lookup from identity to arena position.
    pub open(crate) spec fn identities(&self) -> Map<Seq<char>, usize> {
        self.id_map@
    }

    /// Whether the interval index reflects the records.
    pub open(crate) spec fn indexed(&self) -> bool {
        self.is_indexed
    }

    /// How many records took an identity over from an earlier record.
    pub open(crate) spec fn duplicates(&self) -> nat {
        self.n_duplicates as nat
    }

    /// How many times the interval index was built.
    pub open(crate) spec fn rebuilds(&self) -> nat {
        self.n_rebuilds as nat
    }

    /// The invariant of the store: every identity leads to a stored record,
    /// at most one identity was taken over per record, and an index that
    /// counts as valid holds exactly the intervals of the records, in the
    /// order of their starts and, among equal starts, of their positions.
    pub open(crate) spec fn wf(&self) -> bool {
        &&& forall|k: Seq<char>| #[trigger]
            self.id_map@.contains_key(k) ==> self.id_map@[k] < self.objects@.len()
        &&& self.n_duplicates <= self.objects@.len()
        &&& self.is_indexed ==> {
            &&& tree_indexed(self.tree)
            &&& sorted_by_start(tree_entries(self.tree))
            &&& tree_entries(self.tree).to_multiset() == entries_of(self.objects@).to_multiset()
            &&& keeps_ties(entries_of(self.objects@), tree_entries(self.tree))
        }
    }

    /// Every identity of a well-formed store leads to a stored record.
    pub proof fn lemma_identities_in_range(&self, k: Seq<char>)
        requires
            self.wf(),
            self.identities().contains_key(k),
        ensures
            self.identities()[k] < self.records().len(),
    {
    }

    /// The empty store.
    pub fn new() -> (s: Transcriptome)
        ensures
            s.wf(),
            s.records() == Seq::<GffObject>::empty(),
            s.identities() == Map::<Seq<char>, usize>::empty(),
            !s.indexed(),
            s.duplicates() == 0,
            s.rebuilds() == 0,
    {
        Transcriptome {
            objects: Vec::new(),
            id_map: StringHashMap::new(),
            tree: tree_new(),
            is_indexed: false,
            n_duplicates: 0,
            n_rebuilds: 0,
        }
    }

    /// The number of records.
    pub fn len(&self) -> (n: usize)
        ensures
            n == self.records().len(),
    {
        self.objects.len()
    }

    /// The records in arena order.
    pub fn objects(&self) -> (r: &Vec<GffObject>)
        ensures
            r@ == self.records(),
    {
        &self.objects
    }

    /// Whether the interval index reflects the records.
    pub fn is_indexed(&self) -> (b: bool)
        ensures
            b == self.indexed(),
    {
        self.is_indexed
    }

    /// How many records took an identity over from an earlier record.
    pub fn duplicate_count(&self) -> (n: usize)
        ensures
            n == self.duplicates(),
    {
        self.n_duplicates
    }

    /// How many times the interval index was built.
    pub fn rebuild_count(&self) -> (n: usize)
        ensures
            n == self.rebuilds(),
    {
        self.n_rebuilds
    }

    /// The position under which an identity is registered.
    pub fn lookup(&self, id: &str) -> (r: Option<usize>)
        requires
            self.wf(),
        ensures
            match r {
                Some(oid) => self.identities().contains_key(id@) && self.identities()[id@] == oid
                    && oid < self.records().len(),
                None => !self.identities().contains_key(id@),
            },
    {
        match self.id_map.get(id) {
            Some(oid) => Some(*oid),
            None => None,
        }
    }

    /// Stores a record and returns its position.
    ///
    /// The record goes behind those that are stored and learns its position.
    /// Its identity, if it has one, is registered for it; where an earlier
    /// record had the same identity the later one takes it over, and the
    /// count of duplicates grows by one. The interval index is no longer
    /// valid.
    pub fn add_object(&mut self, obj: GffObject) -> (oid: usize)
        requires
            old(self).wf(),
        ensures
            final(self).wf(),
            oid == old(self).records().len(),
            final(self).records() == old(self).records().push(placed(obj, oid)),
            final(self).identities() == registered(old(self).identities(), obj.id_str, oid),
            !final(self).indexed(),
            final(self).duplicates() == old(self).duplicates() + (if taken(
                old(self).identities(),
                obj.id_str,
            ) {
                1nat
            } else {
                0nat
            }),
            final(self).rebuilds() == old(self).rebuilds(),
            placed_all(old(self).records()) ==> placed_all(final(self).records()),
    {
        self.is_indexed = false;
        let oid = self.objects.len();
        let mut obj = obj;
        obj.id = Some(oid);
        let id_str = match &obj.id_str {
            Some(s) => Some(s.clone()),
            None => None,
        };
        self.objects.push(obj);
        let n = self.objects.len();
        match id_str {
            Some(s) => {
                if self.id_map.contains_key(s.as_str()) {
                    self.n_duplicates = self.n_duplicates + 1;
                }
                self.id_map.insert(s, oid);
            },
            None => {},
        }
        oid
    }

    /// The record at position `oid`; none where no record is stored there.
    pub fn get(&self, oid: usize) -> (r: Option<&GffObject>)
        ensures
            match r {
                Some(obj) => oid < self.records().len() && *obj == self.records()[oid as int],
                None => oid >= self.records().len(),
            },
    {
        if oid < self.objects.len() {
            Some(&self.objects[oid])
        } else {
            None
        }
    }

    /// The record at position `oid`, to be changed in place; none where no
    /// record is stored there. Handing a record out makes the interval index
    /// invalid.
    pub fn get_mut(&mut self, oid: usize) -> (r: Option<&mut GffObject>)
        requires
            old(self).wf(),
        ensures
            final(self).wf(),
            final(self).identities() == old(self).identities(),
            final(self).duplicates() == old(self).duplicates(),
            final(self).rebuilds() == old(self).rebuilds(),
            match r {
                Some(obj) => oid < old(self).records().len()
                    && *obj == old(self).records()[oid as int]
                    && final(self).records() == old(self).records().update(
                    oid as int,
                    *final(obj),
                ) && !final(self).indexed(),
                None => {
                    &&& oid >= old(self).records().len()
                    &&& final(self).records() == old(self).records()
                    &&& final(self).indexed() == old(self).indexed()
                },
            },
    {
        if oid < self.objects.len() {
            self.is_indexed = false;
            Some(&mut self.objects[oid])
        } else {
            None
        }
    }
}

/// Whether two records differ in nothing but their type.
pub open spec fn same_but_type(a: GffObject, b: GffObject) -> bool {
    b == (GffObject { g_type: b.g_type, ..a })
}

/// Whether `after` holds the records of `before` with the type `gtype` for
/// the children of the record at `tid`, where there is one, and nothing else
/// changed.
pub open spec fn retyped(
    before: Seq<GffObject>,
    after: Seq<GffObject>,
    tid: int,
    gtype: Types,
) -> bool {
    &&& after.len() == before.len()
    &&& forall|i: int|
        0 <= i < before.len() ==> {
            &&& same_but_type(before[i], #[trigger] after[i])
            &&& after[i].g_type == (if 0 <= tid < before.len() && before[tid].children@.contains(
                i as usize,
            ) {
                gtype
            } else {
                before[i].g_type
            })
        }
}

impl Transcriptome {
    /// Gives the record at position `oid` the type `gtype`. The interval
    /// index stays valid.
    pub fn set_type(&mut self, oid: usize, gtype: Types) -> (r: Result<(), GffError>)
        requires
            old(self).wf(),
        ensures
            final(self).wf(),
            final(self).identities() == old(self).identities(),
            final(self).duplicates() == old(self).duplicates(),
            final(self).rebuilds() == old(self).rebuilds(),
            final(self).indexed() == old(self).indexed(),
            match r {
                Ok(()) => oid < old(self).records().len()
                    && final(self).records() == old(self).records().update(
                    oid as int,
                    GffObject { g_type: gtype, ..old(self).records()[oid as int] },
                ),
                Err(e) => {
                    &&& oid >= old(self).records().len()
                    &&& final(self).records() == old(self).records()
                    &&& e == (GffError::IndexOutOfRange { index: oid })
                },
            },
    {
        if oid >= self.objects.len() {
            return Err(GffError::IndexOutOfRange { index: oid });
        }
        let ghost before = self.objects@;
        self.objects[oid].g_type = gtype;
        proof {
            assert(self.objects@ =~= before.update(
                oid as int,
                GffObject { g_type: gtype, ..before[oid as int] },
            ));
            assert(entries_of(self.objects@) =~= entries_of(before));
        }
        Ok(())
    }

    /// Gives the attribute `key` of the record at position `oid` the value
    /// `value`. The interval index stays valid.
    pub fn set_attr(&mut self, oid: usize, key: &str, value: String) -> (r: Result<(), GffError>)
        requires
            old(self).wf(),
        ensures
            final(self).wf(),
            final(self).identities() == old(self).identities(),
            final(self).duplicates() == old(self).duplicates(),
            final(self).rebuilds() == old(self).rebuilds(),
            final(self).indexed() == old(self).indexed(),
            final(self).records().len() == old(self).records().len(),
            match r {
                Ok(()) => {
                    &&& oid < old(self).records().len()
                    &&& forall|i: int|
                        0 <= i < old(self).records().len() && i != oid
                            ==> #[trigger] final(self).records()[i] == old(self).records()[i]
                    &&& final(self).records()[oid as int].attrs@
                        == old(self).records()[oid as int].attrs@.insert(key@, value@)
                    &&& final(self).records()[oid as int] == (GffObject {
                        attrs: final(self).records()[oid as int].attrs,
                        ..old(self).records()[oid as int]
                    })
                },
                Err(e) => {
                    &&& oid >= old(self).records().len()
                    &&& final(self).records() == old(self).records()
                    &&& e == (GffError::IndexOutOfRange { index: oid })
                },
            },
    {
        if oid >= self.objects.len() {
            return Err(GffError::IndexOutOfRange { index: oid });
        }
        let ghost before = self.objects@;
        self.objects[oid].attrs.insert(key.to_owned(), value);
        proof {
            assert(entries_of(self.objects@) =~= entries_of(before));
        }
        Ok(())
    }

    /// Gives every child of the record at position `tid` the type `gtype`.
    /// Nothing changes where no record is stored at `tid`. The interval
    /// index stays valid.
    pub fn change_exon_type(&mut self, tid: usize, gtype: Types)
        requires
            old(self).wf(),
        ensures
            final(self).wf(),
            final(self).identities() == old(self).identities(),
            final(self).duplicates() == old(self).duplicates(),
            final(self).rebuilds() == old(self).rebuilds(),
            final(self).indexed() == old(self).indexed(),
            retyped(old(self).records(), final(self).records(), tid as int, gtype),
    {
        let n = self.objects.len();
        if tid >= n {
            return ;
        }
        let ghost before = self.objects@;
        let ghost start = *self;
        let ghost kids = before[tid as int].children@;
        let count = self.objects[tid].children.len();
        let mut k: usize = 0;
        while k < count
            invariant
                self.id_map == start.id_map,
                self.tree == start.tree,
                self.is_indexed == start.is_indexed,
                self.n_duplicates == start.n_duplicates,
                self.n_rebuilds == start.n_rebuilds,
                k <= count,
                tid < n,
                n == before.len(),
                self.objects@.len() == n,
                kids == before[tid as int].children@,
                count == kids.len(),
                forall|i: int|
                    0 <= i < n ==> same_but_type(before[i], #[trigger] self.objects@[i])
                        && self.objects@[i].g_type == (if kids.subrange(0, k as int).contains(
                        i as usize,
                    ) {
                        gtype
                    } else {
                        before[i].g_type
                    }),
            decreases count - k,
        {
            let child = self.objects[tid].children[k];
            let ghost seen = self.objects@;
            let ghost done = kids.subrange(0, k as int);
            let ghost more = kids.subrange(0, k + 1);
            proof {
                assert(same_but_type(before[tid as int], seen[tid as int]));
                assert(child == kids[k as int]);
                assert(more =~= done.push(child));
                assert forall|x: usize| more.contains(x) <==> (done.contains(x) || x == child) by {
                    if more.contains(x) {
                        let a = choose|a: int| 0 <= a < more.len() && more[a] == x;
                        if a < done.len() {
                            assert(done[a] == x);
                        }
                    }
                    if done.contains(x) {
                        let a = choose|a: int| 0 <= a < done.len() && done[a] == x;
                        assert(more[a] == x);
                    }
                    if x == child {
                        assert(more[k as int] == x);
                    }
                }
            }
            if child < n {
                self.objects[child].g_type = gtype;
            }
            k += 1;
        }
        proof {
            assert(kids.subrange(0, count as int) =~= kids);
            assert(entries_of(self.objects@) =~= entries_of(before)) by {
                assert forall|i: int| 0 <= i < n implies entry_of(self.objects@[i], i)
                    == entry_of(before[i], i) by {
                    assert(same_but_type(before[i], self.objects@[i]));
                }
            }
        }
    }

    /// The position of the record that `obj` names as its parent.
    ///
    /// The parent is looked up by the identity that `obj` names; it must be
    /// stored, and must not be `obj` itself. No record is made up for a
    /// parent that is missing: that is a failure, and the store stays as it
    /// is in either case.
    pub fn create_parent(&mut self, obj: &GffObject) -> (r: Result<usize, GffError>)
        requires
            old(self).wf(),
        ensures
            final(self).wf(),
            final(self).records() == old(self).records(),
            final(self).identities() == old(self).identities(),
            final(self).duplicates() == old(self).duplicates(),
            final(self).rebuilds() == old(self).rebuilds(),
            final(self).indexed() == old(self).indexed(),
            match r {
                Ok(pid) => Self::names_parent(old(self).identities(), *obj) == Some(pid) && pid
                    < old(self).records().len(),
                Err(e) => Self::names_parent(old(self).identities(), *obj) is None && e
                    == GffError::NoParent,
            },
    {
        match &obj.parent_id_str {
            Some(p) => {
                match self.id_map.get(p.as_str()) {
                    Some(pid) => {
                        let own = match obj.id {
                            Some(i) => i == *pid,
                            None => false,
                        };
                        if own {
                            Err(GffError::NoParent)
                        } else {
                            Ok(*pid)
                        }
                    },
                    None => Err(GffError::NoParent),
                }
            },
            None => Err(GffError::NoParent),
        }
    }

    /// The position that the parent identity of a record leads to, unless it
    /// is the record's own.
    pub open spec fn names_parent(identities: Map<Seq<char>, usize>, obj: GffObject) -> Option<
        usize,
    > {
        match obj.parent_id_str {
            Some(p) => if identities.contains_key(p@) && obj.id != Some(identities[p@]) {
                Some(identities[p@])
            } else {
                None
            },
            None => None,
        }
    }

    /// A handle on the record at position `tid`; none where no record is
    /// stored there.
    pub fn get_transcript<'a>(&'a mut self, tid: usize) -> (r: Option<TranscriptRef<'a>>)
        requires
            old(self).wf(),
        ensures
            match r {
                Some(t) => {
                    &&& tid < old(self).records().len()
                    &&& t.tid == tid
                    &&& *t.parent == *old(self)
                    &&& *final(t.parent) == *final(self)
                },
                None => tid >= old(self).records().len() && *final(self) == *old(self),
            },
    {
        if tid < self.objects.len() {
            Some(TranscriptRef::new(self, tid))
        } else {
            None
        }
    }
}

/// A group of features that are kept in an arena and known by their
/// positions.
pub trait GffObjectGroupT: Sized {
    /// The kind of feature that the group keeps.
    type Object: GffObjectT;

    /// The invariant of the group.
    spec fn valid(&self) -> bool;

    /// The features in arena order.
    spec fn items(&self) -> Seq<Self::Object>;

    /// The feature as the group keeps it at position `oid`.
    spec fn kept(obj: Self::Object, oid: usize) -> Self::Object;

    /// The empty group.
    fn new() -> (g: Self)
        ensures
            g.valid(),
            g.items() == Seq::<Self::Object>::empty(),
    ;

    /// Puts a feature behind those of the group and returns its position.
    fn add_object(&mut self, obj: Self::Object) -> (oid: usize)
        requires
            old(self).valid(),
        ensures
            final(self).valid(),
            oid == old(self).items().len(),
            final(self).items() == old(self).items().push(Self::kept(obj, oid)),
    ;

    /// The feature at position `oid`; none where the group has none there.
    fn get(&self, oid: usize) -> (r: Option<&Self::Object>)
        requires
            self.valid(),
        ensures
            match r {
                Some(obj) => oid < self.items().len() && *obj == self.items()[oid as int],
                None => oid >= self.items().len(),
            },
    ;

    /// The feature at position `oid`, to be changed in place; none where the
    /// group has none there.
    fn get_mut(&mut self, oid: usize) -> (r: Option<&mut Self::Object>)
        requires
            old(self).valid(),
        ensures
            final(self).valid(),
            match r {
                Some(obj) => oid < old(self).items().len() && *obj == old(self).items()[oid as int]
                    && final(self).items() == old(self).items().update(oid as int, *final(obj)),
                None => oid >= old(self).items().len() && final(self).items() == old(self).items(),
            },
    ;

    /// The features in arena order.
    fn objects(&self) -> (r: &Vec<Self::Object>)
        requires
            self.valid(),
        ensures
            r@ == self.items(),
    ;
}

impl GffObjectGroupT for Transcriptome {
    type Object = GffObject;

    open spec fn valid(&self) -> bool {
        self.wf()
    }

    open spec fn items(&self) -> Seq<GffObject> {
        self.records()
    }

    open spec fn kept(obj: GffObject, oid: usize) -> GffObject {
        placed(obj, oid)
    }

    fn new() -> (g: Transcriptome) {
        Transcriptome::new()
    }

    fn add_object(&mut self, obj: GffObject) -> (oid: usize) {
        Transcriptome::add_object(self, obj)
    }

    fn get(&self, oid: usize) -> (r: Option<&GffObject>) {
        Transcriptome::get(self, oid)
    }

    fn get_mut(&mut self, oid: usize) -> (r: Option<&mut GffObject>) {
        Transcriptome::get_mut(self, oid)
    }

    fn objects(&self) -> (r: &Vec<GffObject>) {
        Transcriptome::objects(self)
    }
}

} // verus!
