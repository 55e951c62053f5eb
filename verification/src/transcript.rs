//! A handle on one record of a store, through which the record and its
//! children are read and changed.

use vstd::prelude::*;
use vstd::string::StringExecFns;
use crate::attributes::Attributes;
use crate::error::GffError;
use crate::group::{retyped, Transcriptome};
use crate::interval::Interval;
use crate::object::{FeatureView, GffObject, GffObjectT};
use crate::utils::Types;

verus! {

/// A handle on the record at position `tid` of the store `parent`.
pub struct TranscriptRef<'a> {
    /// The store that owns the record.
    pub parent: &'a mut Transcriptome,
    /// The position of the record.
    pub tid: usize,
}

impl<'a> TranscriptRef<'a> {
    /// A handle on the record at position `tid` of `parent`.
    pub fn new(parent: &'a mut Transcriptome, tid: usize) -> (t: TranscriptRef<'a>)
        ensures
            t.tid == tid,
            *t.parent == *old(parent),
            *final(t.parent) == *final(parent),
    {
        TranscriptRef { parent, tid }
    }

    /// Whether the handle names a stored record of a valid store.
    pub open spec fn valid(&self) -> bool {
        self.parent.wf() && self.tid < self.parent.records().len()
    }

    /// The record that the handle names.
    pub open spec fn record(&self) -> GffObject {
        self.parent.records()[self.tid as int]
    }

    /// Gives every child of the record the type `gtype`. Nothing changes
    /// where the handle names no stored record.
    pub fn change_exon_type(&mut self, gtype: Types)
        requires
            old(self).parent.wf(),
        ensures
            final(self).tid == old(self).tid,
            *final(final(self).parent) == *final(old(self).parent),
            final(self).parent.wf(),
            final(self).parent.identities() == old(self).parent.identities(),
            final(self).parent.duplicates() == old(self).parent.duplicates(),
            final(self).parent.rebuilds() == old(self).parent.rebuilds(),
            final(self).parent.indexed() == old(self).parent.indexed(),
            retyped(
                old(self).parent.records(),
                final(self).parent.records(),
                old(self).tid as int,
                gtype,
            ),
    {
        self.parent.change_exon_type(self.tid, gtype);
    }

    /// The position as a decimal number.
    pub open spec fn tid_text(&self) -> Seq<char> {
        crate::text::decimal_digits(self.tid as nat)
    }

    /// The handle as text: `TranscriptRef: { tid: 0 }` for position 0.
    pub fn to_string(&self) -> (s: String)
        ensures
            s@ == "TranscriptRef: { tid: "@ + self.tid_text() + " }"@,
    {
        let mut s = "TranscriptRef: { tid: ".to_owned();
        let digits = crate::text::digits_of(self.tid);
        s.append(crate::text::string_of(&digits).as_str());
        s.append(" }");
        s
    }

    /// The name of the chromosome or contig of the record.
    pub fn seqid(&self) -> (r: &str)
        requires
            self.valid(),
        ensures
            r@ == self.record().seqid@,
    {
        self.get().seqid()
    }

    /// The strand of the record.
    pub fn strand(&self) -> (r: char)
        requires
            self.valid(),
        ensures
            r == self.record().strand,
    {
        self.get().strand()
    }

    /// The kind of feature of the record.
    pub fn get_type(&self) -> (r: Types)
        requires
            self.valid(),
        ensures
            r == self.record().g_type,
    {
        self.get().get_type()
    }

    /// Where the annotation of the record comes from.
    pub fn source(&self) -> (r: &str)
        requires
            self.valid(),
        ensures
            r@ == self.record().source@,
    {
        self.get().source()
    }

    /// The coordinates that the record spans.
    pub fn interval(&self) -> (r: &Interval)
        requires
            self.valid(),
        ensures
            *r == self.record().interval,
    {
        self.get().interval()
    }

    /// The attributes of the record.
    pub fn get_attrs(&self) -> (r: &Attributes)
        requires
            self.valid(),
        ensures
            *r == self.record().attrs,
    {
        self.get().get_attrs()
    }

    /// The positions of the children of the record.
    pub fn children(&self) -> (r: &Vec<usize>)
        requires
            self.valid(),
        ensures
            *r == self.record().children,
    {
        self.get().children()
    }

    /// The phase of the record; none is kept.
    pub fn phase(&self) -> (r: Option<u32>)
        requires
            self.valid(),
        ensures
            r is None,
    {
        self.get().phase()
    }

    /// Gives the record the type `gtype`. A handle that names no stored
    /// record changes nothing and says so.
    pub fn set_type(&mut self, gtype: Types) -> (r: Result<(), GffError>)
        requires
            old(self).parent.wf(),
        ensures
            final(self).tid == old(self).tid,
            *final(final(self).parent) == *final(old(self).parent),
            final(self).parent.wf(),
            final(self).parent.identities() == old(self).parent.identities(),
            final(self).parent.indexed() == old(self).parent.indexed(),
            match r {
                Ok(()) => old(self).tid < old(self).parent.records().len()
                    && final(self).parent.records() == old(self).parent.records().update(
                    old(self).tid as int,
                    GffObject { g_type: gtype, ..old(self).record() },
                ),
                Err(e) => {
                    &&& old(self).tid >= old(self).parent.records().len()
                    &&& final(self).parent.records() == old(self).parent.records()
                    &&& e == (GffError::IndexOutOfRange { index: old(self).tid })
                },
            },
    {
        self.parent.set_type(self.tid, gtype)
    }

    /// Gives the attribute `key` of the record the value `value`. A handle
    /// that names no stored record changes nothing and says so.
    pub fn set_attr(&mut self, key: &str, value: String) -> (r: Result<(), GffError>)
        requires
            old(self).parent.wf(),
        ensures
            final(self).tid == old(self).tid,
            *final(final(self).parent) == *final(old(self).parent),
            final(self).parent.wf(),
            final(self).parent.identities() == old(self).parent.identities(),
            final(self).parent.indexed() == old(self).parent.indexed(),
            final(self).parent.records().len() == old(self).parent.records().len(),
            match r {
                Ok(()) => {
                    &&& old(self).tid < old(self).parent.records().len()
                    &&& forall|i: int|
                        0 <= i < old(self).parent.records().len() && i != old(self).tid
                            ==> #[trigger] final(self).parent.records()[i]
                            == old(self).parent.records()[i]
                    &&& final(self).record().attrs@ == old(self).record().attrs@.insert(
                        key@,
                        value@,
                    )
                    &&& final(self).record() == (GffObject {
                        attrs: final(self).record().attrs,
                        ..old(self).record()
                    })
                },
                Err(e) => {
                    &&& old(self).tid >= old(self).parent.records().len()
                    &&& final(self).parent.records() == old(self).parent.records()
                    &&& e == (GffError::IndexOutOfRange { index: old(self).tid })
                },
            },
    {
        self.parent.set_attr(self.tid, key, value)
    }

    /// The record that the handle names.
    pub fn get(&self) -> (r: &GffObject)
        requires
            self.valid(),
        ensures
            *r == self.record(),
    {
        &self.parent.objects()[self.tid]
    }
}

impl<'a> GffObjectT for TranscriptRef<'a> {
    open spec fn readable(&self) -> bool {
        self.valid()
    }

    open spec fn feature(&self) -> FeatureView {
        self.record().feature()
    }

    fn seqid(&self) -> (r: &str) {
        self.get().seqid.as_str()
    }

    fn strand(&self) -> (r: char) {
        self.get().strand
    }

    fn get_type(&self) -> (r: Types) {
        self.get().g_type
    }

    fn source(&self) -> (r: &str) {
        self.get().source.as_str()
    }

    fn interval(&self) -> (r: &Interval) {
        &self.get().interval
    }

    fn get_attrs(&self) -> (r: &Attributes) {
        &self.get().attrs
    }

    fn children(&self) -> (r: &[usize]) {
        self.get().children.as_slice()
    }

    fn set_attr(&mut self, key: &str, value: String) {
        let _ = self.parent.set_attr(self.tid, key, value);
    }

    fn set_type(&mut self, gtype: Types) {
        let _ = self.parent.set_type(self.tid, gtype);
    }
}

} // verus!
