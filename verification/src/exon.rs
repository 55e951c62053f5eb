//! Exons: records that know the transcript and the gene they belong to.

use vstd::prelude::*;
use vstd::std_specs::cmp::PartialEqSpecImpl;
use crate::attributes::{Attributes, Pair};
use crate::interval::Interval;
use crate::object::{FeatureView, GffObject, GffObjectT};
use crate::utils::{copy_text, lookup, text_of, Types};

verus! {

/// An exon.
#[derive(Debug)]
pub struct Exon {
    /// The name of the chromosome or contig.
    pub seqid: String,
    /// One of `+`, `-` and `.`.
    pub strand: char,
    /// The coordinates that the exon spans.
    pub interval: Interval,
    /// Where the annotation comes from.
    pub source: String,
    /// The identity of the transcript that the exon belongs to.
    pub tid: Option<String>,
    /// The identity of the gene that the exon belongs to.
    pub gid: Option<String>,
    /// The attributes, by lowercase key.
    pub attrs: Attributes,
    /// What is kept beside the attributes.
    pub extra_attrs: Attributes,
    /// The kind of feature; an exon unless it is set otherwise.
    pub obj_type: Types,
}

impl Default for Exon {
    /// An exon without coordinates: strand `.`, the library's own name as
    /// source, no attributes, and neither transcript nor gene.
    fn default() -> (exon: Exon)
        ensures
            exon.seqid@ == Seq::<char>::empty(),
            exon.strand == '.',
            exon.source@ == "GANLIB"@,
            exon.interval@ == (0int, 0int),
            exon.tid is None,
            exon.gid is None,
            exon.attrs.pairs() == Seq::<Pair>::empty(),
            exon.extra_attrs.pairs() == Seq::<Pair>::empty(),
            exon.obj_type == Types::Exon,
    {
        Exon {
            seqid: String::new(),
            strand: '.',
            interval: Interval::empty(),
            source: "GANLIB".to_owned(),
            tid: None,
            gid: None,
            attrs: Attributes::new(),
            extra_attrs: Attributes::new(),
            obj_type: Types::Exon,
        }
    }
}

impl Exon {
    /// An exon without coordinates, as `default` makes it.
    pub fn new() -> (exon: Exon)
        ensures
            exon.seqid@ == Seq::<char>::empty(),
            exon.strand == '.',
            exon.source@ == "GANLIB"@,
            exon.interval@ == (0int, 0int),
            exon.tid is None,
            exon.gid is None,
            exon.attrs.pairs() == Seq::<Pair>::empty(),
            exon.extra_attrs.pairs() == Seq::<Pair>::empty(),
            exon.obj_type == Types::Exon,
    {
        Exon::default()
    }

    /// The exon that a record describes: it takes the sequence, strand,
    /// interval, source and attributes of the record, and the transcript and
    /// gene that the attributes `transcript_id` and `gene_id` name.
    pub fn from(gff_object: GffObject) -> (exon: Exon)
        ensures
            exon.seqid@ == gff_object.seqid@,
            exon.strand == gff_object.strand,
            exon.interval == gff_object.interval,
            exon.source@ == gff_object.source@,
            exon.obj_type == Types::Exon,
            exon.attrs.pairs() == gff_object.attrs.pairs(),
            exon.extra_attrs.pairs() == Seq::<Pair>::empty(),
            text_of(exon.tid) == lookup(gff_object.attrs@, Some("transcript_id"@)),
            text_of(exon.gid) == lookup(gff_object.attrs@, Some("gene_id"@)),
    {
        let tid = match gff_object.attrs.get("transcript_id") {
            Some(v) => Some(v.clone()),
            None => None,
        };
        let gid = match gff_object.attrs.get("gene_id") {
            Some(v) => Some(v.clone()),
            None => None,
        };
        Exon {
            seqid: gff_object.seqid,
            strand: gff_object.strand,
            interval: gff_object.interval,
            source: gff_object.source,
            tid,
            gid,
            attrs: gff_object.attrs,
            extra_attrs: Attributes::new(),
            obj_type: Types::Exon,
        }
    }

    /// Names the transcript that the exon belongs to.
    pub fn set_tid(&mut self, tid: String)
        ensures
            *final(self) == (Exon { tid: Some(tid), ..*old(self) }),
    {
        self.tid = Some(tid);
    }

    /// Names the gene that the exon belongs to.
    pub fn set_gid(&mut self, gid: String)
        ensures
            *final(self) == (Exon { gid: Some(gid), ..*old(self) }),
    {
        self.gid = Some(gid);
    }

    /// The identity of the transcript that the exon belongs to.
    pub fn get_tid(&self) -> (r: Option<&str>)
        ensures
            match r {
                Some(t) => self.tid is Some && t@ == self.tid->Some_0@,
                None => self.tid is None,
            },
    {
        match &self.tid {
            Some(t) => Some(t.as_str()),
            None => None,
        }
    }

    /// The identity of the gene that the exon belongs to.
    pub fn get_gid(&self) -> (r: Option<&str>)
        ensures
            match r {
                Some(g) => self.gid is Some && g@ == self.gid->Some_0@,
                None => self.gid is None,
            },
    {
        match &self.gid {
            Some(g) => Some(g.as_str()),
            None => None,
        }
    }

    /// The kind of feature.
    pub fn get_type(&self) -> (r: Types)
        ensures
            r == self.obj_type,
    {
        self.obj_type
    }

    /// The name of the chromosome or contig.
    pub fn seqid(&self) -> (r: &str)
        ensures
            r@ == self.seqid@,
    {
        self.seqid.as_str()
    }

    /// The strand.
    pub fn strand(&self) -> (r: char)
        ensures
            r == self.strand,
    {
        self.strand
    }

    /// The coordinates that the exon spans.
    pub fn interval(&self) -> (r: &Interval)
        ensures
            *r == self.interval,
    {
        &self.interval
    }

    /// Where the annotation comes from.
    pub fn source(&self) -> (r: &str)
        ensures
            r@ == self.source@,
    {
        self.source.as_str()
    }

    /// The attributes.
    pub fn get_attrs(&self) -> (r: &Attributes)
        ensures
            *r == self.attrs,
    {
        &self.attrs
    }

    /// The attributes, to be changed in place.
    pub fn get_attrs_mut(&mut self) -> (r: &mut Attributes)
        ensures
            *r == old(self).attrs,
            *final(self) == (Exon { attrs: *final(r), ..*old(self) }),
    {
        &mut self.attrs
    }
}

impl PartialEq for Exon {
    /// Two exons are equal where they have the same strand, sequence,
    /// interval, source, type and attributes.
    fn eq(&self, other: &Exon) -> (r: bool) {
        self.strand == other.strand && self.seqid == other.seqid && self.interval.same(
            &other.interval,
        ) && self.source == other.source && self.obj_type == other.obj_type && self.attrs.same(
            &other.attrs,
        )
    }
}

impl PartialEqSpecImpl for Exon {
    open spec fn obeys_eq_spec() -> bool {
        true
    }

    open spec fn eq_spec(&self, other: &Exon) -> bool {
        &&& self.strand == other.strand
        &&& self.seqid@ == other.seqid@
        &&& self.interval@ == other.interval@
        &&& self.source@ == other.source@
        &&& self.obj_type == other.obj_type
        &&& self.attrs@ == other.attrs@
    }
}

impl Eq for Exon {

}

impl Clone for Exon {
    /// A copy of the exon with the same content.
    fn clone(&self) -> (r: Exon)
        ensures
            r.seqid == self.seqid,
            r.strand == self.strand,
            r.interval == self.interval,
            r.source == self.source,
            r.tid == self.tid,
            r.gid == self.gid,
            r.attrs.pairs() == self.attrs.pairs(),
            r.extra_attrs.pairs() == self.extra_attrs.pairs(),
            r.obj_type == self.obj_type,
    {
        Exon {
            seqid: self.seqid.clone(),
            strand: self.strand,
            interval: self.interval,
            source: self.source.clone(),
            tid: copy_text(&self.tid),
            gid: copy_text(&self.gid),
            attrs: self.attrs.clone(),
            extra_attrs: self.extra_attrs.clone(),
            obj_type: self.obj_type,
        }
    }
}

impl GffObjectT for Exon {
    open spec fn readable(&self) -> bool {
        true
    }

    open spec fn feature(&self) -> FeatureView {
        FeatureView {
            seqid: self.seqid@,
            strand: self.strand,
            source: self.source@,
            feature_type: self.obj_type,
            interval: self.interval@,
            attrs: self.attrs@,
            children: Seq::empty(),
        }
    }

    fn seqid(&self) -> (r: &str) {
        self.seqid.as_str()
    }

    fn strand(&self) -> (r: char) {
        self.strand
    }

    fn get_type(&self) -> (r: Types) {
        self.obj_type
    }

    fn source(&self) -> (r: &str) {
        self.source.as_str()
    }

    fn interval(&self) -> (r: &Interval) {
        &self.interval
    }

    fn get_attrs(&self) -> (r: &Attributes) {
        &self.attrs
    }

    fn children(&self) -> (r: &[usize]) {
        let none: &[usize] = &[];
        none
    }

    fn set_attr(&mut self, key: &str, value: String) {
        self.attrs.insert(key.to_owned(), value);
    }

    fn set_type(&mut self, gtype: Types) {
        self.obj_type = gtype;
    }
}

} // verus!
