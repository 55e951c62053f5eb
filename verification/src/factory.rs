//! The factory that makes, from a line, the feature of the kind that the
//! line names.

use vstd::prelude::*;
use crate::error::GffError;
use crate::exon::Exon;
use crate::object::{line_fault, line_type, GffObject};
use crate::utils::{lookup, text_of, Types};

verus! {

/// A feature as the factory makes it.
#[derive(Debug)]
pub enum Feature {
    /// An exon.
    Exon(Exon),
    /// A feature of any other kind.
    Object(GffObject),
}

/// The factory of features.
#[derive(Clone, Copy, Debug, PartialEq, Eq, Structural)]
pub struct GffObjectFactory;

impl Default for GffObjectFactory {
    fn default() -> (f: GffObjectFactory) {
        GffObjectFactory
    }
}

impl GffObjectFactory {
    /// Reads one annotation line in the given dialect. A line of type `exon`
    /// gives an exon; a line of any other type gives the record as it is
    /// read. A line that is rejected gives the failure for it.
    pub fn create(&self, line: &str, is_gff: bool) -> (r: Result<Feature, GffError>)
        ensures
            match r {
                Ok(Feature::Exon(exon)) => {
                    &&& line_fault(line@, is_gff) is None
                    &&& line_type(line@) == Types::Exon
                    &&& exists|obj: GffObject|
                        obj.spells_line(line@, is_gff) && Self::exon_of(exon, obj)
                },
                Ok(Feature::Object(obj)) => {
                    &&& line_fault(line@, is_gff) is None
                    &&& line_type(line@) != Types::Exon
                    &&& obj.spells_line(line@, is_gff)
                },
                Err(e) => line_fault(line@, is_gff) is Some && e.is_malformed(
                    line@,
                    line_fault(line@, is_gff)->Some_0,
                ),
            },
    {
        match GffObject::new(line, is_gff) {
            Ok(obj) => {
                match obj.get_type() {
                    Types::Exon => {
                        let ghost read = obj;
                        let exon = Exon::from(obj);
                        proof {
                            assert(read.spells_line(line@, is_gff) && Self::exon_of(exon, read));
                        }
                        Ok(Feature::Exon(exon))
                    },
                    _ => Ok(Feature::Object(obj)),
                }
            },
            Err(e) => Err(e),
        }
    }

    /// Whether `exon` is the exon that the record `obj` describes.
    pub open spec fn exon_of(exon: Exon, obj: GffObject) -> bool {
        &&& exon.seqid@ == obj.seqid@
        &&& exon.strand == obj.strand
        &&& exon.interval == obj.interval
        &&& exon.source@ == obj.source@
        &&& exon.obj_type == Types::Exon
        &&& exon.attrs.pairs() == obj.attrs.pairs()
        &&& exon.extra_attrs.pairs().len() == 0
        &&& text_of(exon.tid) == lookup(obj.attrs@, Some("transcript_id"@))
        &&& text_of(exon.gid) == lookup(obj.attrs@, Some("gene_id"@))
    }
}

} // verus!
