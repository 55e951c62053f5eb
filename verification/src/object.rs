//! The record of one annotation line.

use vstd::prelude::*;
use crate::attributes::{has_key, index_of_key, map_of, put, Attributes, Pair};
use crate::error::{GffError, LineFault};
use crate::interval::Interval;
use crate::text::{
    chars_of, lowercase, parse_number, parse_usize, pieces, same_chars, split, split_chars,
    string_of, CharClass,
};
use crate::utils::{
    attribute_pairs, collect_attributes, copy_positions, copy_text, extract_id,
    extract_parent_id, id_key, is_gff, line_dialect, lookup, parent_key, text_of, Types,
};

verus! {

/// The tab-separated columns of a record line.
pub open spec fn record_columns(line: Seq<char>) -> Seq<Seq<char>> {
    split(line, CharClass::Tab)
}

/// The strand that a strand column spells: exactly one of `+`, `-` and `.`.
pub open spec fn strand_of(column: Seq<char>) -> Option<char> {
    if column.len() == 1 && (column[0] == '+' || column[0] == '-' || column[0] == '.') {
        Some(column[0])
    } else {
        None
    }
}

/// The type that the type column of a line names.
pub open spec fn line_type(line: Seq<char>) -> Types {
    Types::of_lowercase(lowercase(record_columns(line)[2]))
}

/// The source of a line: its source column, or the library's own name where
/// that column is empty.
pub open spec fn line_source(line: Seq<char>) -> Seq<char> {
    if record_columns(line)[1].len() == 0 {
        "GANLIB"@
    } else {
        record_columns(line)[1]
    }
}

/// The attributes of a line as its attribute column spells them.
pub open spec fn line_pairs(line: Seq<char>, is_gff: bool) -> Seq<Pair> {
    attribute_pairs(record_columns(line)[8], is_gff)
}

/// The first reason for which a line is rejected, if there is one: it does
/// not have nine columns, a coordinate is no unsigned integer, the start lies
/// behind the end, the strand is not one of the three, or a feature that is
/// not intergenic has no attribute.
pub open spec fn line_fault(line: Seq<char>, is_gff: bool) -> Option<LineFault> {
    let cols = record_columns(line);
    if cols.len() != 9 {
        Some(LineFault::ColumnCount)
    } else if parse_usize(cols[3]) is None {
        Some(LineFault::Start)
    } else if parse_usize(cols[4]) is None {
        Some(LineFault::End)
    } else if parse_usize(cols[3])->Some_0 > parse_usize(cols[4])->Some_0 {
        Some(LineFault::Range)
    } else if strand_of(cols[6]) is None {
        Some(LineFault::Strand)
    } else if line_pairs(line, is_gff).len() == 0 && line_type(line) != Types::Intergenic {
        Some(LineFault::Attributes)
    } else {
        None
    }
}

/// The key under which the identity of a feature is stored, whatever the
/// dialect it was read from.
pub open spec fn stored_id_key(feature_type: Types) -> Option<Seq<char>> {
    match feature_type {
        Types::Gene => Some("gene_id"@),
        Types::Transcript => Some("transcript_id"@),
        _ => None,
    }
}

/// The key under which the identity of a feature's parent is stored, whatever
/// the dialect it was read from.
pub open spec fn stored_parent_key(feature_type: Types) -> Option<Seq<char>> {
    match feature_type {
        Types::Transcript => Some("gene_id"@),
        Types::Exon | Types::CDS | Types::UTR | Types::Intron => Some("transcript_id"@),
        _ => None,
    }
}

/// The pairs after the value of `from`, if it has one, was moved to the key
/// `to`.
pub open spec fn moved(p: Seq<Pair>, from: Seq<char>, to: Option<Seq<char>>) -> Seq<Pair> {
    match to {
        Some(k) => if has_key(p, from) {
            let i = index_of_key(p, from);
            put(p.remove(i), k, p[i].1)
        } else {
            p
        },
        None => p,
    }
}

/// The attributes as they are stored: in the GFF dialect the feature's own
/// `id` and `parent` move to the keys that name them by meaning.
pub open spec fn stored_pairs(p: Seq<Pair>, feature_type: Types, is_gff: bool) -> Seq<Pair> {
    if is_gff {
        moved(
            moved(p, "id"@, stored_id_key(feature_type)),
            "parent"@,
            stored_parent_key(feature_type),
        )
    } else {
        p
    }
}

/// One annotated feature.
#[derive(Debug)]
pub struct GffObject {
    /// The name of the chromosome or contig.
    pub seqid: String,
    /// One of `+`, `-` and `.`.
    pub strand: char,
    /// Where the annotation comes from.
    pub source: String,
    /// The kind of feature.
    pub g_type: Types,
    /// The attributes, by lowercase key.
    pub attrs: Attributes,
    /// What is kept of the line beside its attribute column.
    pub extra_attrs: Attributes,
    /// The position of the record in the store that owns it.
    pub id: Option<usize>,
    /// The coordinates that the feature spans.
    pub interval: Interval,
    /// The positions of the record's children in the store that owns it.
    pub children: Vec<usize>,
    /// The position of the record's parent in the store that owns it.
    pub parent: Option<usize>,
    /// The identity of the feature, if its attributes give one.
    pub id_str: Option<String>,
    /// The identity of the feature's parent, if its attributes give one.
    pub parent_id_str: Option<String>,
}

impl GffObject {
    /// Whether the record belongs to no store: it has no position, no
    /// children and no parent.
    pub open spec fn unlinked(&self) -> bool {
        &&& self.id is None
        &&& self.children@.len() == 0
        &&& self.parent is None
    }

    /// Whether the record holds what the line spells in the given dialect
    /// and belongs to no store.
    pub open spec fn spells_line(&self, line: Seq<char>, is_gff: bool) -> bool {
        self.spells_content(line, is_gff) && self.unlinked()
    }

    /// Whether the record holds what the line spells in the given dialect,
    /// whatever its place in a store.
    pub open spec fn spells_content(&self, line: Seq<char>, is_gff: bool) -> bool {
        let cols = record_columns(line);
        let raw = line_pairs(line, is_gff);
        &&& self.seqid@ == cols[0]
        &&& self.source@ == line_source(line)
        &&& self.g_type == line_type(line)
        &&& self.interval@ == (
            parse_usize(cols[3])->Some_0 as int,
            parse_usize(cols[4])->Some_0 as int,
        )
        &&& Some(self.strand) == strand_of(cols[6])
        &&& self.attrs.pairs() == stored_pairs(raw, self.g_type, is_gff)
        &&& text_of(self.id_str) == lookup(map_of(raw), id_key(self.g_type, is_gff))
        &&& text_of(self.parent_id_str) == lookup(map_of(raw), parent_key(self.g_type, is_gff))
        &&& self.extra_attrs.pairs() == seq![("record_source"@, cols[2])]
    }
}

impl Default for GffObject {
    /// A record without coordinates: unknown type, strand `.`, the library's
    /// own name as source, no attributes, and in no store.
    fn default() -> (obj: GffObject)
        ensures
            obj.seqid@ == Seq::<char>::empty(),
            obj.source@ == "GANLIB"@,
            obj.g_type == Types::Unknown,
            obj.strand == '.',
            obj.attrs.pairs() == Seq::<Pair>::empty(),
            obj.extra_attrs.pairs() == Seq::<Pair>::empty(),
            obj.interval@ == (0int, 0int),
            obj.id_str is None,
            obj.parent_id_str is None,
            obj.unlinked(),
    {
        GffObject {
            seqid: String::new(),
            strand: '.',
            source: "GANLIB".to_owned(),
            g_type: Types::Unknown,
            attrs: Attributes::new(),
            extra_attrs: Attributes::new(),
            id: None,
            interval: Interval::empty(),
            children: Vec::new(),
            parent: None,
            id_str: None,
            parent_id_str: None,
        }
    }
}

/// Whether `r` is what reading the line in the given dialect gives: the
/// record that the line spells, or the failure with the reason for which the
/// line is rejected.
pub open spec fn reads_as(r: Result<GffObject, GffError>, line: Seq<char>, is_gff: bool) -> bool {
    match r {
        Ok(obj) => line_fault(line, is_gff) is None && obj.spells_line(line, is_gff),
        Err(e) => line_fault(line, is_gff) is Some && e.is_malformed(
            line,
            line_fault(line, is_gff)->Some_0,
        ),
    }
}

/// The text of an optional key.
pub open spec fn key_text(key: Option<&str>) -> Option<Seq<char>> {
    match key {
        Some(k) => Some(k@),
        None => None,
    }
}

/// The key under which the identity of a feature is stored.
fn stored_id_name(feature_type: Types) -> (key: Option<&'static str>)
    ensures
        key_text(key) == stored_id_key(feature_type),
{
    match feature_type {
        Types::Gene => Some("gene_id"),
        Types::Transcript => Some("transcript_id"),
        _ => None,
    }
}

/// The key under which the identity of a feature's parent is stored.
fn stored_parent_name(feature_type: Types) -> (key: Option<&'static str>)
    ensures
        key_text(key) == stored_parent_key(feature_type),
{
    match feature_type {
        Types::Transcript => Some("gene_id"),
        Types::Exon | Types::CDS | Types::UTR | Types::Intron => Some("transcript_id"),
        _ => None,
    }
}

/// Moves the value of `from`, if it has one, to the key `to`.
pub fn move_key(attrs: &mut Attributes, from: &str, to: Option<&str>)
    ensures
        final(attrs).pairs() == moved(old(attrs).pairs(), from@, key_text(to)),
{
    match to {
        Some(k) => {
            match attrs.remove(from) {
                Some(v) => {
                    attrs.insert(k.to_owned(), v);
                },
                None => {},
            }
        },
        None => {},
    }
}

/// Reads the strand column.
pub fn parse_strand(column: &Vec<char>) -> (r: Option<char>)
    ensures
        r == strand_of(column@),
{
    if column.len() == 1 && (column[0] == '+' || column[0] == '-' || column[0] == '.') {
        Some(column[0])
    } else {
        None
    }
}

impl GffObject {
    /// Reads a record from one annotation line in the given dialect
    /// (`is_gff`: GFF, else GTF).
    ///
    /// The line has nine tab-separated columns: sequence, source, type,
    /// start, end, score, strand, phase and attributes. The record takes
    /// them as they stand; an empty source column gives the library's own
    /// name as source. A line that does not follow this is rejected, and the
    /// failure carries the line and the first reason.
    pub fn new(line: &str, is_gff: bool) -> (r: Result<GffObject, GffError>)
        ensures
            reads_as(r, line@, is_gff),
    {
        let chars = chars_of(line);
        let cols = split_chars(&chars, CharClass::Tab);
        if cols.len() != 9 {
            return Err(GffObject::rejected(line, LineFault::ColumnCount));
        }
        proof {
            assert forall|k: int| 0 <= k < 9 implies record_columns(line@)[k] == cols@[k]@ by {
                assert(pieces(cols@)[k] == cols@[k]@);
            }
        }
        let start = match parse_number(&cols[3]) {
            Some(n) => n,
            None => {
                return Err(GffObject::rejected(line, LineFault::Start));
            },
        };
        let end = match parse_number(&cols[4]) {
            Some(n) => n,
            None => {
                return Err(GffObject::rejected(line, LineFault::End));
            },
        };
        let interval = match Interval::new(start..end) {
            Ok(i) => i,
            Err(_) => {
                return Err(GffObject::rejected(line, LineFault::Range));
            },
        };
        let strand = match parse_strand(&cols[6]) {
            Some(c) => c,
            None => {
                return Err(GffObject::rejected(line, LineFault::Strand));
            },
        };
        let type_column = string_of(&cols[2]);
        let g_type = Types::from_column(type_column.as_str());
        let mut attrs = collect_attributes(&cols[8], is_gff);
        if attrs.is_empty() && g_type != Types::Intergenic {
            return Err(GffObject::rejected(line, LineFault::Attributes));
        }
        let id_str = extract_id(&attrs, &g_type, is_gff);
        let parent_id_str = extract_parent_id(&attrs, &g_type, is_gff);
        if is_gff {
            move_key(&mut attrs, "id", stored_id_name(g_type));
            move_key(&mut attrs, "parent", stored_parent_name(g_type));
        }
        let source = if cols[1].len() == 0 {
            "GANLIB".to_owned()
        } else {
            string_of(&cols[1])
        };
        let mut extra_attrs = Attributes::new();
        extra_attrs.insert("record_source".to_owned(), type_column);
        proof {
            assert(extra_attrs.pairs() =~= seq![("record_source"@, cols@[2]@)]) by {
                assert(!has_key(Seq::<Pair>::empty(), "record_source"@));
            }
        }
        Ok(
            GffObject {
                seqid: string_of(&cols[0]),
                strand,
                source,
                g_type,
                attrs,
                extra_attrs,
                id: None,
                interval,
                children: Vec::new(),
                parent: None,
                id_str,
                parent_id_str,
            },
        )
    }

    /// Reads a record from one annotation line whose dialect is told from
    /// the line itself. A line whose dialect cannot be told is refused with
    /// the reason for that.
    pub fn try_from(line: &str) -> (r: Result<GffObject, GffError>)
        ensures
            match line_dialect(line@) {
                Ok(gff) => reads_as(r, line@, gff),
                Err(reason) => r is Err && r->Err_0.is_format(line@, reason),
            },
    {
        match is_gff(line) {
            Ok(gff) => GffObject::new(line, gff),
            Err(e) => Err(e),
        }
    }

    /// The failure for a line that was rejected.
    fn rejected(line: &str, reason: LineFault) -> (e: GffError)
        ensures
            e.is_malformed(line@, reason),
    {
        GffError::MalformedLine { line: line.to_owned(), reason }
    }
}

impl GffObject {
    /// The name of the chromosome or contig.
    pub fn seqid(&self) -> (r: &str)
        ensures
            r@ == self.seqid@,
    {
        self.seqid.as_str()
    }

    /// The strand.
    pub fn strand(&self) -> (r: char)
        ensures
            r == self.strand,
    {
        self.strand
    }

    /// The kind of feature.
    pub fn get_type(&self) -> (r: Types)
        ensures
            r == self.g_type,
    {
        self.g_type
    }

    /// Where the annotation comes from.
    pub fn source(&self) -> (r: &str)
        ensures
            r@ == self.source@,
    {
        self.source.as_str()
    }

    /// The coordinates that the feature spans.
    pub fn interval(&self) -> (r: &Interval)
        ensures
            *r == self.interval,
    {
        &self.interval
    }

    /// The phase of the feature; none is kept.
    pub fn phase(&self) -> (r: Option<u32>)
        ensures
            r is None,
    {
        None
    }

    /// The value of the attribute `key`, if it has one.
    pub fn get_attr(&self, key: &str) -> (r: Option<&String>)
        ensures
            match r {
                Some(v) => self.attrs@.contains_key(key@) && v@ == self.attrs@[key@],
                None => !self.attrs@.contains_key(key@),
            },
    {
        self.attrs.get(key)
    }

    /// The attributes.
    pub fn get_attrs(&self) -> (r: &Attributes)
        ensures
            *r == self.attrs,
    {
        &self.attrs
    }

    /// Gives the attribute `key` the value `value`.
    pub fn set_attr(&mut self, key: &str, value: String)
        ensures
            final(self).attrs@ == old(self).attrs@.insert(key@, value@),
            final(self).attrs.pairs() == put(old(self).attrs.pairs(), key@, value@),
            *final(self) == (GffObject { attrs: final(self).attrs, ..*old(self) }),
    {
        self.attrs.insert(key.to_owned(), value);
    }

    /// The positions of the children in the store that owns the record.
    pub fn children(&self) -> (r: &Vec<usize>)
        ensures
            *r == self.children,
    {
        &self.children
    }

    /// Gives the record the type `gtype`.
    pub fn set_type(&mut self, gtype: Types)
        ensures
            *final(self) == (GffObject { g_type: gtype, ..*old(self) }),
    {
        self.g_type = gtype;
    }

    /// The number of coordinates that the feature spans.
    pub fn len(&self) -> (n: usize)
        requires
            self.interval.hi() - self.interval.lo() < usize::MAX,
        ensures
            n == self.interval.hi() - self.interval.lo() + 1,
    {
        self.interval.len()
    }

    /// Whether the two features lie on the same sequence and share a
    /// coordinate.
    pub fn overlaps(&self, other: &GffObject) -> (b: bool)
        ensures
            b == (self.seqid@ == other.seqid@ && self.interval.meets(&other.interval)),
    {
        self.seqid == other.seqid && self.interval.overlaps(&other.interval)
    }

    /// Whether the two features lie on the same sequence and this one covers
    /// every coordinate of the other.
    pub fn contains(&self, other: &GffObject) -> (b: bool)
        ensures
            b == (self.seqid@ == other.seqid@ && self.interval.covers(&other.interval)),
    {
        self.seqid == other.seqid && self.interval.contains(&other.interval)
    }
}

impl PartialEq for GffObject {
    /// Two records are equal where they have the same strand, sequence,
    /// interval, source, type and attributes.
    fn eq(&self, other: &GffObject) -> (r: bool) {
        self.strand == other.strand && self.seqid == other.seqid && self.interval.same(
            &other.interval,
        ) && self.source == other.source && self.g_type == other.g_type && self.attrs.same(
            &other.attrs,
        )
    }
}

impl vstd::std_specs::cmp::PartialEqSpecImpl for GffObject {
    open spec fn obeys_eq_spec() -> bool {
        true
    }

    open spec fn eq_spec(&self, other: &GffObject) -> bool {
        &&& self.strand == other.strand
        &&& self.seqid@ == other.seqid@
        &&& self.interval@ == other.interval@
        &&& self.source@ == other.source@
        &&& self.g_type == other.g_type
        &&& self.attrs@ == other.attrs@
    }
}

impl Eq for GffObject {

}

impl Clone for GffObject {
    /// A copy of the record with the same content and the same links.
    fn clone(&self) -> (r: GffObject)
        ensures
            r.seqid == self.seqid,
            r.strand == self.strand,
            r.source == self.source,
            r.g_type == self.g_type,
            r.attrs.pairs() == self.attrs.pairs(),
            r.extra_attrs.pairs() == self.extra_attrs.pairs(),
            r.id == self.id,
            r.interval == self.interval,
            r.children@ == self.children@,
            r.parent == self.parent,
            r.id_str == self.id_str,
            r.parent_id_str == self.parent_id_str,
    {
        GffObject {
            seqid: self.seqid.clone(),
            strand: self.strand,
            source: self.source.clone(),
            g_type: self.g_type,
            attrs: self.attrs.clone(),
            extra_attrs: self.extra_attrs.clone(),
            id: self.id,
            interval: self.interval,
            children: copy_positions(&self.children),
            parent: self.parent,
            id_str: copy_text(&self.id_str),
            parent_id_str: copy_text(&self.parent_id_str),
        }
    }
}

/// What a feature shows of itself to those who write it out.
pub struct FeatureView {
    /// The name of the chromosome or contig.
    pub seqid: Seq<char>,
    /// The strand.
    pub strand: char,
    /// Where the annotation comes from.
    pub source: Seq<char>,
    /// The kind of feature.
    pub feature_type: Types,
    /// The first and the last coordinate.
    pub interval: (int, int),
    /// The attributes.
    pub attrs: Map<Seq<char>, Seq<char>>,
    /// The positions of the children.
    pub children: Seq<usize>,
}

/// A feature that can be read: a record, an exon, or a handle on a record of
/// a store.
pub trait GffObjectT {
    /// Whether the feature can be read.
    spec fn readable(&self) -> bool;

    /// What the feature shows of itself.
    spec fn feature(&self) -> FeatureView;

    /// The name of the chromosome or contig.
    fn seqid(&self) -> (r: &str)
        requires
            self.readable(),
        ensures
            r@ == self.feature().seqid,
    ;

    /// The strand.
    fn strand(&self) -> (r: char)
        requires
            self.readable(),
        ensures
            r == self.feature().strand,
    ;

    /// The kind of feature.
    fn get_type(&self) -> (r: Types)
        requires
            self.readable(),
        ensures
            r == self.feature().feature_type,
    ;

    /// Where the annotation comes from.
    fn source(&self) -> (r: &str)
        requires
            self.readable(),
        ensures
            r@ == self.feature().source,
    ;

    /// The coordinates that the feature spans.
    fn interval(&self) -> (r: &Interval)
        requires
            self.readable(),
        ensures
            r@ == self.feature().interval,
    ;

    /// The attributes.
    fn get_attrs(&self) -> (r: &Attributes)
        requires
            self.readable(),
        ensures
            r@ == self.feature().attrs,
    ;

    /// The positions of the children.
    fn children(&self) -> (r: &[usize])
        requires
            self.readable(),
        ensures
            r@ == self.feature().children,
    ;

    /// Gives the attribute `key` the value `value`.
    fn set_attr(&mut self, key: &str, value: String)
        requires
            old(self).readable(),
        ensures
            final(self).readable(),
            final(self).feature() == (FeatureView {
                attrs: old(self).feature().attrs.insert(key@, value@),
                ..old(self).feature()
            }),
    ;

    /// Gives the feature the type `gtype`.
    fn set_type(&mut self, gtype: Types)
        requires
            old(self).readable(),
        ensures
            final(self).readable(),
            final(self).feature() == (FeatureView { feature_type: gtype, ..old(self).feature() }),
    ;

    /// The phase of the feature; none is kept.
    fn phase(&self) -> (r: Option<u32>)
        ensures
            r is None,
    {
        None
    }

    /// The value of the attribute `key`, if it has one.
    fn get_attr(&self, key: &str) -> (r: Option<&String>)
        requires
            self.readable(),
        ensures
            match r {
                Some(v) => self.feature().attrs.contains_key(key@) && v@
                    == self.feature().attrs[key@],
                None => !self.feature().attrs.contains_key(key@),
            },
    {
        self.get_attrs().get(key)
    }

    /// The number of coordinates that the feature spans.
    fn len(&self) -> (n: usize)
        requires
            self.readable(),
            self.feature().interval.1 - self.feature().interval.0 < usize::MAX,
        ensures
            n == self.feature().interval.1 - self.feature().interval.0 + 1,
    {
        self.interval().len()
    }
}

/// Whether one span shares a coordinate with another.
pub open spec fn spans_meet(a: (int, int), b: (int, int)) -> bool {
    a.0 <= b.1 && a.1 >= b.0
}

/// Whether one span covers every coordinate of another.
pub open spec fn span_covers(a: (int, int), b: (int, int)) -> bool {
    a.0 <= b.0 && a.1 >= b.1
}

/// Whether two features lie on the same sequence and share a coordinate.
pub fn overlaps<A: GffObjectT, B: GffObjectT>(a: &A, b: &B) -> (r: bool)
    requires
        a.readable(),
        b.readable(),
    ensures
        r == (a.feature().seqid == b.feature().seqid && spans_meet(
            a.feature().interval,
            b.feature().interval,
        )),
{
    let left = chars_of(a.seqid());
    let right = chars_of(b.seqid());
    same_chars(&left, &right) && a.interval().overlaps(b.interval())
}

/// Whether two features lie on the same sequence and the first covers every
/// coordinate of the second.
pub fn contains<A: GffObjectT, B: GffObjectT>(a: &A, b: &B) -> (r: bool)
    requires
        a.readable(),
        b.readable(),
    ensures
        r == (a.feature().seqid == b.feature().seqid && span_covers(
            a.feature().interval,
            b.feature().interval,
        )),
{
    let left = chars_of(a.seqid());
    let right = chars_of(b.seqid());
    same_chars(&left, &right) && a.interval().contains(b.interval())
}

impl GffObjectT for GffObject {
    open spec fn readable(&self) -> bool {
        true
    }

    open spec fn feature(&self) -> FeatureView {
        FeatureView {
            seqid: self.seqid@,
            strand: self.strand,
            source: self.source@,
            feature_type: self.g_type,
            interval: self.interval@,
            attrs: self.attrs@,
            children: self.children@,
        }
    }

    fn seqid(&self) -> (r: &str) {
        self.seqid.as_str()
    }

    fn strand(&self) -> (r: char) {
        self.strand
    }

    fn get_type(&self) -> (r: Types) {
        self.g_type
    }

    fn source(&self) -> (r: &str) {
        self.source.as_str()
    }

    fn interval(&self) -> (r: &Interval) {
        &self.interval
    }

    fn get_attrs(&self) -> (r: &Attributes) {
        &self.attrs
    }

    fn children(&self) -> (r: &[usize]) {
        self.children.as_slice()
    }

    fn set_attr(&mut self, key: &str, value: String) {
        self.attrs.insert(key.to_owned(), value);
    }

    fn set_type(&mut self, gtype: Types) {
        self.g_type = gtype;
    }
}

} // verus!
