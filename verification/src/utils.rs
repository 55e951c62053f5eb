//! Feature types, the attribute codec and the dialect test for single lines.

use vstd::prelude::*;
use crate::attributes::{put, Attributes, Pair};
use crate::error::{FormatFault, GffError};
use crate::text::{
    chars_of, contains_chars, contains_class, ends_with, find_first, first_index, has_class,
    has_infix, has_prefix, has_suffix, lowercase, pieces, slice_of, split, split_chars, spells,
    starts_with, string_of, trim, trim_chars, trim_end, trim_end_chars, CharClass,
};

verus! {

/// The kinds of annotated features. They are ordered as they are listed; the
/// order serves display and has no other meaning.
#[derive(Clone, Copy, Debug, PartialEq, Eq, Structural, PartialOrd, Ord, Hash)]
pub enum Types {
    /// A gene.
    Gene,
    /// A transcript; `mrna` names one too.
    Transcript,
    /// An exon.
    Exon,
    /// A coding sequence.
    CDS,
    /// An untranslated region.
    UTR,
    /// An intron.
    Intron,
    /// A region between genes.
    Intergenic,
    /// A kind that a caller assigns; no type column names it.
    Other,
    /// A type column that names none of the kinds.
    Unknown,
}

impl Default for Types {
    fn default() -> (t: Types)
        ensures
            t == Types::Unknown,
    {
        Types::Unknown
    }
}

impl Types {
    /// The name under which a type is written out.
    pub open spec fn name(self) -> Seq<char> {
        match self {
            Types::Gene => "gene"@,
            Types::Transcript => "transcript"@,
            Types::Exon => "exon"@,
            Types::CDS => "CDS"@,
            Types::UTR => "UTR"@,
            Types::Intron => "intron"@,
            Types::Intergenic => "intergenic"@,
            Types::Other => "other"@,
            Types::Unknown => "unknown"@,
        }
    }

    /// The type that a lowercase type column names; `mrna` is a synonym of
    /// `transcript`, and a name that is not known gives `Unknown`.
    pub open spec fn of_lowercase(name: Seq<char>) -> Types {
        if name == "gene"@ {
            Types::Gene
        } else if name == "transcript"@ || name == "mrna"@ {
            Types::Transcript
        } else if name == "exon"@ {
            Types::Exon
        } else if name == "cds"@ {
            Types::CDS
        } else if name == "utr"@ {
            Types::UTR
        } else if name == "intron"@ {
            Types::Intron
        } else if name == "intergenic"@ {
            Types::Intergenic
        } else {
            Types::Unknown
        }
    }

    /// The name of the type as text.
    pub fn to_string(&self) -> (s: String)
        ensures
            s@ == self.name(),
    {
        let name: &str = match self {
            Types::Gene => "gene",
            Types::Transcript => "transcript",
            Types::Exon => "exon",
            Types::CDS => "CDS",
            Types::UTR => "UTR",
            Types::Intron => "intron",
            Types::Intergenic => "intergenic",
            Types::Other => "other",
            Types::Unknown => "unknown",
        };
        name.to_owned()
    }

    /// Reads a type from a type column that was lowercased before.
    pub fn from_lowercase(name: &str) -> (t: Types)
        ensures
            t == Types::of_lowercase(name@),
    {
        let chars = chars_of(name);
        if spells(&chars, "gene") {
            Types::Gene
        } else if spells(&chars, "transcript") || spells(&chars, "mrna") {
            Types::Transcript
        } else if spells(&chars, "exon") {
            Types::Exon
        } else if spells(&chars, "cds") {
            Types::CDS
        } else if spells(&chars, "utr") {
            Types::UTR
        } else if spells(&chars, "intron") {
            Types::Intron
        } else if spells(&chars, "intergenic") {
            Types::Intergenic
        } else {
            Types::Unknown
        }
    }

    /// Reads a type from a type column, whatever its case.
    pub fn from_column(column: &str) -> (t: Types)
        ensures
            t == Types::of_lowercase(lowercase(column@)),
    {
        let lowered = column.to_lowercase();
        Types::from_lowercase(lowered.as_str())
    }
}

/// The key and value of one GFF pair: the text before and behind its first
/// `=`. Text without `=` is no pair.
pub open spec fn gff_pair(seg: Seq<char>) -> Option<Pair> {
    let i = first_index(seg, CharClass::Equals);
    if 0 <= i < seg.len() {
        Some((seg.subrange(0, i), seg.subrange(i + 1, seg.len() as int)))
    } else {
        None
    }
}

/// The key and value of one GTF pair: the text before its first whitespace,
/// and the text behind it without the quotes around it. Text without
/// whitespace is no pair.
pub open spec fn gtf_pair(seg: Seq<char>) -> Option<Pair> {
    let i = first_index(seg, CharClass::Whitespace);
    if 0 <= i < seg.len() {
        Some((seg.subrange(0, i), trim(seg.subrange(i + 1, seg.len() as int), CharClass::Quote)))
    } else {
        None
    }
}

/// The pair that one `;`-delimited segment spells, with the key in lowercase.
/// An empty segment and a segment that is no pair give none.
pub open spec fn pair_of(seg: Seq<char>, is_gff: bool) -> Option<Pair> {
    let t = trim(seg, CharClass::Whitespace);
    let raw = if t.len() == 0 {
        None
    } else if is_gff {
        gff_pair(t)
    } else {
        gtf_pair(t)
    };
    match raw {
        Some((k, v)) => Some((lowercase(k), v)),
        None => None,
    }
}

/// The pairs that the segments spell, a later value of a key replacing an
/// earlier one.
pub open spec fn collect_pairs(segs: Seq<Seq<char>>, is_gff: bool) -> Seq<Pair>
    decreases segs.len(),
{
    if segs.len() == 0 {
        Seq::empty()
    } else {
        let before = collect_pairs(segs.drop_last(), is_gff);
        match pair_of(segs.last(), is_gff) {
            Some((k, v)) => put(before, k, v),
            None => before,
        }
    }
}

/// The pairs that an attribute column spells in the given dialect.
pub open spec fn attribute_pairs(column: Seq<char>, is_gff: bool) -> Seq<Pair> {
    collect_pairs(split(column, CharClass::Semicolon), is_gff)
}

/// Reads one segment of an attribute column.
pub fn parse_pair(seg: &Vec<char>, is_gff: bool) -> (r: Option<(String, String)>)
    ensures
        match r {
            Some((k, v)) => pair_of(seg@, is_gff) == Some((k@, v@)),
            None => pair_of(seg@, is_gff) is None,
        },
{
    let t = trim_chars(seg, CharClass::Whitespace);
    if t.len() == 0 {
        return None;
    }
    let class = if is_gff {
        CharClass::Equals
    } else {
        CharClass::Whitespace
    };
    let i = find_first(&t, 0, class);
    proof {
        assert(t@.subrange(0, t.len() as int) =~= t@);
    }
    if i >= t.len() {
        return None;
    }
    let key_chars = slice_of(&t, 0, i);
    let rest = slice_of(&t, i + 1, t.len());
    let value_chars = if is_gff {
        rest
    } else {
        trim_chars(&rest, CharClass::Quote)
    };
    let key = string_of(&key_chars).as_str().to_lowercase();
    let value = string_of(&value_chars);
    Some((key, value))
}

/// Parses an attribute column, given as characters, into its mapping.
pub fn collect_attributes(column: &Vec<char>, is_gff: bool) -> (attrs: Attributes)
    ensures
        attrs.pairs() == attribute_pairs(column@, is_gff),
{
    let parts = split_chars(column, CharClass::Semicolon);
    let mut attrs = Attributes::new();
    let mut i: usize = 0;
    while i < parts.len()
        invariant
            i <= parts.len(),
            attrs.pairs() == collect_pairs(pieces(parts@).subrange(0, i as int), is_gff),
        decreases parts.len() - i,
    {
        let ghost done = pieces(parts@).subrange(0, i as int);
        let ghost next = pieces(parts@).subrange(0, i + 1);
        proof {
            assert(next.drop_last() =~= done);
            assert(next.last() == parts@[i as int]@);
        }
        match parse_pair(&parts[i], is_gff) {
            Some((key, value)) => {
                attrs.insert(key, value);
            },
            None => {},
        }
        i += 1;
    }
    proof {
        assert(pieces(parts@).subrange(0, parts.len() as int) =~= pieces(parts@));
    }
    attrs
}

/// Parses an attribute column into its mapping.
///
/// The column is split on `;`. In the GFF dialect a pair is split on its
/// first `=`, in the GTF dialect on its first whitespace, and there the
/// quotes around the value are removed. Keys are lowercased. Segments that are
/// no pair are left out.
pub fn extract_attributes(attr_str: &str, is_gff: bool) -> (attrs: Attributes)
    ensures
        attrs.pairs() == attribute_pairs(attr_str@, is_gff),
{
    let chars = chars_of(attr_str);
    collect_attributes(&chars, is_gff)
}

/// The text of an optional string.
pub open spec fn text_of(s: Option<String>) -> Option<Seq<char>> {
    match s {
        Some(t) => Some(t@),
        None => None,
    }
}

/// A copy of an optional string.
pub fn copy_text(s: &Option<String>) -> (r: Option<String>)
    ensures
        r == *s,
{
    match s {
        Some(t) => Some(t.clone()),
        None => None,
    }
}

/// A copy of a list of positions.
pub fn copy_positions(v: &Vec<usize>) -> (r: Vec<usize>)
    ensures
        r@ == v@,
{
    let mut r: Vec<usize> = Vec::new();
    let mut i: usize = 0;
    while i < v.len()
        invariant
            i <= v.len(),
            r@ == v@.subrange(0, i as int),
        decreases v.len() - i,
    {
        r.push(v[i]);
        i += 1;
        assert(r@ =~= v@.subrange(0, i as int));
    }
    assert(v@.subrange(0, v.len() as int) =~= v@);
    r
}

/// The attribute that holds the identity of a feature. In the GFF dialect it
/// is `id`; in the GTF dialect a gene has `gene_id`, a transcript
/// `transcript_id`, and other features have none.
pub open spec fn id_key(feature_type: Types, is_gff: bool) -> Option<Seq<char>> {
    if is_gff {
        Some("id"@)
    } else {
        match feature_type {
            Types::Gene => Some("gene_id"@),
            Types::Transcript => Some("transcript_id"@),
            _ => None,
        }
    }
}

/// The attribute that holds the identity of a feature's parent. In the GFF
/// dialect it is `parent`; in the GTF dialect a gene has none, a transcript
/// has `gene_id`, and other features have `transcript_id`.
pub open spec fn parent_key(feature_type: Types, is_gff: bool) -> Option<Seq<char>> {
    if is_gff {
        Some("parent"@)
    } else {
        match feature_type {
            Types::Gene => None,
            Types::Transcript => Some("gene_id"@),
            _ => Some("transcript_id"@),
        }
    }
}

/// The value of an optional key in a mapping.
pub open spec fn lookup(m: Map<Seq<char>, Seq<char>>, key: Option<Seq<char>>) -> Option<
    Seq<char>,
> {
    match key {
        Some(k) => if m.contains_key(k) {
            Some(m[k])
        } else {
            None
        },
        None => None,
    }
}

/// A copy of the value of `key`, if it has one.
fn value_of(attrs: &Attributes, key: &str) -> (r: Option<String>)
    ensures
        text_of(r) == lookup(attrs@, Some(key@)),
{
    match attrs.get(key) {
        Some(v) => Some(v.clone()),
        None => None,
    }
}

/// Resolves the identity of a feature from its attributes.
pub fn extract_id(attrs: &Attributes, feature_type: &Types, is_gff: bool) -> (id: Option<String>)
    ensures
        text_of(id) == lookup(attrs@, id_key(*feature_type, is_gff)),
{
    if is_gff {
        value_of(attrs, "id")
    } else {
        match feature_type {
            Types::Gene => value_of(attrs, "gene_id"),
            Types::Transcript => value_of(attrs, "transcript_id"),
            _ => None,
        }
    }
}

/// Resolves the identity of a feature's parent from its attributes.
pub fn extract_parent_id(attrs: &Attributes, feature_type: &Types, is_gff: bool) -> (id: Option<
    String,
>)
    ensures
        text_of(id) == lookup(attrs@, parent_key(*feature_type, is_gff)),
{
    if is_gff {
        value_of(attrs, "parent")
    } else {
        match feature_type {
            Types::Gene => None,
            Types::Transcript => value_of(attrs, "gene_id"),
            _ => value_of(attrs, "transcript_id"),
        }
    }
}

/// The value on which the keys agree: the value of those among them that the
/// mapping holds, where there is one and they all have the same.
pub open spec fn agreed_value(m: Map<Seq<char>, Seq<char>>, keys: Seq<Seq<char>>) -> Option<
    Seq<char>,
> {
    if exists|i: int| 0 <= i < keys.len() && m.contains_key(#[trigger] keys[i]) {
        let first = choose|i: int| 0 <= i < keys.len() && m.contains_key(#[trigger] keys[i]);
        if forall|j: int|
            0 <= j < keys.len() && m.contains_key(#[trigger] keys[j]) ==> m[keys[j]]
                == m[keys[first]] {
            Some(m[keys[first]])
        } else {
            None
        }
    } else {
        None
    }
}

/// The texts of a list of strings.
pub open spec fn texts(keys: Seq<&str>) -> Seq<Seq<char>> {
    Seq::new(keys.len(), |i: int| keys[i]@)
}

/// Looks a value up under several keys. The value is returned where at least
/// one of the keys has one and all that have one have the same.
pub fn get_attr_value(attrs: &Attributes, keys: &[&str]) -> (value: Option<String>)
    ensures
        text_of(value) == agreed_value(attrs@, texts(keys@)),
{
    let ghost m = attrs@;
    let ghost ks = texts(keys@);
    let mut value: Option<String> = None;
    let mut i: usize = 0;
    while i < keys.len()
        invariant
            i <= keys.len(),
            m == attrs@,
            ks == texts(keys@),
            match value {
                Some(v) => exists|f: int|
                    0 <= f < i && m.contains_key(#[trigger] ks[f]) && m[ks[f]] == v@,
                None => true,
            },
            value is None ==> forall|j: int| 0 <= j < i ==> !m.contains_key(#[trigger] ks[j]),
            forall|j: int|
                0 <= j < i && m.contains_key(#[trigger] ks[j]) ==> text_of(value) == Some(
                    m[ks[j]],
                ),
        decreases keys.len() - i,
    {
        assert(ks[i as int] == keys@[i as int]@);
        match attrs.get(keys[i]) {
            Some(v) => {
                match &value {
                    None => {
                        value = Some(v.clone());
                    },
                    Some(seen) => {
                        if *seen != *v {
                            proof {
                                let f = choose|f: int|
                                    0 <= f < i && m.contains_key(#[trigger] ks[f]) && m[ks[f]]
                                        == seen@;
                                assert(m.contains_key(ks[i as int]));
                                let first = choose|k: int|
                                    0 <= k < ks.len() && m.contains_key(#[trigger] ks[k]);
                                assert(m[ks[f]] != m[ks[i as int]]);
                            }
                            return None;
                        }
                    },
                }
            },
            None => {},
        }
        i += 1;
    }
    proof {
        if value is Some {
            let first = choose|k: int| 0 <= k < ks.len() && m.contains_key(#[trigger] ks[k]);
            assert(text_of(value) == Some(m[ks[first]]));
        }
    }
    value
}

/// The segments of an attribute column that the dialect test looks at: the
/// column without the whitespace around it and without trailing `;`, split on
/// `;`, each piece without the whitespace around it.
pub open spec fn attr_segments(column: Seq<char>) -> Seq<Seq<char>> {
    let core = trim_end(trim(column, CharClass::Whitespace), CharClass::Semicolon);
    let parts = split(core, CharClass::Semicolon);
    Seq::new(parts.len(), |i: int| trim(parts[i], CharClass::Whitespace))
}

/// Whether a segment begins with one of the keys that only GFF has.
pub open spec fn names_gff_key(seg: Seq<char>) -> bool {
    has_prefix(seg, "ID="@) || has_prefix(seg, "Parent="@)
}

/// Whether a segment has the form of a GTF pair: a space followed by a quote
/// somewhere, and a quote at its end.
pub open spec fn quoted_pair(seg: Seq<char>) -> bool {
    has_infix(seg, " \""@) && has_suffix(seg, "\""@)
}

/// Whether the segments follow the GFF dialect: one of them names `ID` or
/// `Parent`, and each of them holds a `=`.
pub open spec fn looks_gff(segs: Seq<Seq<char>>) -> bool {
    &&& exists|i: int| 0 <= i < segs.len() && names_gff_key(#[trigger] segs[i])
    &&& forall|i: int| 0 <= i < segs.len() ==> has_class(#[trigger] segs[i], CharClass::Equals)
}

/// Whether the segments follow the GTF dialect: each of them is a quoted
/// pair.
pub open spec fn looks_gtf(segs: Seq<Seq<char>>) -> bool {
    forall|i: int| 0 <= i < segs.len() ==> quoted_pair(#[trigger] segs[i])
}

/// The dialect of an attribute column: `true` for GFF, `false` for GTF, none
/// where it follows neither. A column that follows both counts as GFF.
pub open spec fn dialect_of(column: Seq<char>) -> Option<bool> {
    let segs = attr_segments(column);
    if looks_gff(segs) {
        Some(true)
    } else if looks_gtf(segs) {
        Some(false)
    } else {
        None
    }
}

/// Computes the segments that the dialect test looks at.
fn segments_of(column: &Vec<char>) -> (segs: Vec<Vec<char>>)
    ensures
        pieces(segs@) == attr_segments(column@),
{
    let trimmed = trim_chars(column, CharClass::Whitespace);
    let core = trim_end_chars(&trimmed, CharClass::Semicolon);
    let parts = split_chars(&core, CharClass::Semicolon);
    let mut segs: Vec<Vec<char>> = Vec::new();
    let mut i: usize = 0;
    while i < parts.len()
        invariant
            i <= parts.len(),
            segs@.len() == i,
            forall|j: int|
                0 <= j < i ==> (#[trigger] segs@[j])@ == trim(parts@[j]@, CharClass::Whitespace),
        decreases parts.len() - i,
    {
        let seg = trim_chars(&parts[i], CharClass::Whitespace);
        segs.push(seg);
        i += 1;
    }
    proof {
        let want = attr_segments(column@);
        assert(want.len() == parts@.len());
        assert forall|j: int| 0 <= j < want.len() implies pieces(segs@)[j] == want[j] by {
            assert(pieces(parts@)[j] == parts@[j]@);
        }
        assert(pieces(segs@) =~= want);
    }
    segs
}

/// Decides the dialect of an attribute column.
pub fn column_dialect(column: &Vec<char>) -> (r: Option<bool>)
    ensures
        r == dialect_of(column@),
{
    let segs = segments_of(column);
    let ghost want = attr_segments(column@);
    let id = chars_of("ID=");
    let parent = chars_of("Parent=");
    let space_quote = chars_of(" \"");
    let quote = chars_of("\"");
    let mut named = false;
    let mut all_equals = true;
    let mut all_quoted = true;
    let mut i: usize = 0;
    while i < segs.len()
        invariant
            i <= segs.len(),
            want == pieces(segs@),
            id@ == "ID="@,
            parent@ == "Parent="@,
            space_quote@ == " \""@,
            quote@ == "\""@,
            named == (exists|j: int| 0 <= j < i && names_gff_key(#[trigger] want[j])),
            all_equals == (forall|j: int|
                0 <= j < i ==> has_class(#[trigger] want[j], CharClass::Equals)),
            all_quoted == (forall|j: int| 0 <= j < i ==> quoted_pair(#[trigger] want[j])),
        decreases segs.len() - i,
    {
        let seg = &segs[i];
        assert(want[i as int] == seg@);
        let names = starts_with(seg, &id) || starts_with(seg, &parent);
        let equals = contains_class(seg, CharClass::Equals);
        let quoted = contains_chars(seg, &space_quote) && ends_with(seg, &quote);
        let ghost named_before = named;
        if names {
            named = true;
        }
        if !equals {
            all_equals = false;
        }
        if !quoted {
            all_quoted = false;
        }
        i += 1;
        proof {
            if named {
                if names {
                    assert(names_gff_key(want[i - 1]));
                } else {
                    let j = choose|j: int| 0 <= j < i - 1 && names_gff_key(#[trigger] want[j]);
                    assert(names_gff_key(want[j]));
                }
            } else {
                assert forall|j: int| 0 <= j < i implies !names_gff_key(#[trigger] want[j]) by {}
            }
        }
    }
    if named && all_equals {
        Some(true)
    } else if all_quoted {
        Some(false)
    } else {
        None
    }
}

/// Tells the dialect of an attribute column: `Ok(true)` for GFF, `Ok(false)`
/// for GTF.
pub fn attr_is_gff(attrs: &str) -> (r: Result<bool, GffError>)
    ensures
        match r {
            Ok(gff) => dialect_of(attrs@) == Some(gff),
            Err(e) => dialect_of(attrs@) is None && e.is_format(attrs@, FormatFault::Neither),
        },
{
    let chars = chars_of(attrs);
    match column_dialect(&chars) {
        Some(gff) => Ok(gff),
        None => Err(
            GffError::FormatAmbiguous { text: attrs.to_owned(), reason: FormatFault::Neither },
        ),
    }
}

/// The tab-separated columns of a line without the whitespace around it.
pub open spec fn columns_of(line: Seq<char>) -> Seq<Seq<char>> {
    split(trim(line, CharClass::Whitespace), CharClass::Tab)
}

/// The dialect of a line, or the reason why it cannot be told: the line is a
/// comment, it does not have nine columns, or its attribute column follows
/// neither dialect.
pub open spec fn line_dialect(line: Seq<char>) -> Result<bool, FormatFault> {
    if line.len() > 0 && line[0] == '#' {
        Err(FormatFault::Comment)
    } else if columns_of(line).len() != 9 {
        Err(FormatFault::ColumnCount)
    } else {
        match dialect_of(columns_of(line)[8]) {
            Some(gff) => Ok(gff),
            None => Err(FormatFault::Neither),
        }
    }
}

/// Decides the dialect of a line given as characters.
pub fn chars_dialect(line: &Vec<char>) -> (r: Result<bool, FormatFault>)
    ensures
        r == line_dialect(line@),
{
    if line.len() > 0 && line[0] == '#' {
        return Err(FormatFault::Comment);
    }
    let trimmed = trim_chars(line, CharClass::Whitespace);
    let columns = split_chars(&trimmed, CharClass::Tab);
    if columns.len() != 9 {
        return Err(FormatFault::ColumnCount);
    }
    assert(pieces(columns@)[8] == columns@[8]@);
    match column_dialect(&columns[8]) {
        Some(gff) => Ok(gff),
        None => Err(FormatFault::Neither),
    }
}

/// Tells the dialect of one annotation line: `Ok(true)` for GFF, `Ok(false)`
/// for GTF. The failure carries the line.
pub fn is_gff(line: &str) -> (r: Result<bool, GffError>)
    ensures
        match r {
            Ok(gff) => line_dialect(line@) == Ok::<bool, FormatFault>(gff),
            Err(e) => line_dialect(line@) is Err && e.is_format(line@, line_dialect(line@)->Err_0),
        },
{
    let chars = chars_of(line);
    match chars_dialect(&chars) {
        Ok(gff) => Ok(gff),
        Err(reason) => Err(GffError::FormatAmbiguous { text: line.to_owned(), reason }),
    }
}

} // verus!
