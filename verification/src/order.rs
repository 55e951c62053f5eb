//! The order of intervals and of records.
//!
//! Intervals are ordered by their start and then by their end. Records are
//! ordered by the name of their sequence, then by strand, then by interval.

use vstd::prelude::*;
use vstd::std_specs::cmp::{PartialEqSpecImpl, PartialOrdSpecImpl};
use std::cmp::Ordering;
use crate::exon::Exon;
use crate::interval::Interval;
use crate::object::GffObject;
use crate::text::{chars_of, compare_chars, text_rank};

verus! {

/// The order of two numbers.
pub open spec fn number_order(a: int, b: int) -> Ordering {
    if a < b {
        Ordering::Less
    } else if a > b {
        Ordering::Greater
    } else {
        Ordering::Equal
    }
}

/// The first order where it decides, else the second.
pub open spec fn then_order(first: Ordering, second: Ordering) -> Ordering {
    match first {
        Ordering::Equal => second,
        _ => first,
    }
}

/// The order of two intervals: by start, then by end.
pub open spec fn interval_order(a: Interval, b: Interval) -> Ordering {
    then_order(number_order(a.lo(), b.lo()), number_order(a.hi(), b.hi()))
}

/// The order of two strands, by their characters.
pub open spec fn strand_order(a: char, b: char) -> Ordering {
    if a < b {
        Ordering::Less
    } else if a > b {
        Ordering::Greater
    } else {
        Ordering::Equal
    }
}

/// The order of two sequence names, as in a dictionary.
pub open spec fn name_order(a: Seq<char>, b: Seq<char>) -> Ordering {
    number_order(text_rank(a, b), 0)
}

/// The order of two records: by sequence name, then by strand, then by
/// interval.
pub open spec fn record_order(a: GffObject, b: GffObject) -> Ordering {
    then_order(
        name_order(a.seqid@, b.seqid@),
        then_order(strand_order(a.strand, b.strand), interval_order(a.interval, b.interval)),
    )
}

/// Compares two intervals: by start, then by end.
pub fn compare_intervals(a: &Interval, b: &Interval) -> (r: Ordering)
    ensures
        r == interval_order(*a, *b),
{
    if a.start() < b.start() {
        Ordering::Less
    } else if a.start() > b.start() {
        Ordering::Greater
    } else if a.end() < b.end() {
        Ordering::Less
    } else if a.end() > b.end() {
        Ordering::Greater
    } else {
        Ordering::Equal
    }
}

/// Compares two records: by sequence name, then by strand, then by
/// interval.
pub fn compare_records(a: &GffObject, b: &GffObject) -> (r: Ordering)
    ensures
        r == record_order(*a, *b),
{
    let left = chars_of(a.seqid.as_str());
    let right = chars_of(b.seqid.as_str());
    let rank = compare_chars(&left, &right);
    if rank < 0 {
        Ordering::Less
    } else if rank > 0 {
        Ordering::Greater
    } else if a.strand < b.strand {
        Ordering::Less
    } else if a.strand > b.strand {
        Ordering::Greater
    } else {
        compare_intervals(&a.interval, &b.interval)
    }
}

/// The order of two exons: by sequence name, then by strand, then by
/// interval.
pub open spec fn exon_order(a: Exon, b: Exon) -> Ordering {
    then_order(
        name_order(a.seqid@, b.seqid@),
        then_order(strand_order(a.strand, b.strand), interval_order(a.interval, b.interval)),
    )
}

/// Compares two exons: by sequence name, then by strand, then by interval.
pub fn compare_exons(a: &Exon, b: &Exon) -> (r: Ordering)
    ensures
        r == exon_order(*a, *b),
{
    let left = chars_of(a.seqid.as_str());
    let right = chars_of(b.seqid.as_str());
    let rank = compare_chars(&left, &right);
    if rank < 0 {
        Ordering::Less
    } else if rank > 0 {
        Ordering::Greater
    } else if a.strand < b.strand {
        Ordering::Less
    } else if a.strand > b.strand {
        Ordering::Greater
    } else {
        compare_intervals(&a.interval, &b.interval)
    }
}

impl PartialOrd for Exon {
    fn partial_cmp(&self, other: &Exon) -> (r: Option<Ordering>) {
        Some(compare_exons(self, other))
    }
}

impl PartialOrdSpecImpl for Exon {
    open spec fn obeys_partial_cmp_spec() -> bool {
        true
    }

    open spec fn partial_cmp_spec(&self, other: &Exon) -> Option<Ordering> {
        Some(exon_order(*self, *other))
    }
}

impl PartialEq for Interval {
    /// Two intervals are equal where they have the same bounds.
    fn eq(&self, other: &Interval) -> (r: bool) {
        self.same(other)
    }
}

impl PartialEqSpecImpl for Interval {
    open spec fn obeys_eq_spec() -> bool {
        true
    }

    open spec fn eq_spec(&self, other: &Interval) -> bool {
        self@ == other@
    }
}

impl Eq for Interval {

}

impl PartialOrd for Interval {
    fn partial_cmp(&self, other: &Interval) -> (r: Option<Ordering>) {
        Some(compare_intervals(self, other))
    }
}

impl PartialOrdSpecImpl for Interval {
    open spec fn obeys_partial_cmp_spec() -> bool {
        true
    }

    open spec fn partial_cmp_spec(&self, other: &Interval) -> Option<Ordering> {
        Some(interval_order(*self, *other))
    }
}

impl PartialOrd for GffObject {
    fn partial_cmp(&self, other: &GffObject) -> (r: Option<Ordering>) {
        Some(compare_records(self, other))
    }
}

impl PartialOrdSpecImpl for GffObject {
    open spec fn obeys_partial_cmp_spec() -> bool {
        true
    }

    open spec fn partial_cmp_spec(&self, other: &GffObject) -> Option<Ordering> {
        Some(record_order(*self, *other))
    }
}

} // verus!
