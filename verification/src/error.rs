//! The typed failures of the library.

use vstd::prelude::*;
use vstd::string::StringExecFns;

verus! {

/// Why a line is not a valid annotation record.
#[derive(Clone, Copy, Debug, PartialEq, Eq, Structural)]
pub enum LineFault {
    /// The line does not have nine tab-separated columns.
    ColumnCount,
    /// The start coordinate is not an unsigned integer.
    Start,
    /// The end coordinate is not an unsigned integer.
    End,
    /// The start coordinate lies behind the end coordinate.
    Range,
    /// The strand is not exactly one of `+`, `-` and `.`.
    Strand,
    /// The attribute column holds no attribute.
    Attributes,
}

/// Why the dialect of a line or of a file cannot be told.
#[derive(Clone, Copy, Debug, PartialEq, Eq, Structural)]
pub enum FormatFault {
    /// The line is a comment.
    Comment,
    /// A data line does not have nine tab-separated columns.
    ColumnCount,
    /// The attribute column follows neither dialect.
    Neither,
    /// No line of type `transcript` was found.
    NoTranscript,
}

/// A failure of the library.
#[derive(Debug)]
#[allow(inconsistent_fields)]
pub enum GffError {
    /// The dialect could not be told; `text` is the offending line, or the
    /// name of the file where no single line is at fault.
    FormatAmbiguous { text: String, reason: FormatFault },
    /// A line was rejected; `line` is its text.
    MalformedLine { line: String, reason: LineFault },
    /// The bounds of an interval are in the wrong order.
    InvalidRange { start: usize, end: usize },
    /// The record at position `index` of a store does not know its position.
    Unplaced { index: usize },
    /// An arena index does not name a stored record.
    IndexOutOfRange { index: usize },
    /// A record has no parent that is stored.
    NoParent,
}

impl GffError {
    /// Whether this is a `FormatAmbiguous` failure with the given text and
    /// reason.
    pub open spec fn is_format(self, text: Seq<char>, reason: FormatFault) -> bool {
        match self {
            GffError::FormatAmbiguous { text: t, reason: r } => t@ == text && r == reason,
            _ => false,
        }
    }

    /// Whether this is a `MalformedLine` failure with the given line and
    /// reason.
    pub open spec fn is_malformed(self, line: Seq<char>, reason: LineFault) -> bool {
        match self {
            GffError::MalformedLine { line: l, reason: r } => l@ == line && r == reason,
            _ => false,
        }
    }

    /// The sentence that describes the failure.
    pub open spec fn sentence(self) -> Seq<char> {
        match self {
            GffError::FormatAmbiguous { text: _, reason } => match reason {
                FormatFault::Comment => "Cannot determine format from comment line"@,
                FormatFault::ColumnCount => "Invalid number of columns"@,
                FormatFault::Neither => "Cannot determine format"@,
                FormatFault::NoTranscript => "Unable to determine file format"@,
            },
            GffError::MalformedLine { line: _, reason } => match reason {
                LineFault::ColumnCount => "Invalid number of columns in GFF/GTF line"@,
                LineFault::Start => "Invalid start coordinate in GFF/GTF line"@,
                LineFault::End => "Invalid end coordinate in GFF/GTF line"@,
                LineFault::Range => "Start behind end in GFF/GTF line"@,
                LineFault::Strand => "Invalid strand in GFF/GTF line"@,
                LineFault::Attributes => "No attributes in GFF/GTF line"@,
            },
            GffError::InvalidRange { start: _, end: _ } => "Interval start behind its end"@,
            GffError::Unplaced { index: _ } => "Object does not have an ID assigned"@,
            GffError::IndexOutOfRange { index: _ } => "Index out of range"@,
            GffError::NoParent => "Parent object could not be created"@,
        }
    }

    /// The text that is at fault, where the failure carries one.
    pub open spec fn culprit(self) -> Option<Seq<char>> {
        match self {
            GffError::FormatAmbiguous { text, reason: _ } => Some(text@),
            GffError::MalformedLine { line, reason: _ } => Some(line@),
            _ => None,
        }
    }

    /// The failure in words: the sentence that describes it and, behind a
    /// colon, the text that is at fault where the failure carries one.
    pub fn message(&self) -> (s: String)
        ensures
            s@ == (match self.culprit() {
                Some(text) => self.sentence() + ": "@ + text,
                None => self.sentence(),
            }),
    {
        let head: &str = match self {
            GffError::FormatAmbiguous { text: _, reason } => match reason {
                FormatFault::Comment => "Cannot determine format from comment line",
                FormatFault::ColumnCount => "Invalid number of columns",
                FormatFault::Neither => "Cannot determine format",
                FormatFault::NoTranscript => "Unable to determine file format",
            },
            GffError::MalformedLine { line: _, reason } => match reason {
                LineFault::ColumnCount => "Invalid number of columns in GFF/GTF line",
                LineFault::Start => "Invalid start coordinate in GFF/GTF line",
                LineFault::End => "Invalid end coordinate in GFF/GTF line",
                LineFault::Range => "Start behind end in GFF/GTF line",
                LineFault::Strand => "Invalid strand in GFF/GTF line",
                LineFault::Attributes => "No attributes in GFF/GTF line",
            },
            GffError::InvalidRange { start: _, end: _ } => "Interval start behind its end",
            GffError::Unplaced { index: _ } => "Object does not have an ID assigned",
            GffError::IndexOutOfRange { index: _ } => "Index out of range",
            GffError::NoParent => "Parent object could not be created",
        };
        let mut s = head.to_owned();
        match self {
            GffError::FormatAmbiguous { text, reason: _ } => {
                s.append(": ");
                s.append(text.as_str());
            },
            GffError::MalformedLine { line, reason: _ } => {
                s.append(": ");
                s.append(line.as_str());
            },
            _ => {},
        }
        s
    }
}

} // verus!
