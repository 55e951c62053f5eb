//! Readers over the lines of annotation files: the dialect of a file is
//! detected from its content, and several files are read as one stream of
//! records.

use vstd::prelude::*;
use crate::error::{FormatFault, GffError};
use crate::object::{reads_as, GffObject};
use crate::text::{
    chars_of, lowercase, pieces, spells, split_chars, string_of, trim, trim_chars, CharClass,
};
use crate::utils::{column_dialect, columns_of, dialect_of};

verus! {

/// The texts of the lines of a file.
pub open spec fn line_texts(lines: Seq<String>) -> Seq<Seq<char>> {
    Seq::new(lines.len(), |i: int| lines[i]@)
}

/// Whether a line carries no record: it is blank, or a comment that begins
/// with `#`.
pub open spec fn is_skipped(line: Seq<char>) -> bool {
    trim(line, CharClass::Whitespace).len() == 0 || line[0] == '#'
}

/// Whether a data line is of type `transcript`, whatever the case.
pub open spec fn is_transcript_line(line: Seq<char>) -> bool {
    lowercase(columns_of(line)[2]) == "transcript"@
}

/// The dialect of the file whose lines from `from` on are still to be
/// looked at, or the reason and the line at which detection fails.
///
/// Blank lines and comments are passed over. Every other line must have nine
/// columns. The first line of type `transcript` decides by its attribute
/// column. Detection fails at a line without nine columns, at a transcript
/// line that follows neither dialect, and, with the number of lines as its
/// place, where the file has no transcript line.
pub open spec fn file_dialect(lines: Seq<Seq<char>>, from: int) -> Result<
    bool,
    (FormatFault, int),
>
    decreases lines.len() - from,
{
    if from < 0 || from >= lines.len() {
        Err((FormatFault::NoTranscript, lines.len() as int))
    } else if is_skipped(lines[from]) {
        file_dialect(lines, from + 1)
    } else if columns_of(lines[from]).len() != 9 {
        Err((FormatFault::ColumnCount, from))
    } else if is_transcript_line(lines[from]) {
        match dialect_of(columns_of(lines[from])[8]) {
            Some(gff) => Ok(gff),
            None => Err((FormatFault::Neither, from)),
        }
    } else {
        file_dialect(lines, from + 1)
    }
}

/// The lines from `from` on that carry a record.
pub open spec fn data_lines(lines: Seq<Seq<char>>, from: int) -> Seq<Seq<char>>
    decreases lines.len() - from,
{
    if from < 0 || from >= lines.len() {
        Seq::empty()
    } else if is_skipped(lines[from]) {
        data_lines(lines, from + 1)
    } else {
        seq![lines[from]] + data_lines(lines, from + 1)
    }
}

/// Decides whether a line carries no record.
pub fn skips(line: &Vec<char>) -> (b: bool)
    ensures
        b == is_skipped(line@),
{
    let trimmed = trim_chars(line, CharClass::Whitespace);
    trimmed.len() == 0 || line[0] == '#'
}

/// What one data line says about the dialect of its file.
enum Verdict {
    /// The line is no transcript line.
    Pass,
    /// The line decides the dialect.
    Dialect(bool),
    /// Detection fails at the line.
    Fail(FormatFault),
}

/// Looks at one data line.
fn judge(line: &Vec<char>) -> (v: Verdict)
    ensures
        match v {
            Verdict::Pass => columns_of(line@).len() == 9 && !is_transcript_line(line@),
            Verdict::Dialect(gff) => columns_of(line@).len() == 9 && is_transcript_line(line@)
                && dialect_of(columns_of(line@)[8]) == Some(gff),
            Verdict::Fail(reason) => if columns_of(line@).len() != 9 {
                reason == FormatFault::ColumnCount
            } else {
                is_transcript_line(line@) && dialect_of(columns_of(line@)[8]) is None && reason
                    == FormatFault::Neither
            },
        },
{
    let trimmed = trim_chars(line, CharClass::Whitespace);
    let columns = split_chars(&trimmed, CharClass::Tab);
    if columns.len() != 9 {
        return Verdict::Fail(FormatFault::ColumnCount);
    }
    proof {
        assert(pieces(columns@)[2] == columns@[2]@);
        assert(pieces(columns@)[8] == columns@[8]@);
    }
    let lowered = string_of(&columns[2]).as_str().to_lowercase();
    let name = chars_of(lowered.as_str());
    if spells(&name, "transcript") {
        match column_dialect(&columns[8]) {
            Some(gff) => Verdict::Dialect(gff),
            None => Verdict::Fail(FormatFault::Neither),
        }
    } else {
        Verdict::Pass
    }
}

/// Detects the dialect of a file from its lines.
pub fn detect_dialect(lines: &Vec<String>) -> (r: Result<bool, (FormatFault, usize)>)
    ensures
        match r {
            Ok(gff) => file_dialect(line_texts(lines@), 0) == Ok::<bool, (FormatFault, int)>(gff),
            Err((reason, at)) => file_dialect(line_texts(lines@), 0) == Err::<
                bool,
                (FormatFault, int),
            >((reason, at as int)),
        },
{
    let ghost texts = line_texts(lines@);
    let mut i: usize = 0;
    while i < lines.len()
        invariant
            i <= lines@.len(),
            texts == line_texts(lines@),
            file_dialect(texts, 0) == file_dialect(texts, i as int),
        decreases lines@.len() - i,
    {
        let line = chars_of(lines[i].as_str());
        assert(texts[i as int] == line@);
        if !skips(&line) {
            match judge(&line) {
                Verdict::Pass => {},
                Verdict::Dialect(gff) => {
                    return Ok(gff);
                },
                Verdict::Fail(reason) => {
                    return Err((reason, i));
                },
            }
        }
        i += 1;
    }
    Err((FormatFault::NoTranscript, lines.len()))
}

/// The reader of one file: its lines, how far they were read, and the
/// dialect that was detected from them.
pub struct STReader {
    fname: String,
    lines: Vec<String>,
    pos: usize,
    gff: bool,
}

impl STReader {
    /// The name of the file.
    pub closed spec fn name(&self) -> Seq<char> {
        self.fname@
    }

    /// The texts of all lines of the file.
    pub closed spec fn texts(&self) -> Seq<Seq<char>> {
        line_texts(self.lines@)
    }

    /// How many lines were read.
    pub closed spec fn position(&self) -> int {
        self.pos as int
    }

    /// The dialect of the file: `true` for GFF.
    pub closed spec fn dialect(&self) -> bool {
        self.gff
    }

    /// The invariant of the reader: the position lies within the file, and
    /// the dialect is the one that detection finds.
    pub closed spec fn wf(&self) -> bool {
        &&& self.pos <= self.lines@.len()
        &&& file_dialect(line_texts(self.lines@), 0) == Ok::<bool, (FormatFault, int)>(self.gff)
    }

    /// The lines with a record that are still to be read.
    pub open spec fn remaining(&self) -> Seq<Seq<char>> {
        data_lines(self.texts(), self.position())
    }

    /// Whether the failure is the one with which detection on the lines of
    /// the file `fname` ends: it carries the reason and the line at which
    /// detection fails, or the name of the file where no line is at fault.
    pub open spec fn detection_fails(e: GffError, fname: Seq<char>, lines: Seq<Seq<char>>) -> bool {
        match file_dialect(lines, 0) {
            Ok(_) => false,
            Err((reason, at)) => e.is_format(
                if 0 <= at < lines.len() {
                    lines[at]
                } else {
                    fname
                },
                reason,
            ),
        }
    }

    /// Opens a reader over the lines of the file `fname`. The dialect is
    /// detected from the lines; the reader then stands before the first line
    /// again, so that no line is lost to detection.
    pub fn new(fname: &str, lines: Vec<String>) -> (r: Result<STReader, GffError>)
        ensures
            match r {
                Ok(reader) => {
                    &&& reader.wf()
                    &&& reader.name() == fname@
                    &&& reader.texts() == line_texts(lines@)
                    &&& reader.position() == 0
                    &&& reader.remaining() == data_lines(line_texts(lines@), 0)
                    &&& file_dialect(line_texts(lines@), 0) == Ok::<bool, (FormatFault, int)>(
                        reader.dialect(),
                    )
                },
                Err(e) => Self::detection_fails(e, fname@, line_texts(lines@)),
            },
    {
        let mut reader = STReader { fname: fname.to_owned(), lines, pos: 0, gff: false };
        match reader._set_gff() {
            Ok(()) => Ok(reader),
            Err(e) => Err(e),
        }
    }

    /// Detects the dialect of the file anew and goes back before its first
    /// line, wherever the reader stood and however detection ends.
    pub fn _set_gff(&mut self) -> (r: Result<(), GffError>)
        ensures
            final(self).name() == old(self).name(),
            final(self).texts() == old(self).texts(),
            final(self).position() == 0,
            final(self).remaining() == data_lines(old(self).texts(), 0),
            match r {
                Ok(()) => final(self).wf() && file_dialect(old(self).texts(), 0) == Ok::<
                    bool,
                    (FormatFault, int),
                >(final(self).dialect()),
                Err(e) => Self::detection_fails(e, old(self).name(), old(self).texts())
                    && final(self).dialect() == old(self).dialect(),
            },
    {
        let found = detect_dialect(&self.lines);
        self.pos = 0;
        match found {
            Ok(gff) => {
                self.gff = gff;
                Ok(())
            },
            Err((reason, at)) => {
                let text = if at < self.lines.len() {
                    self.lines[at].clone()
                } else {
                    self.fname.clone()
                };
                Err(GffError::FormatAmbiguous { text, reason })
            },
        }
    }

    /// The dialect of the file: `true` for GFF, `false` for GTF.
    pub fn is_gff(&self) -> (b: bool)
        ensures
            b == self.dialect(),
    {
        self.gff
    }

    /// The next line that carries a record; none when the file is read to
    /// its end. Blank lines and comments are passed over.
    pub fn next(&mut self) -> (r: Option<String>)
        requires
            old(self).wf(),
        ensures
            final(self).wf(),
            final(self).name() == old(self).name(),
            final(self).texts() == old(self).texts(),
            final(self).dialect() == old(self).dialect(),
            match r {
                Some(line) => old(self).remaining().len() > 0 && line@ == old(self).remaining()[0]
                    && final(self).remaining() == old(self).remaining().drop_first(),
                None => old(self).remaining().len() == 0 && final(self).remaining().len() == 0,
            },
    {
        let ghost texts = line_texts(self.lines@);
        let ghost start = self.pos as int;
        while self.pos < self.lines.len()
            invariant
                self.pos <= self.lines@.len(),
                self.fname == old(self).fname,
                self.lines == old(self).lines,
                self.gff == old(self).gff,
                old(self).wf(),
                start == old(self).pos,
                texts == line_texts(self.lines@),
                data_lines(texts, self.pos as int) == data_lines(texts, start),
            decreases self.lines@.len() - self.pos,
        {
            let line = chars_of(self.lines[self.pos].as_str());
            assert(texts[self.pos as int] == line@);
            let at = self.pos;
            self.pos = self.pos + 1;
            if !skips(&line) {
                proof {
                    let rest = data_lines(texts, at + 1);
                    assert((seq![texts[at as int]] + rest).drop_first() =~= rest);
                }
                return Some(self.lines[at].clone());
            }
        }
        None
    }
}

/// A line that is still to be read, with the dialect of its file.
pub type Pending = (Seq<char>, bool);

/// The lines of one file, each with the dialect of the file.
pub open spec fn tagged(lines: Seq<Seq<char>>, gff: bool) -> Seq<Pending> {
    Seq::new(lines.len(), |i: int| (lines[i], gff))
}

/// The lines that the readers from `k` on still have to give, file after
/// file.
pub open spec fn pending_from(readers: Seq<STReader>, k: int) -> Seq<Pending>
    decreases readers.len() - k,
{
    if k < 0 || k >= readers.len() {
        Seq::empty()
    } else {
        tagged(readers[k].remaining(), readers[k].dialect()) + pending_from(readers, k + 1)
    }
}

/// Readers that are read to their end add nothing to what is pending.
proof fn lemma_pending_skip(readers: Seq<STReader>, k: int, i: int)
    requires
        0 <= k <= i <= readers.len(),
        forall|j: int| k <= j < i ==> (#[trigger] readers[j]).remaining().len() == 0,
    ensures
        pending_from(readers, k) == pending_from(readers, i),
    decreases i - k,
{
    if k < i {
        lemma_pending_skip(readers, k + 1, i);
        assert(tagged(readers[k].remaining(), readers[k].dialect()) =~= Seq::<Pending>::empty());
        assert(Seq::<Pending>::empty() + pending_from(readers, k + 1) =~= pending_from(
            readers,
            k + 1,
        ));
    }
}

/// What is pending depends on what remains in each reader and on its
/// dialect alone.
proof fn lemma_pending_same(a: Seq<STReader>, b: Seq<STReader>, k: int)
    requires
        a.len() == b.len(),
        0 <= k,
        forall|j: int|
            k <= j < a.len() ==> (#[trigger] a[j]).remaining() == b[j].remaining()
                && a[j].dialect() == b[j].dialect(),
    ensures
        pending_from(a, k) == pending_from(b, k),
    decreases a.len() - k,
{
    if k < a.len() {
        lemma_pending_same(a, b, k + 1);
        assert(a[k].remaining() == b[k].remaining());
    }
}

/// A reader that is added gives its lines after all others.
proof fn lemma_pending_push(readers: Seq<STReader>, r: STReader, k: int)
    requires
        0 <= k <= readers.len(),
    ensures
        pending_from(readers.push(r), k) == pending_from(readers, k) + tagged(
            r.remaining(),
            r.dialect(),
        ),
    decreases readers.len() - k,
{
    let more = readers.push(r);
    if k < readers.len() {
        lemma_pending_push(readers, r, k + 1);
        assert(more[k] == readers[k]);
        let head = tagged(readers[k].remaining(), readers[k].dialect());
        let tail = pending_from(readers, k + 1);
        let last = tagged(r.remaining(), r.dialect());
        assert(head + (tail + last) =~= (head + tail) + last);
    } else {
        assert(more[k] == r);
        assert(pending_from(more, k + 1) =~= Seq::<Pending>::empty());
        assert(pending_from(readers, k) =~= Seq::<Pending>::empty());
        let last = tagged(r.remaining(), r.dialect());
        assert(last + Seq::<Pending>::empty() =~= Seq::<Pending>::empty() + last);
    }
}

/// A reader over several files that gives their records as one stream, file
/// after file in the order in which the files were added.
pub struct TReader {
    fnames: Vec<String>,
    readers: Vec<STReader>,
    failed: bool,
}

impl TReader {
    /// The readers of the files, in the order in which they were added.
    pub closed spec fn files(&self) -> Seq<STReader> {
        self.readers@
    }

    /// Whether a line was rejected, which ends the stream.
    pub closed spec fn has_failed(&self) -> bool {
        self.failed
    }

    /// The invariant of the reader: each file has its name and a valid
    /// reader.
    pub closed spec fn wf(&self) -> bool {
        &&& self.fnames@.len() == self.readers@.len()
        &&& forall|i: int|
            0 <= i < self.readers@.len() ==> (#[trigger] self.readers@[i]).wf()
                && self.readers@[i].name() == self.fnames@[i]@
    }

    /// The lines that are still to be read, each with the dialect of its
    /// file. None are left once a line was rejected.
    pub open spec fn pending(&self) -> Seq<Pending> {
        if self.has_failed() {
            Seq::empty()
        } else {
            pending_from(self.files(), 0)
        }
    }

    /// A reader over the lines of one file, or over no file at all.
    pub fn new(args: Option<(&str, Vec<String>)>) -> (r: Result<TReader, GffError>)
        ensures
            match r {
                Ok(t) => t.wf() && !t.has_failed() && match args {
                    Some((fname, lines)) => {
                        &&& t.files().len() == 1
                        &&& t.files()[0].name() == fname@
                        &&& t.files()[0].texts() == line_texts(lines@)
                        &&& t.files()[0].position() == 0
                        &&& file_dialect(line_texts(lines@), 0) == Ok::<bool, (FormatFault, int)>(
                            t.files()[0].dialect(),
                        )
                        &&& t.pending() == tagged(
                            data_lines(line_texts(lines@), 0),
                            t.files()[0].dialect(),
                        )
                    },
                    None => t.files().len() == 0 && t.pending().len() == 0,
                },
                Err(e) => match args {
                    Some((fname, lines)) => STReader::detection_fails(
                        e,
                        fname@,
                        line_texts(lines@),
                    ),
                    None => false,
                },
            },
    {
        let mut t = TReader::default();
        proof {
            assert(pending_from(t.files(), 0) =~= Seq::<Pending>::empty());
        }
        match args {
            Some((fname, lines)) => {
                match t.add(fname, lines) {
                    Ok(()) => {
                        proof {
                            let own = tagged(
                                data_lines(line_texts(lines@), 0),
                                t.files()[0].dialect(),
                            );
                            assert(Seq::<Pending>::empty() + own =~= own);
                        }
                        Ok(t)
                    },
                    Err(e) => Err(e),
                }
            },
            None => Ok(t),
        }
    }

    /// Adds the file `fname` with its lines behind the files that the reader
    /// has. A file whose dialect cannot be told is not added, and the reader
    /// stays as it is.
    pub fn add(&mut self, fname: &str, lines: Vec<String>) -> (r: Result<(), GffError>)
        requires
            old(self).wf(),
        ensures
            final(self).wf(),
            final(self).has_failed() == old(self).has_failed(),
            match r {
                Ok(()) => {
                    &&& final(self).files().len() == old(self).files().len() + 1
                    &&& final(self).files().drop_last() == old(self).files()
                    &&& final(self).files().last().name() == fname@
                    &&& final(self).files().last().texts() == line_texts(lines@)
                    &&& final(self).files().last().position() == 0
                    &&& file_dialect(line_texts(lines@), 0) == Ok::<bool, (FormatFault, int)>(
                        final(self).files().last().dialect(),
                    )
                    &&& pending_from(final(self).files(), 0) == pending_from(old(self).files(), 0)
                        + tagged(
                        data_lines(line_texts(lines@), 0),
                        final(self).files().last().dialect(),
                    )
                },
                Err(e) => final(self).files() == old(self).files() && STReader::detection_fails(
                    e,
                    fname@,
                    line_texts(lines@),
                ),
            },
    {
        match STReader::new(fname, lines) {
            Ok(reader) => {
                proof {
                    lemma_pending_push(self.readers@, reader, 0);
                    assert(self.readers@.push(reader).drop_last() =~= self.readers@);
                }
                self.fnames.push(fname.to_owned());
                self.readers.push(reader);
                Ok(())
            },
            Err(e) => Err(e),
        }
    }

    /// The next record of the stream; none when all files are read to their
    /// end.
    ///
    /// The first file that still has a line gives it, and the line is read in
    /// the dialect of that file. A line that is rejected comes out as the
    /// failure, and ends the stream.
    pub fn next(&mut self) -> (r: Option<Result<GffObject, GffError>>)
        requires
            old(self).wf(),
        ensures
            final(self).wf(),
            final(self).files().len() == old(self).files().len(),
            match r {
                Some(item) => {
                    &&& old(self).pending().len() > 0
                    &&& reads_as(item, old(self).pending()[0].0, old(self).pending()[0].1)
                    &&& final(self).has_failed() == item is Err
                    &&& item is Ok ==> final(self).pending() == old(self).pending().drop_first()
                },
                None => old(self).pending().len() == 0 && final(self).pending().len() == 0
                    && final(self).has_failed() == old(self).has_failed(),
            },
    {
        if self.failed {
            return None;
        }
        let ghost before = self.readers@;
        let n = self.readers.len();
        let mut i: usize = 0;
        while i < n
            invariant
                i <= n,
                n == before.len(),
                self.readers@.len() == n,
                self.fnames == old(self).fnames,
                !self.failed,
                !old(self).failed,
                before == old(self).readers@,
                old(self).wf(),
                forall|k: int|
                    0 <= k < n ==> (#[trigger] self.readers@[k]).wf() && self.readers@[k].name()
                        == before[k].name(),
                forall|k: int|
                    0 <= k < i ==> (#[trigger] self.readers@[k]).remaining().len() == 0,
                forall|k: int| 0 <= k < i ==> (#[trigger] before[k]).remaining().len() == 0,
                forall|k: int| i <= k < n ==> #[trigger] self.readers@[k] == before[k],
            decreases n - i,
        {
            let ghost seen = self.readers@;
            let gff = self.readers[i].is_gff();
            let got = self.readers[i].next();
            proof {
                assert forall|k: int| 0 <= k < n && k != i implies self.readers@[k]
                    == seen[k] by {}
            }
            match got {
                Some(line) => {
                    let item = GffObject::new(line.as_str(), gff);
                    if item.is_err() {
                        self.failed = true;
                    }
                    proof {
                        let now = self.readers@;
                        let rem = before[i as int].remaining();
                        lemma_pending_skip(before, 0, i as int);
                        lemma_pending_skip(now, 0, i as int);
                        lemma_pending_same(now, before, i + 1);
                        assert(tagged(rem.drop_first(), gff) =~= tagged(rem, gff).drop_first());
                        assert((tagged(rem, gff) + pending_from(before, i + 1)).drop_first()
                            =~= tagged(rem, gff).drop_first() + pending_from(before, i + 1));
                        assert(pending_from(before, 0)[0] == (line@, gff));
                    }
                    return Some(item);
                },
                None => {},
            }
            i += 1;
        }
        proof {
            lemma_pending_skip(before, 0, n as int);
            lemma_pending_skip(self.readers@, 0, n as int);
        }
        None
    }
}

impl Default for TReader {
    /// A reader without files.
    fn default() -> (t: TReader)
        ensures
            t.wf(),
            t.files().len() == 0,
            !t.has_failed(),
    {
        TReader { fnames: Vec::new(), readers: Vec::new(), failed: false }
    }
}

} // verus!
