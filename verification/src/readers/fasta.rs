//! Sequences in FASTA text.
//!
//! A record opens with `>` and a header line, which is its id. The lines
//! that follow, up to the next line that opens with `>`, are its sequence.
use std::borrow::Cow;
use vstd::prelude::*;
use vstd::slice::slice_subrange;

use vstd::string::StringSliceAdditionalSpecFns;

use vstd::utf8::valid_utf8;

use crate::buffer::{ByteSource, ReadBuffer, TOO_MANY_RECORDS};
use crate::error::{check_utf8, EtError};
use crate::record::{ByteSink, Record, RecordReader};
use crate::utils::{replace_tabs, tabs_replaced};

verus! {

/// The line feed that ends every line.
pub const LF: u8 = 10;

/// The carriage return that may stand before a line feed.
pub const CR: u8 = 13;

/// The byte `>` that opens a record.
pub const OPEN: u8 = 62;

/// The byte `|` that stands for a tab in an id.
pub const PIPE: u8 = 124;

/// The message for text that does not open with `>`.
pub const BAD_START: &'static str = "Valid FASTA records start with '>'";

/// The message for a header line that the stream ends in.
pub const NO_HEADER_END: &'static str = "Incomplete record";

/// The message that asks for more bytes before a record can be framed.
pub const NEED_MORE: &'static str = "Record is not complete yet";

/// The index of the first line feed of `s` at or after `from`, and the
/// length of `s` where there is none.
pub open spec fn line_end(s: Seq<u8>, from: int) -> int
    decreases s.len() - from,
{
    if from >= s.len() {
        s.len() as int
    } else if s[from] == LF {
        from
    } else {
        line_end(s, from + 1)
    }
}

/// True when the byte at `i` is a line feed and the next byte opens a
/// record.
pub open spec fn ends_record(s: Seq<u8>, i: int) -> bool {
    s[i] == LF && i + 1 < s.len() && s[i + 1] == OPEN
}

/// The index of the first line feed of `s` at or after `from` that the
/// start of a record follows, and the length of `s` where there is none.
pub open spec fn record_break(s: Seq<u8>, from: int) -> int
    decreases s.len() - from,
{
    if from >= s.len() {
        s.len() as int
    } else if ends_record(s, from) {
        from
    } else {
        record_break(s, from + 1)
    }
}

/// True when the byte at `i` belongs to a line break: a line feed, or a
/// carriage return right before one.
pub open spec fn is_break(s: Seq<u8>, i: int) -> bool {
    s[i] == LF || (s[i] == CR && i + 1 < s.len() && s[i + 1] == LF)
}

/// The first `n` bytes of `s` without those that belong to a line break.
pub open spec fn kept(s: Seq<u8>, n: int) -> Seq<u8>
    decreases n,
{
    if n <= 0 {
        Seq::empty()
    } else if is_break(s, n - 1) {
        kept(s, n - 1)
    } else {
        kept(s, n - 1).push(s[n - 1])
    }
}

/// `s` without its line breaks.
pub open spec fn strip_breaks(s: Seq<u8>) -> Seq<u8> {
    kept(s, s.len() as int)
}

/// The length of the first `hi` bytes of `s` once the line breaks at their
/// end are cut off.
pub open spec fn trim_end(s: Seq<u8>, hi: int) -> int
    decreases hi,
{
    if hi > 0 && is_break(s, hi - 1) {
        trim_end(s, hi - 1)
    } else {
        hi
    }
}

/// Where the parts of one record lie in the bytes that hold it.
#[derive(Clone, Copy, Debug, PartialEq, Eq)]
pub struct Frame {
    /// End of the id, which starts at index 1.
    pub header_end: usize,
    /// Start of the sequence's lines.
    pub seq_start: usize,
    /// End of the sequence's lines, without the line breaks that close them
    /// before a following record.
    pub seq_end: usize,
    /// End of the record: the start of the next one.
    pub rec_end: usize,
}

/// What stands at the start of a stream of FASTA text.
pub enum Step {
    /// Nothing: the stream has ended.
    End,
    /// Too little to tell, while the stream has not ended.
    NeedMore,
    /// Text that does not open with `>`.
    BadStart,
    /// A header line that the stream ends in.
    NoHeaderEnd,
    /// A whole record.
    Record(Frame),
}

/// What stands at the start of `s`, where `eof` tells whether `s` is all
/// that will ever come.
///
/// The id runs from behind the `>` to the end of the first line. The
/// sequence runs from the next line to the line feed before the next `>`
/// that opens a line, or to the end of the stream.
pub open spec fn step_of(s: Seq<u8>, eof: bool) -> Step {
    let p = line_end(s, 0);
    let q = record_break(s, p + 1);
    if s.len() == 0 {
        if eof {
            Step::End
        } else {
            Step::NeedMore
        }
    } else if s[0] != OPEN {
        Step::BadStart
    } else if p >= s.len() {
        if eof {
            Step::NoHeaderEnd
        } else {
            Step::NeedMore
        }
    } else if q < s.len() {
        Step::Record(
            Frame {
                header_end: (if s[p - 1] == CR {
                    p - 1
                } else {
                    p
                }) as usize,
                seq_start: (p + 1) as usize,
                seq_end: (p + 1 + trim_end(s.subrange(p + 1, q + 1), q - p)) as usize,
                rec_end: (q + 1) as usize,
            },
        )
    } else if eof {
        Step::Record(
            Frame {
                header_end: (if s[p - 1] == CR {
                    p - 1
                } else {
                    p
                }) as usize,
                seq_start: (p + 1) as usize,
                seq_end: s.len() as usize,
                rec_end: s.len() as usize,
            },
        )
    } else {
        Step::NeedMore
    }
}

/// The first line feed from `from` on is at `at` when none stands before it.
pub proof fn lemma_line_end(s: Seq<u8>, from: int, at: int)
    requires
        0 <= from <= at <= s.len(),
        forall|j: int| from <= j < at ==> s[j] != LF,
        at < s.len() ==> s[at] == LF,
    ensures
        line_end(s, from) == at,
    decreases at - from,
{
    if from < at {
        lemma_line_end(s, from + 1, at);
    }
}

/// The search for the end of a record may start behind any stretch that
/// holds no such end.
pub proof fn lemma_record_break(s: Seq<u8>, from: int, at: int)
    requires
        0 <= from <= at <= s.len(),
        forall|j: int| from <= j < at ==> !ends_record(s, j),
    ensures
        record_break(s, from) == record_break(s, at),
    decreases at - from,
{
    if from < at {
        lemma_record_break(s, from + 1, at);
    }
}

impl Step {
    /// The message that reports the step, where it is a fault.
    pub open spec fn text(self) -> Seq<char> {
        match self {
            Step::NeedMore => NEED_MORE@,
            Step::BadStart => BAD_START@,
            Step::NoHeaderEnd => NO_HEADER_END@,
            _ => Seq::empty(),
        }
    }

    /// True when the step is an error rather than a result.
    pub open spec fn is_fault(self) -> bool {
        self is NeedMore || self is BadStart || self is NoHeaderEnd
    }
}

/// Tells whether the byte of `s` at `i` belongs to a line break.
pub fn is_break_at(s: &[u8], i: usize) -> (b: bool)
    requires
        i < s@.len(),
    ensures
        b == is_break(s@, i as int),
{
    s[i] == LF || (s[i] == CR && i + 1 < s.len() && s[i + 1] == LF)
}

/// Frames the record at the start of `rb`.
///
/// Gives `None` at the end of the stream, and an incomplete error where
/// more bytes are needed to tell where the record ends.
pub fn parse_frame(rb: &[u8], eof: bool) -> (r: Result<Option<Frame>, EtError>)
    ensures
        match step_of(rb@, eof) {
            Step::End => r == Ok::<Option<Frame>, EtError>(None),
            Step::Record(frame) => {
                &&& r == Ok::<Option<Frame>, EtError>(Some(frame))
                &&& 1 <= frame.header_end < frame.seq_start <= frame.seq_end <= frame.rec_end
                    <= rb@.len()
                &&& frame.rec_end >= 2
                &&& frame.seq_end == frame.rec_end || frame.seq_end == frame.seq_start + trim_end(
                    rb@.subrange(frame.seq_start as int, frame.rec_end as int),
                    frame.rec_end - frame.seq_start,
                )
            },
            fault => {
                &&& r matches Err(e)
                &&& e.msg@ == fault.text()
                &&& e.incomplete == (fault is NeedMore)
                &&& e.context is None
            },
        },
{
    let len = rb.len();
    if len == 0 {
        return if eof {
            Ok(None)
        } else {
            Err(EtError::new(NEED_MORE).incomplete())
        };
    }
    if rb[0] != OPEN {
        return Err(EtError::new(BAD_START));
    }
    let p = match memchr::memchr(LF, rb) {
        Some(p) => p,
        None => {
            proof {
                lemma_line_end(rb@, 0, len as int);
            }
            return if eof {
                Err(EtError::new(NO_HEADER_END))
            } else {
                Err(EtError::new(NEED_MORE).incomplete())
            };
        },
    };
    proof {
        lemma_line_end(rb@, 0, p as int);
    }
    let header_end = if rb[p - 1] == CR {
        p - 1
    } else {
        p
    };
    let seq_start = p + 1;
    let mut pos = seq_start;
    while pos < len
        invariant
            seq_start <= pos <= len == rb@.len(),
            rb@[0] == OPEN,
            1 <= p < len,
            line_end(rb@, 0) == p,
            seq_start == p + 1,
            header_end == if rb@[p - 1] == CR {
                p - 1
            } else {
                p as int
            },
            record_break(rb@, seq_start as int) == record_break(rb@, pos as int),
        decreases len - pos,
    {
        let tail = slice_subrange(rb, pos, len);
        match memchr::memchr(LF, tail) {
            None => {
                proof {
                    assert forall|j: int| pos <= j < len implies !ends_record(rb@, j) by {
                        assert(tail@[j - pos] == rb@[j]);
                    }
                    lemma_record_break(rb@, pos as int, len as int);
                }
                pos = len;
            },
            Some(off) => {
                let q = pos + off;
                proof {
                    assert(tail@[off as int] == rb@[q as int]);
                    assert forall|j: int| pos <= j < q implies !ends_record(rb@, j) by {
                        assert(tail@[j - pos] == rb@[j]);
                    }
                    lemma_record_break(rb@, pos as int, q as int);
                }
                if q + 1 < len && rb[q + 1] == OPEN {
                    let rec_end = q + 1;
                    let region = slice_subrange(rb, seq_start, rec_end);
                    let mut t = rec_end - seq_start;
                    while t > 0 && is_break_at(region, t - 1)
                        invariant
                            t <= region@.len(),
                            trim_end(region@, region@.len() as int) == trim_end(region@, t as int),
                        decreases t,
                    {
                        t -= 1;
                    }
                    return Ok(Some(Frame { header_end, seq_start, seq_end: seq_start + t, rec_end }));
                }
                proof {
                    lemma_record_break(rb@, q as int, q + 1);
                }
                pos = q + 1;
            },
        }
    }
    if eof {
        Ok(Some(Frame { header_end, seq_start, seq_end: len, rec_end: len }))
    } else {
        Err(EtError::new(NEED_MORE).incomplete())
    }
}

/// Both searches end between their start and the end of the text.
pub proof fn lemma_search_bounds(s: Seq<u8>, from: int)
    requires
        0 <= from <= s.len(),
    ensures
        from <= line_end(s, from) <= s.len(),
        from <= record_break(s, from) <= s.len(),
    decreases s.len() - from,
{
    if from < s.len() {
        lemma_search_bounds(s, from + 1);
    }
}

/// A line feed that has been found stays the first one, whatever follows
/// the text.
pub proof fn lemma_line_end_stable(s: Seq<u8>, t: Seq<u8>, from: int)
    requires
        s.is_prefix_of(t),
        0 <= from,
        line_end(s, from) < s.len(),
    ensures
        line_end(t, from) == line_end(s, from),
    decreases s.len() - from,
{
    if from < s.len() {
        assert(t[from] == s[from]);
        if s[from] != LF {
            lemma_line_end_stable(s, t, from + 1);
        }
    }
}

/// The end of a record that has been found stays its end, whatever
/// follows the text.
pub proof fn lemma_record_break_stable(s: Seq<u8>, t: Seq<u8>, from: int)
    requires
        s.is_prefix_of(t),
        0 <= from,
        record_break(s, from) < s.len(),
    ensures
        record_break(t, from) == record_break(s, from),
    decreases s.len() - from,
{
    if from < s.len() {
        assert(t[from] == s[from]);
        if ends_record(s, from) {
            assert(t[from + 1] == s[from + 1]);
        } else {
            lemma_record_break_stable(s, t, from + 1);
            if from + 1 < s.len() {
                assert(t[from + 1] == s[from + 1]);
            }
        }
    }
}

/// A record that is framed before the stream has ended is framed alike
/// in every continuation of the text: what a reader hands out does not
/// depend on where its refills happened to cut the stream.
pub proof fn lemma_frame_stable(s: Seq<u8>, t: Seq<u8>, eof: bool)
    requires
        s.is_prefix_of(t),
        step_of(s, false) is Record,
    ensures
        step_of(t, eof) == step_of(s, false),
{
    let p = line_end(s, 0);
    let q = record_break(s, p + 1);
    assert(t[0] == s[0]);
    lemma_search_bounds(s, 1);
    lemma_search_bounds(s, p + 1);
    lemma_line_end_stable(s, t, 0);
    lemma_record_break_stable(s, t, p + 1);
    assert(t[p - 1] == s[p - 1]);
    assert(t[p] == s[p]);
    assert(t.subrange(p + 1, q + 1) == s.subrange(p + 1, q + 1));
}

/// Text without a line feed has no line break to lose.
pub proof fn lemma_kept_all(s: Seq<u8>, n: int)
    requires
        0 <= n <= s.len(),
        !s.contains(LF),
    ensures
        kept(s, n) == s.take(n),
    decreases n,
{
    if n > 0 {
        lemma_kept_all(s, n - 1);
        assert(s.contains(s[n - 1]));
        assert(s.take(n - 1).push(s[n - 1]) == s.take(n));
    }
}

/// Line breaks at the end of a text add nothing to what is kept of it.
pub proof fn lemma_kept_trailing(s: Seq<u8>, t: int, hi: int)
    requires
        0 <= t <= hi <= s.len(),
        forall|i: int| t <= i < hi ==> is_break(s, i),
    ensures
        kept(s, hi) == kept(s, t),
    decreases hi - t,
{
    if t < hi {
        lemma_kept_trailing(s, t, hi - 1);
    }
}

/// What is kept of a text's start does not change when the text is cut
/// behind a byte that is no line break.
pub proof fn lemma_kept_prefix(s: Seq<u8>, t: int, n: int)
    requires
        0 <= n <= t <= s.len(),
        t > 0 ==> !is_break(s, t - 1),
    ensures
        kept(s.take(t), n) == kept(s, n),
    decreases n,
{
    if n > 0 {
        lemma_kept_prefix(s, t, n - 1);
    }
}

/// Behind the length that `trim_end` gives stand only line breaks, and
/// before it none.
pub proof fn lemma_trim_end(s: Seq<u8>, hi: int)
    requires
        0 <= hi <= s.len(),
    ensures
        0 <= trim_end(s, hi) <= hi,
        forall|i: int| trim_end(s, hi) <= i < hi ==> is_break(s, i),
        trim_end(s, hi) > 0 ==> !is_break(s, trim_end(s, hi) - 1),
    decreases hi,
{
    if hi > 0 && is_break(s, hi - 1) {
        lemma_trim_end(s, hi - 1);
    }
}

/// The line breaks that `trim_end` cuts off are lost to the sequence
/// anyway: stripping the cut text gives the same as stripping the whole.
pub proof fn lemma_strip_trimmed(s: Seq<u8>)
    ensures
        strip_breaks(s.take(trim_end(s, s.len() as int))) == strip_breaks(s),
{
    let t = trim_end(s, s.len() as int);
    lemma_trim_end(s, s.len() as int);
    lemma_kept_trailing(s, t, s.len() as int);
    lemma_kept_prefix(s, t, t);
}

/// Copies `raw` without its line breaks.
pub fn strip_line_breaks(raw: &[u8]) -> (out: Vec<u8>)
    ensures
        out@ == strip_breaks(raw@),
{
    let mut out: Vec<u8> = Vec::new();
    let mut i: usize = 0;
    while i < raw.len()
        invariant
            i <= raw@.len(),
            out@ == kept(raw@, i as int),
        decreases raw@.len() - i,
    {
        if !is_break_at(raw, i) {
            out.push(raw[i]);
        }
        i += 1;
    }
    out
}

/// One sequence with its id.
#[derive(Debug)]
pub struct FastaRecord<'s> {
    /// The header line, without the `>` that opens it.
    pub id: &'s str,
    /// The sequence, without line breaks. It borrows from the buffer where
    /// the sequence stands there in one piece.
    pub sequence: Cow<'s, [u8]>,
}

impl<'s> Record for FastaRecord<'s> {
    /// The id, with `|` for every tab, and the sequence.
    open spec fn fields(&self) -> Seq<Seq<u8>> {
        seq![tabs_replaced(self.id.spec_bytes(), PIPE), self.sequence@]
    }

    fn size(&self) -> (n: usize) {
        2
    }

    fn write_field<W: ByteSink>(&self, index: usize, sink: &mut W) -> (r: Result<(), EtError>) {
        if index == 0 {
            let id = replace_tabs(self.id.as_bytes(), PIPE);
            match &id {
                Cow::Borrowed(b) => sink.write(b),
                Cow::Owned(v) => sink.write(v.as_slice()),
            }
        } else {
            match &self.sequence {
                Cow::Borrowed(b) => sink.write(b),
                Cow::Owned(v) => sink.write(v.as_slice()),
            }
        }
    }
}

/// Makes readers of FASTA text.
pub struct FastaReaderBuilder;

impl Default for FastaReaderBuilder {
    fn default() -> Self {
        FastaReaderBuilder
    }
}

impl FastaReaderBuilder {
    /// Makes a reader that takes its records from `rb`.
    pub fn to_reader<'r, S: ByteSource>(&self, rb: ReadBuffer<'r, S>) -> (r: Result<
        FastaReader<'r, S>,
        EtError,
    >)
        requires
            rb.wf(),
        ensures
            r matches Ok(reader) && reader.rb == rb && reader.emitted@.len() == 0 && reader.wf(),
    {
        Ok(FastaReader { rb, emitted: Ghost(Seq::empty()) })
    }
}

/// Reads the records of FASTA text.
pub struct FastaReader<'r, S: ByteSource> {
    /// The buffer that the text is read through.
    pub rb: ReadBuffer<'r, S>,
    /// The fields of every record handed out so far.
    pub emitted: Ghost<Seq<Seq<Seq<u8>>>>,
}

/// True when `s` is sound to its end: one record after the other, each
/// with an id of valid UTF-8.
pub open spec fn sound(s: Seq<u8>) -> bool
    decreases s.len(),
{
    match step_of(s, true) {
        Step::End => true,
        Step::Record(frame) => {
            &&& 0 < frame.rec_end <= s.len()
            &&& valid_utf8(s.subrange(1, frame.header_end as int))
            &&& sound(s.skip(frame.rec_end as int))
        },
        _ => false,
    }
}

/// The fields of the records of `s`, in order, up to its end or to the
/// first fault.
pub open spec fn records_of(s: Seq<u8>) -> Seq<Seq<Seq<u8>>>
    decreases s.len(),
{
    match step_of(s, true) {
        Step::Record(frame) => if 0 < frame.rec_end <= s.len() && valid_utf8(
            s.subrange(1, frame.header_end as int),
        ) {
            seq![fields_of(s, frame)] + records_of(s.skip(frame.rec_end as int))
        } else {
            Seq::empty()
        },
        _ => Seq::empty(),
    }
}

/// True when `e` is an error that reports the first fault of `s`: the
/// message of the fault with the place of the buffer, or, for an id that is
/// not valid UTF-8, a final error without a place.
pub open spec fn fault_of(s: Seq<u8>, e: EtError) -> bool
    decreases s.len(),
{
    match step_of(s, true) {
        Step::End => false,
        Step::NeedMore => false,
        Step::Record(frame) => if !(0 < frame.rec_end <= s.len()) {
            false
        } else if valid_utf8(s.subrange(1, frame.header_end as int)) {
            fault_of(s.skip(frame.rec_end as int), e)
        } else {
            !e.incomplete && e.context is None
        },
        fault => e.msg@ == fault.text() && !e.incomplete && e.context is Some,
    }
}

/// Sound text has no fault to report.
pub proof fn lemma_sound_has_no_fault(s: Seq<u8>, e: EtError)
    requires
        sound(s),
    ensures
        !fault_of(s, e),
    decreases s.len(),
{
    if let Step::Record(frame) = step_of(s, true) {
        lemma_sound_has_no_fault(s.skip(frame.rec_end as int), e);
    }
}

/// The fields of the record that `frame` marks in `seen`.
pub open spec fn fields_of(seen: Seq<u8>, frame: Frame) -> Seq<Seq<u8>> {
    seq![
        tabs_replaced(seen.subrange(1, frame.header_end as int), PIPE),
        strip_breaks(seen.subrange(frame.seq_start as int, frame.rec_end as int)),
    ]
}

impl<'a, 'r, S: ByteSource> RecordReader<'a> for FastaReader<'r, S> {
    type Item = FastaRecord<'a>;

    open spec fn wf(&self) -> bool {
        self.rb.wf()
    }

    open spec fn columns(&self) -> Seq<Seq<char>> {
        seq!["id"@, "sequence"@]
    }

    open spec fn emitted(&self) -> Seq<Seq<Seq<u8>>> {
        self.emitted@
    }

    open spec fn finished(&self) -> bool {
        self.rb.eof && self.rb.unread().len() == 0
    }

    open spec fn budget(&self) -> nat {
        (u64::MAX - self.rb.position()) as nat
    }

    /// The reader holds the rest of its stream, and its records can all be
    /// counted.
    open spec fn settled(&self) -> bool {
        &&& self.rb.eof
        &&& self.rb.record_pos + self.rb.unread().len() <= u64::MAX
    }

    open spec fn pending(&self) -> Seq<Seq<Seq<u8>>> {
        records_of(self.rb.unread())
    }

    open spec fn fails_with(&self, e: EtError) -> bool {
        fault_of(self.rb.unread(), e)
    }

    /// The reader is settled, and the rest of its stream is sound.
    open spec fn unfailing(&self) -> bool {
        self.settled() && sound(self.rb.unread())
    }

    fn headers(&self) -> (names: Vec<&'static str>) {
        vec!["id", "sequence"]
    }

    /// Hands out the next record, and refills the buffer as often as that
    /// takes.
    ///
    /// With `seen` for what the buffer holds of the stream from the place
    /// where the call found it, the outcome is the one that [`step_of`]
    /// gives for `seen`. A fault comes back as its error, with the place of
    /// the buffer as context; the reader is then as it was, so that the next
    /// call fails alike. Only where more bytes are needed and the stream
    /// has not ended is the error the source's.
    fn next(&'a mut self) -> (r: Result<Option<FastaRecord<'a>>, EtError>)
        ensures
            old(self).rb.unread().is_prefix_of(
                final(self).rb.bytes_from(old(self).rb.position()),
            ),
            old(self).rb.eof ==> final(self).rb.eof && final(self).rb.bytes_from(
                old(self).rb.position(),
            ) == old(self).rb.unread(),
            final(self).rb.position() >= old(self).rb.position(),
            r is Ok ==> old(self).rb.stream() == final(self).rb.bytes_from(
                old(self).rb.position(),
            ) + final(self).rb.source.rest(),
            ({
                let seen = final(self).rb.bytes_from(old(self).rb.position());
                match step_of(seen, final(self).rb.eof) {
                    Step::End => {
                        &&& r matches Ok(None)
                        &&& final(self).rb.position() == old(self).rb.position()
                        &&& final(self).rb.unread() == seen
                        &&& final(self).rb.record_pos == old(self).rb.record_pos
                    },
                    Step::Record(frame) => if !valid_utf8(
                        seen.subrange(1, frame.header_end as int),
                    ) {
                        &&& r matches Err(e) && !e.incomplete
                        &&& final(self).rb.position() == old(self).rb.position()
                        &&& final(self).rb.unread() == seen
                        &&& final(self).rb.record_pos == old(self).rb.record_pos
                    } else if old(self).rb.record_pos == u64::MAX {
                        &&& r matches Err(e) && !e.incomplete && e.msg@ == TOO_MANY_RECORDS@
                        &&& final(self).rb.position() == old(self).rb.position()
                        &&& final(self).rb.unread() == seen
                        &&& final(self).rb.record_pos == old(self).rb.record_pos
                    } else {
                        &&& r matches Ok(Some(record))
                        &&& record.id.spec_bytes() == seen.subrange(1, frame.header_end as int)
                        &&& record.sequence@ == strip_breaks(
                            seen.subrange(frame.seq_start as int, frame.rec_end as int),
                        )
                        &&& record.sequence is Borrowed <==> !seen.subrange(
                            frame.seq_start as int,
                            frame.seq_end as int,
                        ).contains(LF)
                        &&& final(self).rb.position() == old(self).rb.position() + frame.rec_end
                        &&& final(self).rb.unread() == seen.skip(frame.rec_end as int)
                        &&& final(self).rb.record_pos == old(self).rb.record_pos + 1
                    },
                    fault => {
                        &&& r matches Err(e) && (fault is NeedMore || {
                            &&& e.msg@ == fault.text()
                            &&& !e.incomplete
                            &&& e.context is Some
                        })
                        &&& final(self).rb.position() == old(self).rb.position()
                        &&& final(self).rb.unread() == seen
                        &&& final(self).rb.record_pos == old(self).rb.record_pos
                    },
                }
            }),
    {
        let mut avail = self.rb.len();
        loop
            invariant
                self.rb.wf(),
                self.emitted == old(self).emitted,
                avail == self.rb.unread().len(),
                self.rb.window().len() <= usize::MAX,
                self.rb.position() == old(self).rb.position(),
                self.rb.record_pos == old(self).rb.record_pos,
                self.rb.stream() == old(self).rb.stream(),
                old(self).rb.unread().is_prefix_of(self.rb.unread()),
                old(self).rb.eof ==> self.rb.eof && self.rb.unread() == old(self).rb.unread(),
            decreases usize::MAX - avail, (if self.rb.eof { 0int } else { 1int }),
        {
            match parse_frame(self.rb.as_slice(), self.rb.eof) {
                Ok(None) => {
                    return Ok(None);
                },
                Ok(Some(frame)) => {
                    let ghost seen = self.rb.unread();
                    match check_utf8(slice_subrange(self.rb.as_slice(), 1, frame.header_end)) {
                        Ok(()) => {},
                        Err(e) => {
                            return Err(e);
                        },
                    }
                    if self.rb.record_pos == u64::MAX {
                        return Err(EtError::new(TOO_MANY_RECORDS).add_context(&self.rb));
                    }
                    proof {
                        self.emitted@ = self.emitted@.push(fields_of(seen, frame));
                        assert(self.rb.bytes_from(old(self).rb.position()) == seen);
                        assert(step_of(seen, self.rb.eof) == Step::Record(frame));
                    }
                    let record = self.rb.consume(frame.rec_end);
                    let header = slice_subrange(record, 1, frame.header_end);
                    let raw = slice_subrange(record, frame.seq_start, frame.seq_end);
                    proof {
                        let region = seen.subrange(frame.seq_start as int, frame.rec_end as int);
                        assert(header@ == seen.subrange(1, frame.header_end as int));
                        assert(raw@ == seen.subrange(
                            frame.seq_start as int,
                            frame.seq_end as int,
                        ));
                        if frame.seq_end < frame.rec_end {
                            lemma_strip_trimmed(region);
                            assert(raw@ == region.take(trim_end(region, region.len() as int)));
                        } else {
                            assert(raw@ == region);
                        }
                        assert(strip_breaks(raw@) == strip_breaks(region));
                    }
                    let sequence = match memchr::memchr(LF, raw) {
                        None => {
                            proof {
                                if raw@.contains(LF) {
                                    let i = choose|i: int| 0 <= i < raw@.len() && raw@[i] == LF;
                                    assert(raw@[i] != LF);
                                }
                                lemma_kept_all(raw@, raw@.len() as int);
                            }
                            Cow::Borrowed(raw)
                        },
                        Some(at) => {
                            proof {
                                assert(raw@[at as int] == LF);
                            }
                            Cow::Owned(strip_line_breaks(raw))
                        },
                    };
                    proof {
                        assert(sequence@ == strip_breaks(
                            seen.subrange(frame.seq_start as int, frame.rec_end as int),
                        ));
                    }
                    return match core::str::from_utf8(header) {
                        Ok(id) => Ok(Some(FastaRecord { id, sequence })),
                        Err(e) => Err(EtError::from(e)),
                    };
                },
                Err(e) => {
                    if !e.incomplete || self.rb.eof {
                        return Err(e.add_context(&self.rb));
                    }
                },
            }
            match self.rb.refill() {
                Ok(()) => {},
                Err(e) => {
                    return Err(e);
                },
            }
            avail = self.rb.len();
        }
    }
}

} // verus!
