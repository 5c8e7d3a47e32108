//! The refillable read buffer that every reader decodes from.
use std::borrow::Cow;
use vstd::prelude::*;
use vstd::slice::{slice_subrange, slice_to_vec};

use crate::error::EtError;

verus! {

/// Number of bytes asked of the source on every refill.
pub const BUFFER_SIZE: usize = 10_000;

/// The message of a reader that has handed out as many records as a `u64`
/// can count.
pub const TOO_MANY_RECORDS: &'static str = "Too many records to count";

/// The message of a stream with more bytes than can be addressed.
pub const TOO_LONG: &'static str = "Stream is too long to address";

/// Anything that produces the bytes of a stream on demand.
pub trait ByteSource {
    /// The bytes that the source has still to hand out.
    spec fn rest(&self) -> Seq<u8>;

    /// True for a source that hands out bytes without ever failing.
    spec fn unfailing(&self) -> bool;

    /// Hands out the next bytes of the stream, `max` of them at most where
    /// the source can tell. What comes back is the start of what was still
    /// to come, and nothing comes back only at the end of the stream. A
    /// failure hands out nothing. An unfailing source succeeds, and stays
    /// unfailing.
    fn read(&mut self, max: usize) -> (r: Result<Vec<u8>, EtError>)
        ensures
            old(self).unfailing() ==> r is Ok && final(self).unfailing(),
            match r {
                Ok(chunk) => {
                    &&& chunk@.is_prefix_of(old(self).rest())
                    &&& final(self).rest() == old(self).rest().skip(chunk@.len() as int)
                    &&& chunk@.len() == 0 && max > 0 ==> old(self).rest().len() == 0
                },
                Err(_) => final(self).rest() == old(self).rest(),
            },
    ;
}

/// The source of a buffer that already holds its whole input.
pub struct NoSource;

impl ByteSource for NoSource {
    open spec fn rest(&self) -> Seq<u8> {
        Seq::empty()
    }

    open spec fn unfailing(&self) -> bool {
        true
    }

    fn read(&mut self, max: usize) -> (r: Result<Vec<u8>, EtError>)
        ensures
            r matches Ok(v) && v@.len() == 0,
    {
        Ok(Vec::new())
    }
}

/// A source that hands out a slice held in memory, piece by piece.
pub struct SliceSource<'a> {
    /// The whole input.
    pub data: &'a [u8],
    /// Number of bytes that have been handed out.
    pub pos: usize,
}

impl<'a> SliceSource<'a> {
    /// The bytes that have not been handed out yet.
    pub open spec fn remaining(&self) -> Seq<u8> {
        self.data@.skip(self.pos as int)
    }

    /// True while the cursor lies inside the slice.
    pub open spec fn wf(&self) -> bool {
        self.pos <= self.data@.len()
    }

    /// Creates a source over all of `data`.
    pub fn new(data: &'a [u8]) -> (s: Self)
        ensures
            s.wf(),
            s.remaining() == data@,
    {
        SliceSource { data, pos: 0 }
    }

    /// Hands out the next `max` bytes, or all that are left where they are
    /// fewer.
    pub fn take(&mut self, max: usize) -> (v: Vec<u8>)
        requires
            old(self).wf(),
        ensures
            final(self).wf(),
            v@.len() == if max <= old(self).remaining().len() {
                max as nat
            } else {
                old(self).remaining().len()
            },
            v@ == old(self).remaining().take(v@.len() as int),
            final(self).remaining() == old(self).remaining().skip(v@.len() as int),
    {
        let len = self.data.len();
        let end = if max <= len - self.pos {
            self.pos + max
        } else {
            len
        };
        let v = slice_to_vec(slice_subrange(self.data, self.pos, end));
        self.pos = end;
        v
    }
}

impl<'a> ByteSource for SliceSource<'a> {
    open spec fn rest(&self) -> Seq<u8> {
        if self.wf() {
            self.remaining()
        } else {
            Seq::empty()
        }
    }

    open spec fn unfailing(&self) -> bool {
        true
    }

    /// Hands out what `take` does, and never fails.
    fn read(&mut self, max: usize) -> (r: Result<Vec<u8>, EtError>)
        ensures
            r is Ok,
            old(self).wf() ==> final(self).wf(),
            old(self).wf() ==> (r matches Ok(v) && {
                &&& v@ == old(self).remaining().take(v@.len() as int)
                &&& v@.len() == if max <= old(self).remaining().len() {
                    max as nat
                } else {
                    old(self).remaining().len()
                }
                &&& final(self).remaining() == old(self).remaining().skip(v@.len() as int)
            }),
    {
        if self.pos <= self.data.len() {
            Ok(self.take(max))
        } else {
            Ok(Vec::new())
        }
    }
}

/// A window over a stream of bytes, with the reader's place in it.
///
/// The window can be refilled from its source. Parsers see the part of it
/// that has not been consumed yet.
pub struct ReadBuffer<'r, S: ByteSource> {
    /// The window: borrowed while it is the caller's slice, owned once it
    /// has been filled from a source.
    pub buffer: Cow<'r, [u8]>,
    /// Where further bytes come from.
    pub source: S,
    /// Offset in the stream of the first byte of the window.
    pub reader_pos: u64,
    /// Number of records that have been consumed.
    pub record_pos: u64,
    /// Offset in the window of the next byte to read.
    pub consumed: usize,
    /// True once the source has nothing more to give.
    pub eof: bool,
}

impl<'r> ReadBuffer<'r, NoSource> {
    /// Creates a buffer over a complete input held in memory. It is at the
    /// end of its stream from the start and never refills.
    pub fn from_slice(bytes: &'r [u8]) -> (rb: Self)
        ensures
            rb.wf(),
            rb.window() == bytes@,
            rb.reader_pos == 0,
            rb.record_pos == 0,
            rb.consumed == 0,
            rb.eof,
    {
        proof {
            assert(bytes.len() == bytes@.len());
        }
        ReadBuffer {
            buffer: Cow::Borrowed(bytes),
            source: NoSource,
            reader_pos: 0,
            record_pos: 0,
            consumed: 0,
            eof: true,
        }
    }
}

impl<'r, S: ByteSource> ReadBuffer<'r, S> {
    /// All the bytes that the window holds, consumed or not.
    pub open spec fn window(&self) -> Seq<u8> {
        self.buffer@
    }

    /// The cursor lies inside the window, and the window inside the range
    /// of offsets that a `u64` can count.
    pub open spec fn wf(&self) -> bool {
        &&& self.consumed <= self.window().len()
        &&& self.reader_pos + self.window().len() <= u64::MAX
    }

    /// The part of the window that parsers see: what has not been consumed.
    pub open spec fn unread(&self) -> Seq<u8> {
        self.window().skip(self.consumed as int)
    }

    /// Offset in the stream of the next byte to read.
    pub open spec fn position(&self) -> int {
        self.reader_pos + self.consumed
    }

    /// What the window holds of the stream from offset `pos` on.
    pub open spec fn bytes_from(&self, pos: int) -> Seq<u8> {
        self.window().skip(pos - self.reader_pos)
    }

    /// All that is still to come: the unread bytes, and behind them what
    /// the source has still to hand out.
    pub open spec fn stream(&self) -> Seq<u8> {
        self.unread() + self.source.rest()
    }

    /// True when `n` more bytes can join the unread ones: the window stays
    /// within what a `usize` can index, and the stream within what a `u64`
    /// can count.
    pub open spec fn fits(&self, n: int) -> bool {
        &&& self.unread().len() + n <= usize::MAX
        &&& self.reader_pos + self.window().len() + n <= u64::MAX
    }

    /// Creates a buffer over `source` and fills it for the first time: the
    /// window holds what the first read gave, and the buffer is at the end
    /// of its stream when that was nothing. The call fails only where the
    /// source does.
    pub fn new(source: S) -> (r: Result<Self, EtError>)
        ensures
            r matches Ok(rb) ==> {
                &&& rb.wf()
                &&& rb.reader_pos == 0
                &&& rb.consumed == 0
                &&& rb.record_pos == 0
                &&& rb.eof <==> rb.window().len() == 0
                &&& rb.stream() == source.rest()
                &&& rb.eof ==> rb.source.rest().len() == 0
                &&& source.unfailing() ==> rb.source.unfailing()
            },
            source.unfailing() ==> r is Ok,
    {
        let mut rb = ReadBuffer {
            buffer: Cow::Owned(Vec::new()),
            source,
            reader_pos: 0,
            record_pos: 0,
            consumed: 0,
            eof: false,
        };
        let chunk = match rb.source.read(BUFFER_SIZE) {
            Ok(chunk) => chunk,
            Err(e) => {
                return Err(e);
            },
        };
        proof {
            assert(chunk@.len() <= usize::MAX) by {
                assert(chunk.len() == chunk@.len());
            }
        }
        match rb.absorb(chunk) {
            Ok(()) => Ok(rb),
            Err(e) => Err(e),
        }
    }

    /// Takes `chunk`, which the source has handed out, into the window.
    ///
    /// Nothing says that the stream has ended: no byte is added and the
    /// buffer is at the end of its stream from then on. Anything else joins
    /// the unread bytes, and the consumed bytes are dropped from the front
    /// of the window. A chunk that does not fit is refused, and nothing
    /// changes.
    pub fn absorb(&mut self, chunk: Vec<u8>) -> (r: Result<(), EtError>)
        requires
            old(self).wf(),
        ensures
            final(self).wf(),
            final(self).record_pos == old(self).record_pos,
            final(self).source == old(self).source,
            final(self).position() == old(self).position(),
            if chunk@.len() == 0 {
                &&& r is Ok
                &&& final(self).eof
                &&& final(self).window() == old(self).window()
                &&& final(self).consumed == old(self).consumed
                &&& final(self).reader_pos == old(self).reader_pos
            } else if old(self).fits(chunk@.len() as int) {
                &&& r is Ok
                &&& final(self).eof == old(self).eof
                &&& final(self).unread() == old(self).unread() + chunk@
                &&& final(self).consumed == 0
            } else {
                &&& r matches Err(e) && e.msg@ == TOO_LONG@ && !e.incomplete && e.context is None
                &&& final(self).eof == old(self).eof
                &&& final(self).window() == old(self).window()
                &&& final(self).consumed == old(self).consumed
                &&& final(self).reader_pos == old(self).reader_pos
            },
    {
        if chunk.len() == 0 {
            self.eof = true;
            return Ok(());
        }
        let all = self.as_ref();
        let kept = all.len() - self.consumed;
        let end = self.reader_pos + all.len() as u64;
        if chunk.len() > usize::MAX - kept || chunk.len() as u64 > u64::MAX - end {
            return Err(EtError::new(TOO_LONG));
        }
        let mut next = slice_to_vec(slice_subrange(all, self.consumed, all.len()));
        next.extend_from_slice(chunk.as_slice());
        self.reader_pos = self.reader_pos + self.consumed as u64;
        self.consumed = 0;
        self.buffer = Cow::Owned(next);
        Ok(())
    }

    /// Tells whether the buffer is well formed, for callers that cannot
    /// prove it.
    pub fn is_wf(&self) -> (b: bool)
        ensures
            b == self.wf(),
    {
        let len = self.as_ref().len();
        self.consumed <= len && len as u64 <= u64::MAX - self.reader_pos
    }

    /// The whole window, from its first byte.
    pub fn as_ref(&self) -> (s: &[u8])
        ensures
            s@ == self.window(),
    {
        match &self.buffer {
            Cow::Borrowed(b) => b,
            Cow::Owned(v) => v.as_slice(),
        }
    }

    /// The bytes that have not been consumed.
    pub fn as_slice(&self) -> (s: &[u8])
        requires
            self.wf(),
        ensures
            s@ == self.unread(),
    {
        let all = self.as_ref();
        slice_subrange(all, self.consumed, all.len())
    }

    /// Number of bytes that have not been consumed.
    pub fn len(&self) -> (n: usize)
        requires
            self.wf(),
        ensures
            n == self.unread().len(),
            self.window().len() <= usize::MAX,
    {
        self.as_ref().len() - self.consumed
    }

    /// True when every byte of the window has been consumed.
    pub fn is_empty(&self) -> (b: bool)
        requires
            self.wf(),
        ensures
            b == (self.unread().len() == 0),
    {
        self.as_ref().len() == self.consumed
    }

    /// True once the source has nothing more to give.
    pub fn eof(&self) -> (b: bool)
        ensures
            b == self.eof,
    {
        self.eof
    }

    /// Pulls more bytes from the source to the end of the window, and drops
    /// the consumed bytes from its front. What is still to come stays the
    /// same: the bytes only move from the source into the window. The buffer
    /// comes to the end of its stream when the source has nothing left. At
    /// the end of the stream nothing changes.
    pub fn refill(&mut self) -> (r: Result<(), EtError>)
        requires
            old(self).wf(),
        ensures
            final(self).wf(),
            final(self).position() == old(self).position(),
            final(self).record_pos == old(self).record_pos,
            old(self).unread().is_prefix_of(final(self).unread()),
            old(self).eof ==> r is Ok && final(self).eof,
            final(self).eof ==> {
                &&& final(self).window() == old(self).window()
                &&& final(self).consumed == old(self).consumed
                &&& final(self).reader_pos == old(self).reader_pos
            },
            r is Ok ==> final(self).eof || final(self).unread().len() > old(self).unread().len(),
            r is Err ==> !final(self).eof && final(self).unread() == old(self).unread(),
            old(self).source.unfailing() ==> final(self).source.unfailing(),
            old(self).source.unfailing() ==> (r matches Err(e) ==> e.msg@ == TOO_LONG@),
            r is Ok ==> final(self).stream() == old(self).stream(),
            final(self).eof && !old(self).eof ==> final(self).source.rest().len() == 0,
    {
        if self.eof {
            return Ok(());
        }
        let chunk = match self.source.read(BUFFER_SIZE) {
            Ok(chunk) => chunk,
            Err(e) => {
                return Err(e);
            },
        };
        self.absorb(chunk)
    }

    /// Makes sure that at least `n` unread bytes are in the window, and
    /// refills as often as that takes. Fails with an incomplete error when
    /// the stream ends first.
    pub fn reserve(&mut self, n: usize) -> (r: Result<(), EtError>)
        requires
            old(self).wf(),
        ensures
            final(self).wf(),
            final(self).position() == old(self).position(),
            final(self).record_pos == old(self).record_pos,
            old(self).unread().is_prefix_of(final(self).unread()),
            old(self).eof ==> final(self).eof,
            old(self).eof || old(self).unread().len() >= n ==> {
                &&& final(self).window() == old(self).window()
                &&& final(self).consumed == old(self).consumed
                &&& final(self).reader_pos == old(self).reader_pos
            },
            r is Ok <==> final(self).unread().len() >= n,
            r matches Err(e) ==> {
                ||| final(self).eof && e.incomplete && e.context is None
                    && e.msg@ == "Stream ended before the reserved bytes"@
                ||| !final(self).eof
            },
            r is Ok || final(self).eof ==> final(self).stream() == old(self).stream(),
            final(self).eof && !old(self).eof ==> final(self).source.rest().len() == 0,
    {
        let mut avail = self.len();
        while avail < n
            invariant
                self.wf(),
                avail == self.unread().len(),
                self.position() == old(self).position(),
                self.record_pos == old(self).record_pos,
                old(self).unread().is_prefix_of(self.unread()),
                old(self).eof ==> self.eof,
                old(self).eof || old(self).unread().len() >= n ==> {
                    &&& self.window() == old(self).window()
                    &&& self.consumed == old(self).consumed
                    &&& self.reader_pos == old(self).reader_pos
                },
                self.stream() == old(self).stream(),
                self.eof && !old(self).eof ==> self.source.rest().len() == 0,
            decreases usize::MAX - avail,
        {
            if self.eof {
                return Err(EtError::new("Stream ended before the reserved bytes").incomplete());
            }
            match self.refill() {
                Ok(()) => {},
                Err(e) => {
                    return Err(e);
                },
            }
            if self.eof {
                return Err(EtError::new("Stream ended before the reserved bytes").incomplete());
            }
            avail = self.len();
        }
        Ok(())
    }

    /// Takes the next `amt` unread bytes out of the window as one record.
    pub fn consume(&mut self, amt: usize) -> (record: &[u8])
        requires
            old(self).wf(),
            amt <= old(self).unread().len(),
            old(self).record_pos < u64::MAX,
        ensures
            final(self).wf(),
            record@ == old(self).unread().take(amt as int),
            final(self).unread() == old(self).unread().skip(amt as int),
            final(self).consumed == old(self).consumed + amt,
            final(self).position() == old(self).position() + amt,
            final(self).record_pos == old(self).record_pos + 1,
            final(self).window() == old(self).window(),
            final(self).reader_pos == old(self).reader_pos,
            final(self).eof == old(self).eof,
            final(self).source == old(self).source,
    {
        let start = self.consumed;
        let total = self.as_ref().len();
        self.consumed = self.consumed + amt;
        self.record_pos = self.record_pos + 1;
        slice_subrange(self.as_ref(), start, start + amt)
    }
}

} // verus!
