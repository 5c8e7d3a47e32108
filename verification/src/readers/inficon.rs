//! Mass spectra recorded by Inficon Hapsite instruments.
//!
//! A file opens with a method section that lists, for every segment of the
//! run, the m/z values that are measured in it. The scan data follow: bursts
//! of intensities, one for every m/z of the burst's segment.
//!
//! All values are kept as the integers that the file holds: an m/z in
//! hundredths, a time in milliseconds, an intensity as the bits of an
//! IEEE-754 single.
use vstd::prelude::*;
use vstd::slice::slice_to_vec;
use vstd::string::StringExecFns;

use crate::buffer::{ByteSource, ReadBuffer, TOO_MANY_RECORDS};
use crate::error::EtError;
use crate::parsers::{
    extract_bytes, extract_i32, extract_u16, extract_u32, first_match, has_pattern_at, in_bounds,
    is_cursor_overflow, seek_pattern, signed, skip, u16_at, u32_at, Endian, CURSOR_OVERFLOW,
    PATTERN_PENDING, SHORT_READ,
};
use crate::utils::{decimal, push_decimal};

verus! {

/// Closes the method section, a fixed distance before the list of m/z
/// ranges: four `FF`, 32 zeros, `F6 FF FF FF` and four zeros.
pub const MZ_LIST_MARK: [u8; 44] = [
    0xFF, 0xFF, 0xFF, 0xFF, 0x00, 0x00, 0x00, 0x00, 0x00, 0x00, 0x00, 0x00, 0x00, 0x00, 0x00,
    0x00, 0x00, 0x00, 0x00, 0x00, 0x00, 0x00, 0x00, 0x00, 0x00, 0x00, 0x00, 0x00, 0x00, 0x00,
    0x00, 0x00, 0x00, 0x00, 0x00, 0x00, 0xF6, 0xFF, 0xFF, 0xFF, 0x00, 0x00, 0x00, 0x00,
];

/// Opens the scan section: four `FF` and the text `HapsGPIR`.
pub const SCAN_MARK: [u8; 12] = [
    0xFF, 0xFF, 0xFF, 0xFF, 0x48, 0x61, 0x70, 0x73, 0x47, 0x50, 0x49, 0x52,
];

/// The text `HapsScan`, which stands before the first burst.
pub const SCAN_TAG: [u8; 8] = [0x48, 0x61, 0x70, 0x73, 0x53, 0x63, 0x61, 0x6E];

/// The largest number of segments that a file may declare.
pub const MAX_SEGMENTS: u32 = 10_000;

/// The bound that every m/z of a range must stay under, in hundredths.
pub const MZ_LIMIT: u32 = 4_000_000_000;

/// The distance in hundredths between two m/z values of a full scan.
pub const MZ_STEP: u32 = 100;

/// What is wrong with the method section of a file.
pub enum HeaderFault {
    /// The bytes end inside a field.
    Truncated,
    /// A mark has not come yet, and the stream has not ended.
    MarkPending,
    /// The stream has ended without the mark of the m/z list.
    NoMzList,
    /// More than 10,000 segments are declared.
    TooManySegments,
    /// A range of m/z is empty, reversed or too large.
    BadMzRange,
    /// The stream has ended without the mark of the scan section.
    NoScanData,
    /// The text `HapsScan` is not where it belongs.
    BadDataHeader,
}

/// What the method section says, once it has been read to its end.
pub ghost struct Header {
    /// The m/z values of every segment, in hundredths.
    pub segments: Seq<Seq<u32>>,
    /// Number of bytes in the scan section.
    pub data_left: nat,
    /// Number of bytes up to the first burst.
    pub consumed: nat,
}

/// The m/z values that one range stands for. A range of type 0 is a single
/// ion, measured at the start of the range. Any other is a full scan: the
/// start and every further value one m/z on, up to the end of the range.
pub open spec fn mz_values(start: u32, end: u32, i_type: int) -> Seq<u32> {
    if i_type == 0 {
        seq![start]
    } else {
        Seq::new(((end - start) / 100 + 1) as nat, |k: int| (start + 100 * k) as u32)
    }
}

/// One range of the list at `at`: its m/z values and where the next range
/// starts. A range takes 32 bytes: start and end, 16 bytes that are passed
/// over, the type, and 4 more bytes that are passed over.
pub open spec fn entry_at(s: Seq<u8>, at: int) -> Result<(Seq<u32>, int), HeaderFault> {
    let start = u32_at(s, at, Endian::Little);
    let end = u32_at(s, at + 4, Endian::Little);
    if !in_bounds(s, at, 8) {
        Err(HeaderFault::Truncated)
    } else if start >= end || end >= MZ_LIMIT {
        Err(HeaderFault::BadMzRange)
    } else if !in_bounds(s, at, 32) {
        Err(HeaderFault::Truncated)
    } else {
        Ok((mz_values(start as u32, end as u32, u32_at(s, at + 24, Endian::Little)), at + 32))
    }
}

/// The `n` ranges that start at `at`: all their m/z values in order, and
/// where the bytes after the last range start.
pub open spec fn entries_at(s: Seq<u8>, at: int, n: nat) -> Result<(Seq<u32>, int), HeaderFault>
    decreases n,
{
    if n == 0 {
        Ok((Seq::empty(), at))
    } else {
        match entry_at(s, at) {
            Err(fault) => Err(fault),
            Ok((first, next)) => match entries_at(s, next, (n - 1) as nat) {
                Err(fault) => Err(fault),
                Ok((rest, end)) => Ok((first + rest, end)),
            },
        }
    }
}

/// The segment at `at`: 96 bytes that are passed over, the number of its
/// ranges, and the ranges.
pub open spec fn segment_at(s: Seq<u8>, at: int) -> Result<(Seq<u32>, int), HeaderFault> {
    if !in_bounds(s, at, 100) {
        Err(HeaderFault::Truncated)
    } else {
        entries_at(s, at + 100, u32_at(s, at + 96, Endian::Little) as nat)
    }
}

/// The `n` segments that start at `at`.
pub open spec fn segments_at(s: Seq<u8>, at: int, n: nat) -> Result<
    (Seq<Seq<u32>>, int),
    HeaderFault,
>
    decreases n,
{
    if n == 0 {
        Ok((Seq::empty(), at))
    } else {
        match segment_at(s, at) {
            Err(fault) => Err(fault),
            Ok((first, next)) => match segments_at(s, next, (n - 1) as nat) {
                Err(fault) => Err(fault),
                Ok((rest, end)) => Ok((seq![first] + rest, end)),
            },
        }
    }
}

/// The scan section's own header, from the byte after its mark: 180 bytes
/// that are passed over, the length of the data, 8 more bytes, the text
/// `HapsScan`, and 56 more bytes.
pub open spec fn scan_header_at(s: Seq<u8>, at: int, segments: Seq<Seq<u32>>) -> Result<
    Header,
    HeaderFault,
> {
    if !in_bounds(s, at, 200) {
        Err(HeaderFault::Truncated)
    } else if s.subrange(at + 192, at + 200) != SCAN_TAG@ {
        Err(HeaderFault::BadDataHeader)
    } else if !in_bounds(s, at, 256) {
        Err(HeaderFault::Truncated)
    } else {
        Ok(
            Header {
                segments,
                data_left: u32_at(s, at + 180, Endian::Little) as nat,
                consumed: (at + 256) as nat,
            },
        )
    }
}

/// The list of segments, from the byte after the mark of the m/z list, and
/// the scan section's header behind it.
pub open spec fn method_at(s: Seq<u8>, eof: bool, at: int) -> Result<Header, HeaderFault> {
    let n = u32_at(s, at + 148, Endian::Little);
    if !in_bounds(s, at, 152) {
        Err(HeaderFault::Truncated)
    } else if n > MAX_SEGMENTS {
        Err(HeaderFault::TooManySegments)
    } else {
        match segments_at(s, at + 152, n as nat) {
            Err(fault) => Err(fault),
            Ok((segments, end)) => match first_match(s, SCAN_MARK@, end) {
                None => Err(
                    if eof {
                        HeaderFault::NoScanData
                    } else {
                        HeaderFault::MarkPending
                    },
                ),
                Some(mark) => scan_header_at(s, mark + SCAN_MARK@.len(), segments),
            },
        }
    }
}

/// What the method section at the start of `s` says, where `eof` tells
/// whether `s` is all that will ever come.
#[verifier::opaque]
pub open spec fn header_of(s: Seq<u8>, eof: bool) -> Result<Header, HeaderFault> {
    match first_match(s, MZ_LIST_MARK@, 0) {
        None => Err(
            if eof {
                HeaderFault::NoMzList
            } else {
                HeaderFault::MarkPending
            },
        ),
        Some(mark) => method_at(s, eof, mark + MZ_LIST_MARK@.len()),
    }
}

/// A method section ends inside the bytes that it was read from.
pub proof fn lemma_header_fits(s: Seq<u8>, eof: bool)
    ensures
        header_of(s, eof) matches Ok(header) ==> header.consumed <= s.len(),
{
    reveal(header_of);
}

/// The message of the stream that ends without the mark of the m/z list.
pub const NO_MZ_LIST: &'static str = "Could not find m/z header list";

/// The message of a file that declares more segments than are accepted.
pub const TOO_MANY_SEGMENTS: &'static str = "Inficon file has too many segments";

/// The message of a range of m/z that is empty, reversed or too large.
pub const BAD_MZ_RANGE: &'static str = "m/z range too big or invalid";

/// The message of the stream that ends without the mark of the scan section.
pub const NO_SCAN_DATA: &'static str = "Could not find start of scan data";

/// The message of a scan section without the text `HapsScan`.
pub const BAD_DATA_HEADER: &'static str = "Data header was malformed";

impl HeaderFault {
    /// The message that reports the fault.
    pub open spec fn text(self) -> Seq<char> {
        match self {
            HeaderFault::Truncated => SHORT_READ@,
            HeaderFault::MarkPending => PATTERN_PENDING@,
            HeaderFault::NoMzList => NO_MZ_LIST@,
            HeaderFault::TooManySegments => TOO_MANY_SEGMENTS@,
            HeaderFault::BadMzRange => BAD_MZ_RANGE@,
            HeaderFault::NoScanData => NO_SCAN_DATA@,
            HeaderFault::BadDataHeader => BAD_DATA_HEADER@,
        }
    }

    /// True for the faults that more bytes may cure.
    pub open spec fn is_incomplete(self) -> bool {
        self is Truncated || self is MarkPending
    }
}

/// True when `e` is the error that reports `fault`, without a context.
pub open spec fn reports(e: EtError, fault: HeaderFault) -> bool {
    &&& e.msg@ == fault.text()
    &&& e.incomplete == fault.is_incomplete()
    &&& e.context is None
}

/// The m/z lists of a table of segments.
pub open spec fn table(segments: Seq<Vec<u32>>) -> Seq<Seq<u32>> {
    Seq::new(segments.len(), |i: int| segments[i]@)
}

/// Reads the range at `at` and appends its m/z values to `out`. Returns
/// where the next range starts.
pub fn parse_mz_entry(rb: &[u8], at: usize, out: &mut Vec<u32>) -> (r: Result<usize, EtError>)
    ensures
        match entry_at(rb@, at as int) {
            Ok((values, next)) => {
                &&& r matches Ok(n) && n == next
                &&& final(out)@ == old(out)@ + values
            },
            Err(fault) => {
                &&& r matches Err(e) && reports(e, fault)
                &&& final(out)@ == old(out)@
            },
        },
{
    let mut con = at;
    let start = match extract_u32(rb, &mut con, Endian::Little) {
        Ok(v) => v,
        Err(e) => {
            return Err(e);
        },
    };
    let end = match extract_u32(rb, &mut con, Endian::Little) {
        Ok(v) => v,
        Err(e) => {
            return Err(e);
        },
    };
    if start >= end || end >= MZ_LIMIT {
        return Err(EtError::new(BAD_MZ_RANGE));
    }
    match skip(rb, &mut con, 16) {
        Ok(()) => {},
        Err(e) => {
            return Err(e);
        },
    }
    let i_type = match extract_u32(rb, &mut con, Endian::Little) {
        Ok(v) => v,
        Err(e) => {
            return Err(e);
        },
    };
    match skip(rb, &mut con, 4) {
        Ok(()) => {},
        Err(e) => {
            return Err(e);
        },
    }
    if i_type == 0 {
        out.push(start);
        proof {
            assert(out@ == old(out)@ + seq![start]);
        }
    } else {
        let mut mz = start;
        let ghost mut k: int = 0;
        while mz <= end
            invariant
                start < end < MZ_LIMIT,
                mz == start + 100 * k,
                0 <= k,
                mz <= end + 100,
                out@ == old(out)@ + Seq::new(k as nat, |j: int| (start + 100 * j) as u32),
            decreases end + 100 - mz,
        {
            out.push(mz);
            proof {
                assert(out@ == old(out)@ + Seq::new(
                    (k + 1) as nat,
                    |j: int| (start + 100 * j) as u32,
                ));
                k = k + 1;
            }
            mz = mz + MZ_STEP;
        }
        proof {
            assert(k == (end - start) / 100 + 1);
            assert(out@ == old(out)@ + mz_values(start, end, i_type as int));
        }
    }
    Ok(con)
}

/// A result of the rest of a list with the values `done` put in front.
pub open spec fn after_values(done: Seq<u32>, rest: Result<(Seq<u32>, int), HeaderFault>) -> Result<
    (Seq<u32>, int),
    HeaderFault,
> {
    match rest {
        Ok((values, end)) => Ok((done + values, end)),
        Err(fault) => Err(fault),
    }
}

/// A result of the rest of a table with the segments `done` put in front.
pub open spec fn after_segments(
    done: Seq<Seq<u32>>,
    rest: Result<(Seq<Seq<u32>>, int), HeaderFault>,
) -> Result<(Seq<Seq<u32>>, int), HeaderFault> {
    match rest {
        Ok((segments, end)) => Ok((done + segments, end)),
        Err(fault) => Err(fault),
    }
}

/// Reads the `n` ranges that start at `at`. Returns all their m/z values
/// and where the bytes after the last range start.
pub fn parse_mz_list(rb: &[u8], at: usize, n: u32) -> (r: Result<(Vec<u32>, usize), EtError>)
    ensures
        match entries_at(rb@, at as int, n as nat) {
            Ok((values, end)) => r matches Ok((found, next)) && found@ == values && next == end,
            Err(fault) => r matches Err(e) && reports(e, fault),
        },
{
    let mut values: Vec<u32> = Vec::new();
    let mut con = at;
    let mut i: u32 = 0;
    while i < n
        invariant
            i <= n,
            entries_at(rb@, at as int, n as nat) == after_values(
                values@,
                entries_at(rb@, con as int, (n - i) as nat),
            ),
        decreases n - i,
    {
        let ghost before = values@;
        match parse_mz_entry(rb, con, &mut values) {
            Ok(next) => {
                proof {
                    let first = entry_at(rb@, con as int)->Ok_0.0;
                    assert(values@ == before + first);
                    if let Ok((tail, end)) = entries_at(rb@, next as int, (n - i - 1) as nat) {
                        assert((before + first) + tail == before + (first + tail));
                    }
                }
                con = next;
            },
            Err(e) => {
                return Err(e);
            },
        }
        i += 1;
    }
    proof {
        assert(values@ + Seq::<u32>::empty() == values@);
    }
    Ok((values, con))
}

/// Reads the segment at `at`. Returns its m/z values and where the next
/// segment starts.
pub fn parse_segment(rb: &[u8], at: usize) -> (r: Result<(Vec<u32>, usize), EtError>)
    ensures
        match segment_at(rb@, at as int) {
            Ok((values, end)) => r matches Ok((found, next)) && found@ == values && next == end,
            Err(fault) => r matches Err(e) && reports(e, fault),
        },
{
    let mut con = at;
    match skip(rb, &mut con, 96) {
        Ok(()) => {},
        Err(e) => {
            return Err(e);
        },
    }
    let n_mzs = match extract_u32(rb, &mut con, Endian::Little) {
        Ok(v) => v,
        Err(e) => {
            return Err(e);
        },
    };
    parse_mz_list(rb, con, n_mzs)
}

/// Reads the `n` segments that start at `at`. Returns the table of their
/// m/z values and where the bytes after the last segment start.
pub fn parse_segments(rb: &[u8], at: usize, n: u32) -> (r: Result<(Vec<Vec<u32>>, usize), EtError>)
    ensures
        match segments_at(rb@, at as int, n as nat) {
            Ok((segments, end)) => r matches Ok((found, next)) && table(found@) == segments
                && next == end,
            Err(fault) => r matches Err(e) && reports(e, fault),
        },
{
    let mut segments: Vec<Vec<u32>> = Vec::new();
    let mut con = at;
    let mut i: u32 = 0;
    proof {
        assert(table(segments@) == Seq::<Seq<u32>>::empty());
    }
    while i < n
        invariant
            i <= n,
            segments_at(rb@, at as int, n as nat) == after_segments(
                table(segments@),
                segments_at(rb@, con as int, (n - i) as nat),
            ),
        decreases n - i,
    {
        match parse_segment(rb, con) {
            Ok((values, next)) => {
                let ghost before = table(segments@);
                let ghost first = values@;
                segments.push(values);
                proof {
                    assert(table(segments@) == before + seq![first]);
                    let rest = segments_at(rb@, next as int, (n - i - 1) as nat);
                    if let Ok((tail, end)) = rest {
                        assert(before + (seq![first] + tail) == table(segments@) + tail);
                    }
                }
                con = next;
            },
            Err(e) => {
                return Err(e);
            },
        }
        i += 1;
    }
    proof {
        assert(table(segments@) + Seq::<Seq<u32>>::empty() == table(segments@));
    }
    Ok((segments, con))
}

/// Reads the scan section's own header, from the byte after its mark.
/// Returns the length of the scan data and where the first burst starts.
pub fn parse_scan_header(rb: &[u8], at: usize) -> (r: Result<(u32, usize), EtError>)
    ensures
        match scan_header_at(rb@, at as int, Seq::empty()) {
            Ok(header) => r matches Ok((data_length, next)) && data_length == header.data_left
                && next == header.consumed,
            Err(fault) => r matches Err(e) && reports(e, fault),
        },
{
    let mut con = at;
    match skip(rb, &mut con, 180) {
        Ok(()) => {},
        Err(e) => {
            return Err(e);
        },
    }
    let data_length = match extract_u32(rb, &mut con, Endian::Little) {
        Ok(v) => v,
        Err(e) => {
            return Err(e);
        },
    };
    match skip(rb, &mut con, 8) {
        Ok(()) => {},
        Err(e) => {
            return Err(e);
        },
    }
    let tag = match extract_bytes(rb, &mut con, 8) {
        Ok(v) => v,
        Err(e) => {
            return Err(e);
        },
    };
    if !has_pattern_at(tag, 0, &SCAN_TAG) {
        proof {
            assert(tag@.subrange(0, 8) == tag@);
        }
        return Err(EtError::new(BAD_DATA_HEADER));
    }
    proof {
        assert(tag@.subrange(0, 8) == tag@);
    }
    match skip(rb, &mut con, 56) {
        Ok(()) => {},
        Err(e) => {
            return Err(e);
        },
    }
    Ok((data_length, con))
}

/// Where the reader of an Inficon file stands.
#[derive(Clone, Debug, Default)]
pub struct InficonState {
    /// The m/z values of every segment, in hundredths.
    pub mz_segments: Vec<Vec<u32>>,
    /// Number of bytes of scan data that have not been read.
    pub data_left: usize,
    /// Time of the current burst, in milliseconds.
    pub cur_time: i32,
    /// The m/z of the current reading, in hundredths.
    pub cur_mz: u32,
    /// The current intensity, as the bits of an IEEE-754 single.
    pub cur_intensity: u32,
    /// Index of the segment that the current burst belongs to.
    pub cur_segment: usize,
    /// Number of readings that the current burst still holds.
    pub mzs_left: usize,
}

impl InficonState {
    /// The m/z values of every segment.
    pub open spec fn segments(&self) -> Seq<Seq<u32>> {
        table(self.mz_segments@)
    }

    /// While a burst is open, it belongs to a segment of the table and
    /// holds no more readings than that segment has m/z values.
    pub open spec fn wf(&self) -> bool {
        self.mzs_left > 0 ==> {
            &&& self.cur_segment < self.mz_segments@.len()
            &&& self.mzs_left <= self.mz_segments@[self.cur_segment as int]@.len()
        }
    }

    /// Tells whether the state is well formed, for callers that cannot
    /// prove it.
    pub fn is_wf(&self) -> (b: bool)
        ensures
            b == self.wf(),
    {
        self.mzs_left == 0 || (self.cur_segment < self.mz_segments.len() && self.mzs_left
            <= self.mz_segments[self.cur_segment].len())
    }

    /// Reads the method section at the start of `rb` into `state`: the
    /// table of m/z values and the length of the scan data. Adds the number
    /// of bytes up to the first burst to `consumed`.
    ///
    /// On any fault `state` and `consumed` keep their values. It is a fault
    /// too when `consumed` cannot take the bytes without overflow.
    pub fn parse(
        rb: &[u8],
        eof: bool,
        consumed: &mut usize,
        state: &mut (Vec<Vec<u32>>, usize),
    ) -> (r: Result<bool, EtError>)
        ensures
            match header_of(rb@, eof) {
                Ok(header) => if *old(consumed) + header.consumed <= usize::MAX {
                    &&& r == Ok::<bool, EtError>(true)
                    &&& table(final(state).0@) == header.segments
                    &&& final(state).1 == header.data_left
                    &&& *final(consumed) == *old(consumed) + header.consumed
                } else {
                    &&& r matches Err(e) && is_cursor_overflow(e)
                    &&& *final(state) == *old(state)
                    &&& *final(consumed) == *old(consumed)
                },
                Err(fault) => {
                    &&& r matches Err(e) && reports(e, fault)
                    &&& *final(state) == *old(state)
                    &&& *final(consumed) == *old(consumed)
                },
            },
    {
        proof {
            reveal(header_of);
        }
        let mut con: usize = 0;
        match seek_pattern(rb, eof, &mut con, &MZ_LIST_MARK) {
            Ok(true) => {},
            Ok(false) => {
                return Err(EtError::new(NO_MZ_LIST));
            },
            Err(e) => {
                return Err(e);
            },
        }
        match skip(rb, &mut con, 148) {
            Ok(()) => {},
            Err(e) => {
                return Err(e);
            },
        }
        let n_segments = match extract_u32(rb, &mut con, Endian::Little) {
            Ok(v) => v,
            Err(e) => {
                return Err(e);
            },
        };
        if n_segments > MAX_SEGMENTS {
            return Err(EtError::new(TOO_MANY_SEGMENTS));
        }
        let (mz_segments, end) = match parse_segments(rb, con, n_segments) {
            Ok(found) => found,
            Err(e) => {
                return Err(e);
            },
        };
        con = end;
        match seek_pattern(rb, eof, &mut con, &SCAN_MARK) {
            Ok(true) => {},
            Ok(false) => {
                return Err(EtError::new(NO_SCAN_DATA));
            },
            Err(e) => {
                return Err(e);
            },
        }
        let (data_length, end) = match parse_scan_header(rb, con) {
            Ok(found) => found,
            Err(e) => {
                return Err(e);
            },
        };
        if end > usize::MAX - *consumed {
            return Err(EtError::new(CURSOR_OVERFLOW));
        }
        state.0 = mz_segments;
        state.1 = data_length as usize;
        *consumed = *consumed + end;
        Ok(true)
    }

    /// Takes over what `parse` has read: the table of m/z values and the
    /// length of the scan data. No burst is open afterwards.
    pub fn get(&mut self, _rb: &[u8], state: &(Vec<Vec<u32>>, usize)) -> (r: Result<(), EtError>)
        ensures
            r is Ok,
            final(self).segments() == table(state.0@),
            final(self).data_left == state.1,
            final(self).mzs_left == 0,
            final(self).wf(),
            final(self).cur_time == old(self).cur_time,
            final(self).cur_mz == old(self).cur_mz,
            final(self).cur_intensity == old(self).cur_intensity,
            final(self).cur_segment == old(self).cur_segment,
    {
        let mut copy: Vec<Vec<u32>> = Vec::new();
        let mut i: usize = 0;
        while i < state.0.len()
            invariant
                i <= state.0@.len(),
                copy@.len() == i,
                forall|k: int| 0 <= k < i ==> copy@[k]@ == state.0@[k]@,
            decreases state.0@.len() - i,
        {
            copy.push(slice_to_vec(state.0[i].as_slice()));
            i += 1;
        }
        proof {
            assert(table(copy@) == table(state.0@));
        }
        self.mz_segments = copy;
        self.data_left = state.1;
        self.mzs_left = 0;
        Ok(())
    }
}

/// The message of a burst that declares no intensities at all.
pub const EMPTY_BURST: &'static str = "Burst holds no intensities";

/// What is wrong with the scan data at the cursor.
pub enum ReadingFault {
    /// The bytes end inside a burst.
    Truncated,
    /// The burst names a segment that the method section does not list.
    BadSegment { segment: nat },
    /// The burst holds another number of intensities than its segment has
    /// m/z values.
    BadCount { found: nat, expected: nat },
    /// The burst, and with it its segment, holds nothing.
    EmptyBurst,
}

impl ReadingFault {
    /// The message that reports the fault.
    pub open spec fn text(self) -> Seq<char> {
        match self {
            ReadingFault::Truncated => SHORT_READ@,
            ReadingFault::BadSegment { segment } => "Invalid segment number ("@ + decimal(segment)
                + ") specified"@,
            ReadingFault::BadCount { found, expected } => "Number of intensities ("@ + decimal(
                found,
            ) + ") doesn't match number of mzs ("@ + decimal(expected) + ")"@,
            ReadingFault::EmptyBurst => EMPTY_BURST@,
        }
    }

    /// True for the fault that more bytes may cure.
    pub open spec fn is_incomplete(self) -> bool {
        self is Truncated
    }
}

/// True when `e` is the error that reports `fault`, without a context.
pub open spec fn reports_reading(e: EtError, fault: ReadingFault) -> bool {
    &&& e.msg@ == fault.text()
    &&& e.incomplete == fault.is_incomplete()
    &&& e.context is None
}

/// The state after one reading, and the number of bytes that it took.
pub ghost struct Reading {
    /// The reader's state once the reading is taken.
    pub state: InficonState,
    /// Number of bytes that the reading took from the scan data.
    pub used: nat,
}

/// What is left of `data_left` bytes once `used` of them are read. A burst
/// that runs over the declared length leaves nothing.
pub open spec fn left_after(data_left: int, used: int) -> int {
    if data_left >= used {
        data_left - used
    } else {
        0
    }
}

/// The next reading in the scan data `s`, for a reader in state `st`.
///
/// Without scan data left there is none. Inside a burst the reading is the
/// next intensity, for the next m/z of the burst's segment. Between bursts
/// a burst opens first: 4 bytes that are passed over, the time, 2 bytes
/// that are passed over, the number of intensities, 2 more such bytes, and
/// the segment in all but the lowest four bits of the last two bytes.
pub open spec fn reading_of(s: Seq<u8>, st: InficonState) -> Result<Option<Reading>, ReadingFault> {
    if st.data_left == 0 {
        Ok(None)
    } else if st.mzs_left == 0 {
        let time = signed(u32_at(s, 4, Endian::Little), 0x8000_0000);
        let count = u16_at(s, 10, Endian::Little);
        let segment = u16_at(s, 14, Endian::Little) / 16;
        if !in_bounds(s, 0, 16) {
            Err(ReadingFault::Truncated)
        } else if segment >= st.mz_segments@.len() {
            Err(ReadingFault::BadSegment { segment: segment as nat })
        } else if count != st.mz_segments@[segment]@.len() {
            Err(
                ReadingFault::BadCount {
                    found: count as nat,
                    expected: st.mz_segments@[segment]@.len(),
                },
            )
        } else if count == 0 {
            Err(ReadingFault::EmptyBurst)
        } else if !in_bounds(s, 0, 20) {
            Err(ReadingFault::Truncated)
        } else {
            Ok(
                Some(
                    Reading {
                        state: InficonState {
                            mz_segments: st.mz_segments,
                            data_left: left_after(st.data_left as int, 20) as usize,
                            cur_time: time as i32,
                            cur_mz: st.mz_segments@[segment]@[0],
                            cur_intensity: u32_at(s, 16, Endian::Little) as u32,
                            cur_segment: segment as usize,
                            mzs_left: (count - 1) as usize,
                        },
                        used: 20,
                    },
                ),
            )
        }
    } else {
        let values = st.mz_segments@[st.cur_segment as int]@;
        if !in_bounds(s, 0, 4) {
            Err(ReadingFault::Truncated)
        } else {
            Ok(
                Some(
                    Reading {
                        state: InficonState {
                            mz_segments: st.mz_segments,
                            data_left: left_after(st.data_left as int, 4) as usize,
                            cur_time: st.cur_time,
                            cur_mz: values[values.len() - st.mzs_left],
                            cur_intensity: u32_at(s, 0, Endian::Little) as u32,
                            cur_segment: st.cur_segment,
                            mzs_left: (st.mzs_left - 1) as usize,
                        },
                        used: 4,
                    },
                ),
            )
        }
    }
}

/// What is left of `data_left` bytes after readings that took `used` bytes
/// each, in order.
pub open spec fn left_after_all(data_left: int, used: Seq<int>) -> int
    decreases used.len(),
{
    if used.len() == 0 {
        data_left
    } else {
        left_after(left_after_all(data_left, used.drop_last()), used.last())
    }
}

/// The sum of `used`.
pub open spec fn total(used: Seq<int>) -> int
    decreases used.len(),
{
    if used.len() == 0 {
        0
    } else {
        total(used.drop_last()) + used.last()
    }
}

/// Every byte of the scan data is accounted for: while the readings stay
/// inside the declared length, what is left is that length less all the
/// bytes read. Readings that use up the declared length exactly leave
/// nothing.
pub proof fn lemma_data_left_accounted(data_left: int, used: Seq<int>)
    requires
        forall|i: int| 0 <= i < used.len() ==> used[i] >= 0,
        total(used) <= data_left,
    ensures
        left_after_all(data_left, used) == data_left - total(used),
        total(used) == data_left ==> left_after_all(data_left, used) == 0,
    decreases used.len(),
{
    if used.len() > 0 {
        lemma_total_nonnegative(used.drop_last());
        lemma_data_left_accounted(data_left, used.drop_last());
    }
}

/// A sum of sizes is no less than zero.
pub proof fn lemma_total_nonnegative(used: Seq<int>)
    requires
        forall|i: int| 0 <= i < used.len() ==> used[i] >= 0,
    ensures
        total(used) >= 0,
    decreases used.len(),
{
    if used.len() > 0 {
        lemma_total_nonnegative(used.drop_last());
    }
}

/// A reading leaves of the scan data what `left_after` says, takes its
/// bytes from the front of the data, and comes only while data are left.
pub proof fn lemma_reading_accounted(s: Seq<u8>, st: InficonState)
    requires
        st.wf(),
    ensures
        reading_of(s, st) matches Ok(Some(reading)) ==> {
            &&& st.data_left > 0
            &&& 0 < reading.used <= s.len()
            &&& reading.state.data_left == left_after(st.data_left as int, reading.used as int)
            &&& reading.state.mz_segments == st.mz_segments
            &&& reading.state.wf()
        },
        st.data_left == 0 <==> reading_of(s, st) == Ok::<Option<Reading>, ReadingFault>(None),
{
}

/// The state of a reader that has taken `n` readings from the scan data
/// `s`, one call after the other, and the number of bytes that they took.
/// There is none where one of the calls finds a fault or the end.
pub open spec fn after_readings(s: Seq<u8>, st: InficonState, n: nat) -> Option<
    (InficonState, int),
>
    decreases n,
{
    if n == 0 {
        Some((st, 0))
    } else {
        match after_readings(s, st, (n - 1) as nat) {
            None => None,
            Some((mid, used)) => match reading_of(s.skip(used), mid) {
                Ok(Some(reading)) => Some((reading.state, used + reading.used)),
                _ => None,
            },
        }
    }
}

/// Every byte of the scan data is accounted for over any number of calls:
/// while the readings stay inside the declared length, what is left after
/// them is that length less all the bytes that they took. Once they have
/// taken the declared length exactly, nothing is left and the next call
/// finds the end of the records.
pub proof fn lemma_calls_accounted(s: Seq<u8>, st: InficonState, n: nat)
    requires
        st.wf(),
        after_readings(s, st, n) is Some,
        after_readings(s, st, n)->Some_0.1 <= st.data_left,
    ensures
        ({
            let (end, used) = after_readings(s, st, n)->Some_0;
            &&& end.wf()
            &&& 0 <= used
            &&& end.data_left == st.data_left - used
            &&& end.mz_segments == st.mz_segments
            &&& used == st.data_left ==> reading_of(s.skip(used), end) == Ok::<
                Option<Reading>,
                ReadingFault,
            >(None)
        }),
    decreases n,
{
    if n > 0 {
        let (mid, before) = after_readings(s, st, (n - 1) as nat)->Some_0;
        lemma_calls_used(s, st, (n - 1) as nat);
        lemma_calls_accounted(s, st, (n - 1) as nat);
        lemma_reading_accounted(s.skip(before), mid);
    }
}

/// The readings of any number of calls take no less than no bytes, and
/// leave the reader well formed.
pub proof fn lemma_calls_used(s: Seq<u8>, st: InficonState, n: nat)
    requires
        st.wf(),
        after_readings(s, st, n) is Some,
    ensures
        after_readings(s, st, n)->Some_0.1 >= 0,
        after_readings(s, st, n)->Some_0.0.wf(),
        n > 0 ==> after_readings(s, st, n)->Some_0.1 > after_readings(
            s,
            st,
            (n - 1) as nat,
        )->Some_0.1,
    decreases n,
{
    if n > 0 {
        let (mid, before) = after_readings(s, st, (n - 1) as nat)->Some_0;
        lemma_calls_used(s, st, (n - 1) as nat);
        lemma_reading_accounted(s.skip(before), mid);
    }
}

/// The error for a burst that names the segment `segment`, which the method
/// section does not list.
pub fn bad_segment(segment: usize) -> (e: EtError)
    ensures
        reports_reading(e, ReadingFault::BadSegment { segment: segment as nat }),
{
    let mut msg = "Invalid segment number (".to_owned();
    push_decimal(&mut msg, segment as u64);
    msg.append(") specified");
    EtError::from(msg)
}

/// The error for a burst of `found` intensities in a segment of `expected`
/// m/z values.
pub fn bad_count(found: usize, expected: usize) -> (e: EtError)
    ensures
        reports_reading(e, ReadingFault::BadCount { found: found as nat, expected: expected as nat }),
{
    let mut msg = "Number of intensities (".to_owned();
    push_decimal(&mut msg, found as u64);
    msg.append(") doesn't match number of mzs (");
    push_decimal(&mut msg, expected as u64);
    msg.append(")");
    EtError::from(msg)
}

/// One reading of an Inficon file: an intensity at one m/z and one time.
#[derive(Clone, Copy, Debug, Default, PartialEq, Eq)]
pub struct InficonRecord {
    /// Time of the reading's burst, in milliseconds.
    pub time: i32,
    /// The m/z of the reading, in hundredths.
    pub mz: u32,
    /// The intensity, as the bits of an IEEE-754 single.
    pub intensity: u32,
}

/// The record that a reader in state `st` hands out.
pub open spec fn record_of(st: InficonState) -> InficonRecord {
    InficonRecord { time: st.cur_time, mz: st.cur_mz, intensity: st.cur_intensity }
}

impl InficonRecord {
    /// Number of fields of a record.
    pub fn size(&self) -> (n: usize)
        ensures
            n == 3,
    {
        3
    }

    /// Takes the next reading from the start of `rb` into `state`, and adds
    /// the number of bytes that it took to `consumed`. The result is `false`
    /// when no scan data is left.
    ///
    /// On any fault `state` and `consumed` keep their values. It is a fault
    /// too when `consumed` cannot take the bytes without overflow.
    pub fn parse(rb: &[u8], _eof: bool, consumed: &mut usize, state: &mut InficonState) -> (r:
        Result<bool, EtError>)
        requires
            old(state).wf(),
        ensures
            final(state).wf(),
            match reading_of(rb@, *old(state)) {
                Ok(Some(reading)) => if *old(consumed) + reading.used <= usize::MAX {
                    &&& r == Ok::<bool, EtError>(true)
                    &&& *final(state) == reading.state
                    &&& *final(consumed) == *old(consumed) + reading.used
                } else {
                    &&& r matches Err(e) && is_cursor_overflow(e)
                    &&& *final(state) == *old(state)
                    &&& *final(consumed) == *old(consumed)
                },
                Ok(None) => {
                    &&& r == Ok::<bool, EtError>(false)
                    &&& *final(state) == *old(state)
                    &&& *final(consumed) == *old(consumed)
                },
                Err(fault) => {
                    &&& r matches Err(e) && reports_reading(e, fault)
                    &&& *final(state) == *old(state)
                    &&& *final(consumed) == *old(consumed)
                },
            },
    {
        if state.data_left == 0 {
            return Ok(false);
        }
        let mut con: usize = 0;
        let mut cur_time = state.cur_time;
        let mut cur_segment = state.cur_segment;
        let mut mzs_left = state.mzs_left;
        if mzs_left == 0 {
            // the number of the burst, counted from one
            match skip(rb, &mut con, 4) {
                Ok(()) => {},
                Err(e) => {
                    return Err(e);
                },
            }
            cur_time = match extract_i32(rb, &mut con, Endian::Little) {
                Ok(v) => v,
                Err(e) => {
                    return Err(e);
                },
            };
            match skip(rb, &mut con, 2) {
                Ok(()) => {},
                Err(e) => {
                    return Err(e);
                },
            }
            let n_mzs = match extract_u16(rb, &mut con, Endian::Little) {
                Ok(v) => v as usize,
                Err(e) => {
                    return Err(e);
                },
            };
            match skip(rb, &mut con, 2) {
                Ok(()) => {},
                Err(e) => {
                    return Err(e);
                },
            }
            cur_segment = match extract_u16(rb, &mut con, Endian::Little) {
                Ok(v) => (v / 16) as usize,
                Err(e) => {
                    return Err(e);
                },
            };
            if cur_segment >= state.mz_segments.len() {
                return Err(bad_segment(cur_segment));
            }
            let expected = state.mz_segments[cur_segment].len();
            if n_mzs != expected {
                return Err(bad_count(n_mzs, expected));
            }
            if n_mzs == 0 {
                return Err(EtError::new(EMPTY_BURST));
            }
            mzs_left = n_mzs;
        }
        let intensity = match extract_u32(rb, &mut con, Endian::Little) {
            Ok(v) => v,
            Err(e) => {
                return Err(e);
            },
        };
        if con > usize::MAX - *consumed {
            return Err(EtError::new(CURSOR_OVERFLOW));
        }
        let values = &state.mz_segments[cur_segment];
        let cur_mz = values[values.len() - mzs_left];
        state.cur_time = cur_time;
        state.cur_segment = cur_segment;
        state.cur_intensity = intensity;
        state.cur_mz = cur_mz;
        state.mzs_left = mzs_left - 1;
        state.data_left = if state.data_left >= con {
            state.data_left - con
        } else {
            0
        };
        *consumed = *consumed + con;
        Ok(true)
    }

    /// Takes over the reading that `parse` has left in `state`.
    pub fn get(&mut self, _rb: &[u8], state: &InficonState) -> (r: Result<(), EtError>)
        ensures
            r is Ok,
            *final(self) == record_of(*state),
    {
        self.time = state.cur_time;
        self.mz = state.cur_mz;
        self.intensity = state.cur_intensity;
        Ok(())
    }
}

/// Reads the records of an Inficon Hapsite file.
pub struct InficonReader<'r, S: ByteSource> {
    /// The buffer that the file is read through.
    pub rb: ReadBuffer<'r, S>,
    /// What the method section said, and the place in the scan data.
    pub state: InficonState,
}

impl<'r, S: ByteSource> InficonReader<'r, S> {
    /// The buffer and the state are both well formed.
    pub open spec fn wf(&self) -> bool {
        self.rb.wf() && self.state.wf()
    }

    /// Tells whether the reader is well formed, for callers that cannot
    /// prove it.
    pub fn is_wf(&self) -> (b: bool)
        ensures
            b == self.wf(),
    {
        self.rb.is_wf() && self.state.is_wf()
    }

    /// Reads the method section from `rb`, refilling as often as that
    /// takes, and leaves the buffer at the first burst.
    ///
    /// Where the bytes that the buffer holds decide, the result is fixed by
    /// them: the reader when the method section is sound, and else the
    /// error of its fault, with the place of the buffer as context. Only a
    /// fault that more bytes may cure, before the end of the stream, leads
    /// to a refill.
    pub fn new(rb: ReadBuffer<'r, S>) -> (r: Result<Self, EtError>)
        requires
            rb.wf(),
        ensures
            r matches Ok(reader) ==> {
                let seen = reader.rb.bytes_from(rb.position());
                &&& reader.wf()
                &&& rb.unread().is_prefix_of(seen)
                &&& header_of(seen, reader.rb.eof) matches Ok(header)
                &&& reader.state.segments() == header.segments
                &&& reader.state.data_left == header.data_left
                &&& reader.state.mzs_left == 0
                &&& reader.rb.position() == rb.position() + header.consumed
                &&& reader.rb.unread() == seen.skip(header.consumed as int)
                &&& seen + reader.rb.source.rest() == rb.stream()
                &&& reader.rb.record_pos == rb.record_pos
            },
            match header_of(rb.unread(), rb.eof) {
                Ok(header) => r matches Ok(reader) && reader.rb.bytes_from(rb.position())
                    == rb.unread(),
                Err(fault) => rb.eof || !fault.is_incomplete() ==> (r matches Err(e) && e.msg@
                    == fault.text() && e.incomplete == fault.is_incomplete() && e.context is Some),
            },
    {
        let mut buf = rb;
        let mut found: (Vec<Vec<u32>>, usize) = (Vec::new(), 0);
        let mut con: usize = 0;
        let mut avail = buf.len();
        let ghost mut first = true;
        loop
            invariant
                buf.wf(),
                con == 0,
                first ==> buf.unread() == rb.unread() && buf.eof == rb.eof,
                !first ==> !rb.eof && header_of(rb.unread(), rb.eof) is Err && header_of(
                    rb.unread(),
                    rb.eof,
                )->Err_0.is_incomplete(),
                avail == buf.unread().len(),
                buf.window().len() <= usize::MAX,
                buf.position() == rb.position(),
                buf.record_pos == rb.record_pos,
                buf.stream() == rb.stream(),
                rb.unread().is_prefix_of(buf.unread()),
                rb.eof ==> buf.eof && buf.unread() == rb.unread(),
            decreases usize::MAX - avail, (if buf.eof { 0int } else { 1int }),
        {
            proof {
                lemma_header_fits(buf.unread(), buf.eof);
            }
            match InficonState::parse(buf.as_slice(), buf.eof, &mut con, &mut found) {
                Ok(_) => {
                    let state = InficonState {
                        mz_segments: found.0,
                        data_left: found.1,
                        cur_time: 0,
                        cur_mz: 0,
                        cur_intensity: 0,
                        cur_segment: 0,
                        mzs_left: 0,
                    };
                    let ghost seen = buf.unread();
                    proof {
                        lemma_header_fits(seen, buf.eof);
                    }
                    buf.consumed = buf.consumed + con;
                    proof {
                        assert(buf.bytes_from(rb.position()) == seen);
                    }
                    return Ok(InficonReader { rb: buf, state });
                },
                Err(e) => {
                    if !e.incomplete || buf.eof {
                        return Err(e.add_context(&buf));
                    }
                },
            }
            match buf.refill() {
                Ok(()) => {},
                Err(e) => {
                    return Err(e);
                },
            }
            proof {
                first = false;
            }
            avail = buf.len();
        }
    }

    /// Hands out the next reading, and refills the buffer as often as that
    /// takes. The result is `None` once the scan data are used up.
    ///
    /// With `seen` for what the buffer holds of the stream from the place
    /// where the call found it, the outcome is the one that
    /// [`reading_of`] gives for `seen`. A fault comes back as its error,
    /// with the place of the buffer as context; the reader is then as it
    /// was, so that the next call fails alike. Only where the scan data are
    /// cut short and the stream has not ended is the error the source's.
    pub fn next(&mut self) -> (r: Result<Option<InficonRecord>, EtError>)
        requires
            old(self).wf(),
        ensures
            final(self).wf(),
            old(self).rb.unread().is_prefix_of(
                final(self).rb.bytes_from(old(self).rb.position()),
            ),
            old(self).rb.eof ==> final(self).rb.eof && final(self).rb.bytes_from(
                old(self).rb.position(),
            ) == old(self).rb.unread(),
            final(self).rb.position() >= old(self).rb.position(),
            r is Ok ==> old(self).rb.stream() == final(self).rb.bytes_from(
                old(self).rb.position(),
            ) + final(self).rb.source.rest(),
            final(self).state.mz_segments == old(self).state.mz_segments,
            match reading_of(
                final(self).rb.bytes_from(old(self).rb.position()),
                old(self).state,
            ) {
                Ok(Some(reading)) => if old(self).rb.record_pos < u64::MAX {
                    &&& r == Ok::<Option<InficonRecord>, EtError>(Some(record_of(reading.state)))
                    &&& final(self).state == reading.state
                    &&& final(self).rb.position() == old(self).rb.position() + reading.used
                    &&& final(self).rb.unread() == final(self).rb.bytes_from(
                        old(self).rb.position(),
                    ).skip(reading.used as int)
                    &&& final(self).rb.record_pos == old(self).rb.record_pos + 1
                } else {
                    &&& r matches Err(e) && e.msg@ == TOO_MANY_RECORDS@ && !e.incomplete
                    &&& final(self).state == old(self).state
                    &&& final(self).rb.position() == old(self).rb.position()
                    &&& final(self).rb.unread() == final(self).rb.bytes_from(
                        old(self).rb.position(),
                    )
                    &&& final(self).rb.record_pos == old(self).rb.record_pos
                },
                Ok(None) => {
                    &&& r == Ok::<Option<InficonRecord>, EtError>(None)
                    &&& final(self).state == old(self).state
                    &&& final(self).rb.position() == old(self).rb.position()
                    &&& final(self).rb.unread() == final(self).rb.bytes_from(
                        old(self).rb.position(),
                    )
                    &&& final(self).rb.record_pos == old(self).rb.record_pos
                },
                Err(fault) => {
                    &&& r matches Err(e) && (fault.is_incomplete() && !final(self).rb.eof || {
                        &&& e.msg@ == fault.text()
                        &&& e.incomplete == fault.is_incomplete()
                        &&& e.context is Some
                    })
                    &&& final(self).state == old(self).state
                    &&& final(self).rb.position() == old(self).rb.position()
                    &&& final(self).rb.unread() == final(self).rb.bytes_from(
                        old(self).rb.position(),
                    )
                    &&& final(self).rb.record_pos == old(self).rb.record_pos
                },
            },
    {
        let mut avail = self.rb.len();
        loop
            invariant
                self.rb.wf(),
                self.state == old(self).state,
                old(self).state.wf(),
                avail == self.rb.unread().len(),
                self.rb.window().len() <= usize::MAX,
                self.rb.position() == old(self).rb.position(),
                self.rb.record_pos == old(self).rb.record_pos,
                self.rb.stream() == old(self).rb.stream(),
                old(self).rb.unread().is_prefix_of(self.rb.unread()),
                old(self).rb.eof ==> self.rb.eof && self.rb.unread() == old(self).rb.unread(),
            decreases usize::MAX - avail, (if self.rb.eof { 0int } else { 1int }),
        {
            let data_left = self.state.data_left;
            let cur_time = self.state.cur_time;
            let cur_mz = self.state.cur_mz;
            let cur_intensity = self.state.cur_intensity;
            let cur_segment = self.state.cur_segment;
            let mzs_left = self.state.mzs_left;
            let mut con: usize = 0;
            match InficonRecord::parse(self.rb.as_slice(), self.rb.eof, &mut con, &mut self.state) {
                Ok(true) => {
                    if self.rb.record_pos == u64::MAX {
                        self.state.data_left = data_left;
                        self.state.cur_time = cur_time;
                        self.state.cur_mz = cur_mz;
                        self.state.cur_intensity = cur_intensity;
                        self.state.cur_segment = cur_segment;
                        self.state.mzs_left = mzs_left;
                        return Err(EtError::new(TOO_MANY_RECORDS).add_context(&self.rb));
                    }
                    let record = InficonRecord {
                        time: self.state.cur_time,
                        mz: self.state.cur_mz,
                        intensity: self.state.cur_intensity,
                    };
                    let _ = self.rb.consume(con);
                    return Ok(Some(record));
                },
                Ok(false) => {
                    return Ok(None);
                },
                Err(e) => {
                    if !e.incomplete || self.rb.eof {
                        return Err(e.add_context(&self.rb));
                    }
                },
            }
            match self.rb.refill() {
                Ok(()) => {},
                Err(e) => {
                    return Err(e);
                },
            }
            avail = self.rb.len();
        }
    }

    /// The names of the columns.
    pub fn headers(&self) -> (names: Vec<&'static str>)
        ensures
            names@.len() == 3,
            names@[0]@ == "time"@,
            names@[1]@ == "mz"@,
            names@[2]@ == "intensity"@,
    {
        vec!["time", "mz", "intensity"]
    }
}

} // verus!
