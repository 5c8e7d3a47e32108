//! Decoders that read one typed value from a byte slice at a cursor.
//!
//! Every decoder checks the slice's length first. On success it moves the
//! cursor past what it read; on failure it leaves the cursor where it was.
use vstd::prelude::*;
use vstd::slice::slice_subrange;

use crate::error::EtError;

verus! {

/// `memchr::memchr` returns the index of the first byte of `haystack` that
/// equals `needle`, and `None` where no byte does.
pub assume_specification[ memchr::memchr ](needle: u8, haystack: &[u8]) -> (r: Option<usize>)
    ensures
        match r {
            Some(i) => i < haystack@.len() && haystack@[i as int] == needle && forall|j: int|
                0 <= j < i ==> haystack@[j] != needle,
            None => forall|j: int| 0 <= j < haystack@.len() ==> haystack@[j] != needle,
        },
;

/// The order of the bytes of a multi-byte integer.
#[derive(Clone, Copy, Debug, PartialEq, Eq)]
pub enum Endian {
    /// Most significant byte first.
    Big,
    /// Least significant byte first.
    Little,
}

/// The value of the two bytes of `s` at `at`.
pub open spec fn u16_at(s: Seq<u8>, at: int, endian: Endian) -> int {
    match endian {
        Endian::Little => s[at] + 0x100 * s[at + 1],
        Endian::Big => 0x100 * s[at] + s[at + 1],
    }
}

/// The value of the four bytes of `s` at `at`.
pub open spec fn u32_at(s: Seq<u8>, at: int, endian: Endian) -> int {
    match endian {
        Endian::Little => s[at] + 0x100 * s[at + 1] + 0x1_0000 * s[at + 2] + 0x100_0000 * s[at
            + 3],
        Endian::Big => 0x100_0000 * s[at] + 0x1_0000 * s[at + 1] + 0x100 * s[at + 2] + s[at + 3],
    }
}

/// The value of the eight bytes of `s` at `at`.
pub open spec fn u64_at(s: Seq<u8>, at: int, endian: Endian) -> int {
    match endian {
        Endian::Little => u32_at(s, at, endian) + 0x1_0000_0000 * u32_at(s, at + 4, endian),
        Endian::Big => 0x1_0000_0000 * u32_at(s, at, endian) + u32_at(s, at + 4, endian),
    }
}

/// The two's complement reading of an unsigned value below `2 * half`.
pub open spec fn signed(value: int, half: int) -> int {
    if value >= half {
        value - 2 * half
    } else {
        value
    }
}

/// True when `n` bytes can be read from `s` at `at`.
pub open spec fn in_bounds(s: Seq<u8>, at: int, n: int) -> bool {
    at + n <= s.len()
}

/// The message of a decoder that finds too few bytes for its value.
pub const SHORT_READ: &'static str = "Not enough bytes left to decode a value";

/// The message of a pattern search that has not found its pattern yet.
pub const PATTERN_PENDING: &'static str = "Pattern not found in the bytes read so far";

/// The message of a cursor that cannot be moved on by what was read
/// without leaving the range of a `usize`.
pub const CURSOR_OVERFLOW: &'static str = "Cursor is too far on to be moved";

/// True when `e` is the error of a cursor that cannot be moved on.
pub open spec fn is_cursor_overflow(e: EtError) -> bool {
    &&& !e.incomplete
    &&& e.context is None
    &&& e.msg@ == CURSOR_OVERFLOW@
}

/// The message of a text that ends without its closing zero byte.
pub const UNTERMINATED: &'static str = "Text is not closed by a zero byte";

/// The error of every fixed-width decoder on a slice that is too short:
/// an incomplete error without context.
pub open spec fn is_short_read(e: EtError) -> bool {
    &&& e.incomplete
    &&& e.context is None
    &&& e.msg@ == SHORT_READ@
}

/// Checks that `n` bytes are left at the cursor and moves the cursor past
/// them. Returns where they start.
pub fn take_fixed(rb: &[u8], consumed: &mut usize, n: usize) -> (r: Result<usize, EtError>)
    ensures
        match r {
            Ok(start) => {
                &&& in_bounds(rb@, *old(consumed) as int, n as int)
                &&& start == *old(consumed)
                &&& *final(consumed) == *old(consumed) + n
            },
            Err(e) => {
                &&& !in_bounds(rb@, *old(consumed) as int, n as int)
                &&& is_short_read(e)
                &&& *final(consumed) == *old(consumed)
            },
        },
{
    let start = *consumed;
    if rb.len() < n || start > rb.len() - n {
        Err(EtError::new(SHORT_READ).incomplete())
    } else {
        *consumed = start + n;
        Ok(start)
    }
}

/// Moves the cursor `n` bytes on.
pub fn skip(rb: &[u8], consumed: &mut usize, n: usize) -> (r: Result<(), EtError>)
    ensures
        match r {
            Ok(()) => {
                &&& in_bounds(rb@, *old(consumed) as int, n as int)
                &&& *final(consumed) == *old(consumed) + n
            },
            Err(e) => {
                &&& !in_bounds(rb@, *old(consumed) as int, n as int)
                &&& is_short_read(e)
                &&& *final(consumed) == *old(consumed)
            },
        },
{
    match take_fixed(rb, consumed, n) {
        Ok(_) => Ok(()),
        Err(e) => Err(e),
    }
}

/// Reads the next `n` bytes as a slice of `rb`.
pub fn extract_bytes<'r>(rb: &'r [u8], consumed: &mut usize, n: usize) -> (r: Result<
    &'r [u8],
    EtError,
>)
    ensures
        match r {
            Ok(bytes) => {
                &&& in_bounds(rb@, *old(consumed) as int, n as int)
                &&& bytes@ == rb@.subrange(*old(consumed) as int, *old(consumed) + n)
                &&& *final(consumed) == *old(consumed) + n
            },
            Err(e) => {
                &&& !in_bounds(rb@, *old(consumed) as int, n as int)
                &&& is_short_read(e)
                &&& *final(consumed) == *old(consumed)
            },
        },
{
    match take_fixed(rb, consumed, n) {
        Ok(start) => Ok(slice_subrange(rb, start, start + n)),
        Err(e) => Err(e),
    }
}

/// Reads one byte.
pub fn extract_u8(rb: &[u8], consumed: &mut usize) -> (r: Result<u8, EtError>)
    ensures
        match r {
            Ok(v) => {
                &&& in_bounds(rb@, *old(consumed) as int, 1)
                &&& v == rb@[*old(consumed) as int]
                &&& *final(consumed) == *old(consumed) + 1
            },
            Err(e) => {
                &&& !in_bounds(rb@, *old(consumed) as int, 1)
                &&& is_short_read(e)
                &&& *final(consumed) == *old(consumed)
            },
        },
{
    match take_fixed(rb, consumed, 1) {
        Ok(start) => Ok(rb[start]),
        Err(e) => Err(e),
    }
}

/// Reads an unsigned integer of two bytes.
pub fn extract_u16(rb: &[u8], consumed: &mut usize, endian: Endian) -> (r: Result<u16, EtError>)
    ensures
        match r {
            Ok(v) => {
                &&& in_bounds(rb@, *old(consumed) as int, 2)
                &&& v == u16_at(rb@, *old(consumed) as int, endian)
                &&& *final(consumed) == *old(consumed) + 2
            },
            Err(e) => {
                &&& !in_bounds(rb@, *old(consumed) as int, 2)
                &&& is_short_read(e)
                &&& *final(consumed) == *old(consumed)
            },
        },
{
    match take_fixed(rb, consumed, 2) {
        Ok(start) => {
            let b0 = rb[start] as u16;
            let b1 = rb[start + 1] as u16;
            Ok(
                match endian {
                    Endian::Little => b0 + 0x100 * b1,
                    Endian::Big => 0x100 * b0 + b1,
                },
            )
        },
        Err(e) => Err(e),
    }
}

/// Reads an unsigned integer of four bytes.
pub fn extract_u32(rb: &[u8], consumed: &mut usize, endian: Endian) -> (r: Result<u32, EtError>)
    ensures
        match r {
            Ok(v) => {
                &&& in_bounds(rb@, *old(consumed) as int, 4)
                &&& v == u32_at(rb@, *old(consumed) as int, endian)
                &&& *final(consumed) == *old(consumed) + 4
            },
            Err(e) => {
                &&& !in_bounds(rb@, *old(consumed) as int, 4)
                &&& is_short_read(e)
                &&& *final(consumed) == *old(consumed)
            },
        },
{
    match take_fixed(rb, consumed, 4) {
        Ok(start) => {
            let b0 = rb[start] as u32;
            let b1 = rb[start + 1] as u32;
            let b2 = rb[start + 2] as u32;
            let b3 = rb[start + 3] as u32;
            Ok(
                match endian {
                    Endian::Little => b0 + 0x100 * b1 + 0x1_0000 * b2 + 0x100_0000 * b3,
                    Endian::Big => 0x100_0000 * b0 + 0x1_0000 * b1 + 0x100 * b2 + b3,
                },
            )
        },
        Err(e) => Err(e),
    }
}

/// Reads an unsigned integer of eight bytes.
pub fn extract_u64(rb: &[u8], consumed: &mut usize, endian: Endian) -> (r: Result<u64, EtError>)
    ensures
        match r {
            Ok(v) => {
                &&& in_bounds(rb@, *old(consumed) as int, 8)
                &&& v == u64_at(rb@, *old(consumed) as int, endian)
                &&& *final(consumed) == *old(consumed) + 8
            },
            Err(e) => {
                &&& !in_bounds(rb@, *old(consumed) as int, 8)
                &&& is_short_read(e)
                &&& *final(consumed) == *old(consumed)
            },
        },
{
    let mut cursor = *consumed;
    let first = match extract_u32(rb, &mut cursor, endian) {
        Ok(v) => v as u64,
        Err(e) => {
            return Err(e);
        },
    };
    let second = match extract_u32(rb, &mut cursor, endian) {
        Ok(v) => v as u64,
        Err(e) => {
            return Err(e);
        },
    };
    *consumed = cursor;
    Ok(
        match endian {
            Endian::Little => first + 0x1_0000_0000 * second,
            Endian::Big => 0x1_0000_0000 * first + second,
        },
    )
}

/// Reads a signed integer of one byte.
pub fn extract_i8(rb: &[u8], consumed: &mut usize) -> (r: Result<i8, EtError>)
    ensures
        match r {
            Ok(v) => {
                &&& in_bounds(rb@, *old(consumed) as int, 1)
                &&& v == signed(rb@[*old(consumed) as int] as int, 0x80)
                &&& *final(consumed) == *old(consumed) + 1
            },
            Err(e) => {
                &&& !in_bounds(rb@, *old(consumed) as int, 1)
                &&& is_short_read(e)
                &&& *final(consumed) == *old(consumed)
            },
        },
{
    match extract_u8(rb, consumed) {
        Ok(v) => Ok(
            if v >= 0x80 {
                (v - 0x80) as i8 + i8::MIN
            } else {
                v as i8
            },
        ),
        Err(e) => Err(e),
    }
}

/// Reads a signed integer of two bytes.
pub fn extract_i16(rb: &[u8], consumed: &mut usize, endian: Endian) -> (r: Result<i16, EtError>)
    ensures
        match r {
            Ok(v) => {
                &&& in_bounds(rb@, *old(consumed) as int, 2)
                &&& v == signed(u16_at(rb@, *old(consumed) as int, endian), 0x8000)
                &&& *final(consumed) == *old(consumed) + 2
            },
            Err(e) => {
                &&& !in_bounds(rb@, *old(consumed) as int, 2)
                &&& is_short_read(e)
                &&& *final(consumed) == *old(consumed)
            },
        },
{
    match extract_u16(rb, consumed, endian) {
        Ok(v) => Ok(
            if v >= 0x8000 {
                (v - 0x8000) as i16 + i16::MIN
            } else {
                v as i16
            },
        ),
        Err(e) => Err(e),
    }
}

/// Reads a signed integer of four bytes.
pub fn extract_i32(rb: &[u8], consumed: &mut usize, endian: Endian) -> (r: Result<i32, EtError>)
    ensures
        match r {
            Ok(v) => {
                &&& in_bounds(rb@, *old(consumed) as int, 4)
                &&& v == signed(u32_at(rb@, *old(consumed) as int, endian), 0x8000_0000)
                &&& *final(consumed) == *old(consumed) + 4
            },
            Err(e) => {
                &&& !in_bounds(rb@, *old(consumed) as int, 4)
                &&& is_short_read(e)
                &&& *final(consumed) == *old(consumed)
            },
        },
{
    match extract_u32(rb, consumed, endian) {
        Ok(v) => Ok(
            if v >= 0x8000_0000 {
                (v - 0x8000_0000) as i32 + i32::MIN
            } else {
                v as i32
            },
        ),
        Err(e) => Err(e),
    }
}

/// Reads a signed integer of eight bytes.
pub fn extract_i64(rb: &[u8], consumed: &mut usize, endian: Endian) -> (r: Result<i64, EtError>)
    ensures
        match r {
            Ok(v) => {
                &&& in_bounds(rb@, *old(consumed) as int, 8)
                &&& v == signed(
                    u64_at(rb@, *old(consumed) as int, endian),
                    0x8000_0000_0000_0000,
                )
                &&& *final(consumed) == *old(consumed) + 8
            },
            Err(e) => {
                &&& !in_bounds(rb@, *old(consumed) as int, 8)
                &&& is_short_read(e)
                &&& *final(consumed) == *old(consumed)
            },
        },
{
    match extract_u64(rb, consumed, endian) {
        Ok(v) => Ok(
            if v >= 0x8000_0000_0000_0000 {
                (v - 0x8000_0000_0000_0000) as i64 + i64::MIN
            } else {
                v as i64
            },
        ),
        Err(e) => Err(e),
    }
}

/// True when `pat` stands in `s` at index `i`.
pub open spec fn matches_at(s: Seq<u8>, pat: Seq<u8>, i: int) -> bool {
    &&& 0 <= i
    &&& i + pat.len() <= s.len()
    &&& s.subrange(i, i + pat.len()) == pat
}

/// True when `pat` stands nowhere in `s` at an index from `from` up to, but
/// not including, `to`.
pub open spec fn no_match_in(s: Seq<u8>, pat: Seq<u8>, from: int, to: int) -> bool {
    forall|j: int| from <= j < to ==> !matches_at(s, pat, j)
}

/// True when `pat` stands nowhere in `s` at or after `from`.
pub open spec fn no_match_from(s: Seq<u8>, pat: Seq<u8>, from: int) -> bool {
    forall|j: int| from <= j ==> !matches_at(s, pat, j)
}

/// Tells whether `pat` stands in `rb` at index `at`.
pub fn has_pattern_at(rb: &[u8], at: usize, pat: &[u8]) -> (b: bool)
    ensures
        b == matches_at(rb@, pat@, at as int),
{
    let n = pat.len();
    if rb.len() < n || at > rb.len() - n {
        return false;
    }
    let mut k: usize = 0;
    while k < n
        invariant
            k <= n,
            n == pat@.len(),
            at + n <= rb@.len() <= usize::MAX,
            forall|j: int| 0 <= j < k ==> rb@[at + j] == pat@[j],
        decreases n - k,
    {
        if rb[at + k] != pat[k] {
            proof {
                assert(rb@.subrange(at as int, at + n)[k as int] == rb@[at + k]);
            }
            return false;
        }
        k += 1;
    }
    proof {
        assert(rb@.subrange(at as int, at + n) =~= pat@);
    }
    true
}

/// True when `at` is the first index from `from` on at which `pat` stands
/// in `s`.
pub open spec fn is_first_match(s: Seq<u8>, pat: Seq<u8>, from: int, at: int) -> bool {
    &&& from <= at
    &&& matches_at(s, pat, at)
    &&& no_match_in(s, pat, from, at)
}

/// The first index from `from` on at which `pat` stands in `s`.
pub open spec fn first_match(s: Seq<u8>, pat: Seq<u8>, from: int) -> Option<int> {
    if exists|at: int| is_first_match(s, pat, from, at) {
        Some(choose|at: int| is_first_match(s, pat, from, at))
    } else {
        None
    }
}

/// A first match is the only one: `first_match` names it.
pub proof fn lemma_first_match_found(s: Seq<u8>, pat: Seq<u8>, from: int, at: int)
    requires
        is_first_match(s, pat, from, at),
    ensures
        first_match(s, pat, from) == Some(at),
{
    let chosen = choose|at: int| is_first_match(s, pat, from, at);
    assert(is_first_match(s, pat, from, chosen));
    if chosen < at {
        assert(!matches_at(s, pat, chosen));
    }
    if at < chosen {
        assert(!matches_at(s, pat, at));
    }
}

/// Without a match there is no first one.
pub proof fn lemma_first_match_missing(s: Seq<u8>, pat: Seq<u8>, from: int)
    requires
        no_match_from(s, pat, from),
    ensures
        first_match(s, pat, from) is None,
{
    assert forall|at: int| !is_first_match(s, pat, from, at) by {
        if from <= at {
            assert(!matches_at(s, pat, at));
        }
    }
}

/// The error of a pattern search that may still succeed on more input.
pub open spec fn is_pattern_pending(e: EtError) -> bool {
    &&& e.incomplete
    &&& e.context is None
    &&& e.msg@ == PATTERN_PENDING@
}

/// Looks for the first place at or after the cursor where `pat` stands.
///
/// Where it is found, the cursor moves to the byte after the match and the
/// result is `true`. Where it is not, the cursor stays: at the end of the
/// stream the result is `false`, and before it an incomplete error, since
/// the pattern may still come.
pub fn seek_pattern(rb: &[u8], eof: bool, consumed: &mut usize, pat: &[u8]) -> (r: Result<
    bool,
    EtError,
>)
    ensures
        match first_match(rb@, pat@, *old(consumed) as int) {
            Some(at) => r == Ok::<bool, EtError>(true) && *final(consumed) == at + pat@.len(),
            None => {
                &&& *final(consumed) == *old(consumed)
                &&& if eof {
                    r == Ok::<bool, EtError>(false)
                } else {
                    r matches Err(e) && is_pattern_pending(e)
                }
            },
        },
{
    let n = pat.len();
    let start = *consumed;
    if rb.len() >= n && start <= rb.len() - n {
        if n == 0 {
            proof {
                assert(rb@.subrange(start as int, start as int) =~= pat@);
                lemma_first_match_found(rb@, pat@, start as int, start as int);
            }
            return Ok(true);
        }
        let last = rb.len() - n;
        let mut pos = start;
        while pos <= last
            invariant
                start <= pos <= last + 1,
                last + n == rb@.len() <= usize::MAX,
                n == pat@.len(),
                n > 0,
                *consumed == start == *old(consumed),
                no_match_in(rb@, pat@, start as int, pos as int),
            decreases last + 1 - pos,
        {
            let tail = slice_subrange(rb, pos, last + 1);
            match memchr::memchr(pat[0], tail) {
                None => {
                    proof {
                        assert forall|j: int| pos <= j < last + 1 implies !matches_at(
                            rb@,
                            pat@,
                            j,
                        ) by {
                            assert(tail@[j - pos] == rb@[j]);
                            assert(rb@.subrange(j, j + n)[0] == rb@[j]);
                        }
                    }
                    pos = last + 1;
                },
                Some(off) => {
                    let at = pos + off;
                    proof {
                        assert forall|j: int| pos <= j < at implies !matches_at(rb@, pat@, j) by {
                            assert(tail@[j - pos] == rb@[j]);
                            assert(rb@.subrange(j, j + n)[0] == rb@[j]);
                        }
                    }
                    if has_pattern_at(rb, at, pat) {
                        *consumed = at + n;
                        proof {
                            lemma_first_match_found(rb@, pat@, start as int, at as int);
                        }
                        return Ok(true);
                    }
                    pos = at + 1;
                },
            }
        }
    }
    proof {
        lemma_first_match_missing(rb@, pat@, start as int);
    }
    if eof {
        Ok(false)
    } else {
        Err(EtError::new(PATTERN_PENDING).incomplete())
    }
}

/// The pattern search for callers that ask whether the pattern is there at
/// all: the place of the byte after the match, or `None` at the end of a
/// stream that does not hold it. Before the end of the stream a miss is the
/// same incomplete error as that of [`seek_pattern`].
pub fn seek_pattern_opt(rb: &[u8], eof: bool, consumed: &mut usize, pat: &[u8]) -> (r: Result<
    Option<usize>,
    EtError,
>)
    ensures
        match first_match(rb@, pat@, *old(consumed) as int) {
            Some(at) => {
                &&& r matches Ok(Some(end)) && end == at + pat@.len()
                &&& *final(consumed) == at + pat@.len()
            },
            None => {
                &&& *final(consumed) == *old(consumed)
                &&& if eof {
                    r == Ok::<Option<usize>, EtError>(None)
                } else {
                    r matches Err(e) && is_pattern_pending(e)
                }
            },
        },
{
    match seek_pattern(rb, eof, consumed, pat) {
        Ok(true) => Ok(Some(*consumed)),
        Ok(false) => Ok(None),
        Err(e) => Err(e),
    }
}

/// True when no byte of `s` at or after `from` is zero.
pub open spec fn no_zero_from(s: Seq<u8>, from: int) -> bool {
    forall|j: int| from <= j < s.len() && 0 <= j ==> s[j] != 0
}

/// Reads the bytes from the cursor up to the next zero byte, and moves the
/// cursor past that byte. The slice that comes back leaves the zero out.
///
/// Without a zero byte the cursor stays and the call fails: with an
/// incomplete error before the end of the stream, with a final one at it.
pub fn extract_nul_terminated<'r>(rb: &'r [u8], eof: bool, consumed: &mut usize) -> (r: Result<
    &'r [u8],
    EtError,
>)
    ensures
        match r {
            Ok(text) => {
                let end = *final(consumed) - 1;
                &&& *old(consumed) <= end < rb@.len()
                &&& rb@[end] == 0
                &&& forall|j: int| *old(consumed) <= j < end ==> rb@[j] != 0
                &&& text@ == rb@.subrange(*old(consumed) as int, end)
            },
            Err(e) => {
                &&& no_zero_from(rb@, *old(consumed) as int)
                &&& *final(consumed) == *old(consumed)
                &&& e.incomplete == !eof
                &&& e.context is None
                &&& e.msg@ == UNTERMINATED@
            },
        },
{
    let start = *consumed;
    if start < rb.len() {
        let tail = slice_subrange(rb, start, rb.len());
        if let Some(off) = memchr::memchr(0, tail) {
            let end = start + off;
            proof {
                assert(tail@[off as int] == rb@[end as int]);
                assert forall|j: int| start <= j < end implies rb@[j] != 0 by {
                    assert(tail@[j - start] == rb@[j]);
                }
            }
            *consumed = end + 1;
            return Ok(slice_subrange(rb, start, end));
        }
        proof {
            assert forall|j: int| start <= j < rb@.len() implies rb@[j] != 0 by {
                assert(tail@[j - start] == rb@[j]);
            }
        }
    }
    if eof {
        Err(EtError::new(UNTERMINATED))
    } else {
        Err(EtError::new(UNTERMINATED).incomplete())
    }
}

} // verus!
