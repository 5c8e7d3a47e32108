//! The header prelude shared by the Agilent Chemstation formats.
use vstd::prelude::*;

use crate::error::EtError;
use crate::parsers::{extract_u32, is_short_read, skip, u32_at, Endian};

verus! {

/// Number of bytes up to and including the header's length field.
pub const PRELUDE_LEN: usize = 268;

/// Offset of the length field in the prelude.
pub const LENGTH_OFFSET: usize = 264;

/// The smallest header that is accepted, in bytes.
pub const MIN_HEADER_LEN: u64 = 512;

/// The largest header that is accepted, in bytes.
pub const MAX_HEADER_LEN: u64 = 20_000;

/// What is wrong with a header prelude.
pub enum HeaderFault {
    /// Fewer than 268 bytes are there.
    NoPrelude,
    /// The length field is zero.
    ZeroLength,
    /// The header would be shorter than 512 bytes.
    TooShort,
    /// The header would be longer than 20,000 bytes.
    TooLong,
    /// The bytes end before the header does.
    Truncated,
}

/// The size in bytes of a header whose length field holds `raw`: the field
/// counts words of two bytes from one, and outside the MS format blocks of
/// 256 such words.
pub open spec fn header_size(raw: int, ms_format: bool) -> int {
    if ms_format {
        2 * (raw - 1)
    } else {
        2 * (raw - 1) * 256
    }
}

/// What the prelude of `rb` says: the size of the header, or what is
/// wrong with it.
pub open spec fn header_of(rb: Seq<u8>, ms_format: bool) -> Result<int, HeaderFault> {
    let raw = u32_at(rb, LENGTH_OFFSET as int, Endian::Big);
    let size = header_size(raw, ms_format);
    if rb.len() < PRELUDE_LEN {
        Err(HeaderFault::NoPrelude)
    } else if raw == 0 {
        Err(HeaderFault::ZeroLength)
    } else if size < MIN_HEADER_LEN {
        Err(HeaderFault::TooShort)
    } else if size > MAX_HEADER_LEN {
        Err(HeaderFault::TooLong)
    } else if size > rb.len() {
        Err(HeaderFault::Truncated)
    } else {
        Ok(size)
    }
}

/// True when `e` is the error that reports `fault`.
pub open spec fn reports(e: EtError, fault: HeaderFault) -> bool {
    match fault {
        HeaderFault::NoPrelude => {
            &&& e.incomplete
            &&& e.context is None
            &&& e.msg@ == "Agilent header too short"@
        },
        HeaderFault::ZeroLength => {
            &&& !e.incomplete
            &&& e.context is None
            &&& e.msg@ == "Invalid header length of 0"@
        },
        HeaderFault::TooShort => {
            &&& !e.incomplete
            &&& e.context is None
            &&& e.msg@ == "Header length too short"@
        },
        HeaderFault::TooLong => {
            &&& !e.incomplete
            &&& e.context is None
            &&& e.msg@ == "Header length too long"@
        },
        HeaderFault::Truncated => is_short_read(e),
    }
}

/// Reads the header prelude of an Agilent file and gives the number of
/// bytes to pass over to reach the data.
pub fn read_agilent_header(rb: &[u8], ms_format: bool) -> (r: Result<usize, EtError>)
    ensures
        match header_of(rb@, ms_format) {
            Ok(size) => r matches Ok(n) && n == size,
            Err(fault) => r matches Err(e) && reports(e, fault),
        },
{
    if rb.len() < PRELUDE_LEN {
        return Err(EtError::new("Agilent header too short").incomplete());
    }
    let mut at = LENGTH_OFFSET;
    let raw = match extract_u32(rb, &mut at, Endian::Big) {
        Ok(raw) => raw as u64,
        Err(e) => {
            return Err(e);
        },
    };
    if raw == 0 {
        return Err(EtError::new("Invalid header length of 0"));
    }
    let mut size = 2 * (raw - 1);
    if !ms_format {
        size = size * 256;
    }
    if size < MIN_HEADER_LEN {
        return Err(EtError::new("Header length too short"));
    } else if size > MAX_HEADER_LEN {
        return Err(EtError::new("Header length too long"));
    }
    let mut con: usize = 0;
    match skip(rb, &mut con, size as usize) {
        Ok(()) => Ok(con),
        Err(e) => Err(e),
    }
}

} // verus!
