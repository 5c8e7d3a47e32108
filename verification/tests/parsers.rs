use entab::parsers::{
    extract_bytes, extract_i16, extract_i32, extract_i64, extract_i8, extract_nul_terminated,
    extract_u16, extract_u32, extract_u64, extract_u8, has_pattern_at, seek_pattern,
    seek_pattern_opt, skip, take_fixed, Endian,
};
use entab::readers::agilent::read_agilent_header;
use entab::utils::replace_tabs;
use std::borrow::Cow;

const BYTES: [u8; 9] = [0x01, 0x02, 0x83, 0x04, 0x05, 0x06, 0x07, 0xF8, 0x09];

#[test]
fn unsigned_integers_in_both_orders() {
    let mut at = 0;
    assert_eq!(extract_u8(&BYTES, &mut at).unwrap(), 1);
    assert_eq!(at, 1);
    assert_eq!(extract_u16(&BYTES, &mut at, Endian::Little).unwrap(), 0x8302);
    assert_eq!(at, 3);
    at = 1;
    assert_eq!(extract_u16(&BYTES, &mut at, Endian::Big).unwrap(), 0x0283);
    at = 0;
    assert_eq!(extract_u32(&BYTES, &mut at, Endian::Little).unwrap(), 0x0483_0201);
    assert_eq!(at, 4);
    at = 0;
    assert_eq!(extract_u32(&BYTES, &mut at, Endian::Big).unwrap(), 0x0102_8304);
    at = 0;
    assert_eq!(extract_u64(&BYTES, &mut at, Endian::Little).unwrap(), 0xF807_0605_0483_0201);
    assert_eq!(at, 8);
    at = 1;
    assert_eq!(extract_u64(&BYTES, &mut at, Endian::Big).unwrap(), 0x0283_0405_0607_F809);
    assert_eq!(at, 9);
}

#[test]
fn signed_integers_are_twos_complement() {
    let mut at = 2;
    assert_eq!(extract_i8(&BYTES, &mut at).unwrap(), -125);
    at = 0;
    assert_eq!(extract_i8(&BYTES, &mut at).unwrap(), 1);
    at = 1;
    assert_eq!(extract_i16(&BYTES, &mut at, Endian::Little).unwrap(), 0x8302u16 as i16);
    at = 1;
    assert_eq!(extract_i16(&BYTES, &mut at, Endian::Big).unwrap(), 0x0283);
    at = 2;
    assert_eq!(extract_i32(&BYTES, &mut at, Endian::Big).unwrap(), 0x8304_0506u32 as i32);
    at = 2;
    assert_eq!(extract_i32(&BYTES, &mut at, Endian::Little).unwrap(), 0x0605_0483);
    at = 0;
    assert_eq!(
        extract_i64(&BYTES, &mut at, Endian::Little).unwrap(),
        0xF807_0605_0483_0201u64 as i64
    );
    let ones = [0xFFu8; 8];
    at = 0;
    assert_eq!(extract_i64(&ones, &mut at, Endian::Big).unwrap(), -1);
    at = 0;
    assert_eq!(extract_i32(&ones, &mut at, Endian::Little).unwrap(), -1);
    let low = [0x00u8, 0x00, 0x00, 0x80];
    at = 0;
    assert_eq!(extract_i32(&low, &mut at, Endian::Little).unwrap(), i32::MIN);
}

#[test]
fn short_slices_fail_and_leave_the_cursor() {
    let mut at = 6;
    let err = extract_u32(&BYTES, &mut at, Endian::Little).unwrap_err();
    assert!(err.incomplete);
    assert_eq!(err.message(), "Not enough bytes left to decode a value");
    assert_eq!(at, 6);
    assert!(extract_u64(&BYTES, &mut at, Endian::Big).is_err());
    assert_eq!(at, 6);
    at = 5;
    assert!(extract_u64(&BYTES, &mut at, Endian::Big).is_err());
    assert_eq!(at, 5);
    at = 9;
    assert!(extract_u8(&BYTES, &mut at).is_err());
    at = 40;
    assert!(extract_i16(&BYTES, &mut at, Endian::Big).is_err());
    assert!(skip(&BYTES, &mut at, 0).is_err());
    assert_eq!(at, 40);
    assert!(take_fixed(&BYTES, &mut at, usize::MAX).is_err());
}

#[test]
fn slices_and_skips_advance_by_their_length() {
    let mut at = 2;
    assert_eq!(extract_bytes(&BYTES, &mut at, 3).unwrap(), &BYTES[2..5]);
    assert_eq!(at, 5);
    skip(&BYTES, &mut at, 4).unwrap();
    assert_eq!(at, 9);
    assert_eq!(extract_bytes(&BYTES, &mut at, 0).unwrap(), b"");
    assert!(skip(&BYTES, &mut at, 1).is_err());
    assert_eq!(at, 9);
    at = 3;
    assert_eq!(take_fixed(&BYTES, &mut at, 6).unwrap(), 3);
    assert_eq!(at, 9);
}

#[test]
fn pattern_seek_stops_behind_the_first_match() {
    let text = b"xxabxabcabc";
    let mut at = 0;
    assert!(seek_pattern(text, false, &mut at, b"abc").unwrap());
    assert_eq!(at, 8);
    assert!(seek_pattern(text, false, &mut at, b"abc").unwrap());
    assert_eq!(at, 11);
    assert!(!seek_pattern(text, true, &mut at, b"abc").unwrap());
    assert_eq!(at, 11);
    let err = seek_pattern(text, false, &mut at, b"abc").unwrap_err();
    assert!(err.incomplete);
    assert_eq!(at, 11);
    at = 6;
    assert!(seek_pattern(text, true, &mut at, b"abc").unwrap());
    assert_eq!(at, 11);
    at = 3;
    assert!(seek_pattern(text, true, &mut at, b"").unwrap());
    assert_eq!(at, 3);
    at = 0;
    assert!(!seek_pattern(text, true, &mut at, b"abcabcabcabcabc").unwrap());
    assert!(seek_pattern(b"aab", true, &mut at, b"ab").unwrap());
    assert_eq!(at, 3);
}

#[test]
fn optional_seek_tells_a_miss_from_a_want_of_bytes() {
    let mut at = 1;
    assert_eq!(seek_pattern_opt(b"..HapsScan..", true, &mut at, b"Haps").unwrap(), Some(6));
    assert_eq!(at, 6);
    assert_eq!(seek_pattern_opt(b"..HapsScan..", true, &mut at, b"Haps").unwrap(), None);
    assert_eq!(at, 6);
    assert!(seek_pattern_opt(b"..HapsScan..", false, &mut at, b"Haps").unwrap_err().incomplete);
    assert!(has_pattern_at(b"..Haps", 2, b"Haps"));
    assert!(!has_pattern_at(b"..Haps", 3, b"Haps"));
    assert!(!has_pattern_at(b"..Hapt", 2, b"Haps"));
}

#[test]
fn text_runs_to_the_zero_byte() {
    let data = b"one\0two\0\0rest";
    let mut at = 0;
    assert_eq!(extract_nul_terminated(data, false, &mut at).unwrap(), b"one");
    assert_eq!(at, 4);
    assert_eq!(extract_nul_terminated(data, false, &mut at).unwrap(), b"two");
    assert_eq!(extract_nul_terminated(data, false, &mut at).unwrap(), b"");
    assert_eq!(at, 9);
    let err = extract_nul_terminated(data, false, &mut at).unwrap_err();
    assert!(err.incomplete);
    assert_eq!(err.message(), "Text is not closed by a zero byte");
    assert_eq!(at, 9);
    let err = extract_nul_terminated(data, true, &mut at).unwrap_err();
    assert!(!err.incomplete);
    at = 13;
    assert!(extract_nul_terminated(data, true, &mut at).is_err());
}

fn agilent(raw: u32, len: usize) -> Vec<u8> {
    let mut data = vec![0x55u8; len];
    data[264..268].copy_from_slice(&raw.to_be_bytes());
    data
}

#[test]
fn agilent_header_of_length_zero_is_refused() {
    let err = read_agilent_header(&agilent(0, 268), false).unwrap_err();
    assert_eq!(err.message(), "Invalid header length of 0");
    assert!(!err.incomplete);
    let err = read_agilent_header(&agilent(0, 5000), true).unwrap_err();
    assert_eq!(err.message(), "Invalid header length of 0");
}

#[test]
fn agilent_header_size_counts_words_and_blocks() {
    assert_eq!(read_agilent_header(&agilent(2, 600), false).unwrap(), 512);
    assert_eq!(read_agilent_header(&agilent(3, 1024), false).unwrap(), 1024);
    assert_eq!(read_agilent_header(&agilent(257, 600), true).unwrap(), 512);
    assert_eq!(read_agilent_header(&agilent(10_001, 20_000), true).unwrap(), 20_000);
    assert_eq!(read_agilent_header(&agilent(40, 25_000), false).unwrap(), 19_968);
}

#[test]
fn agilent_header_faults_have_their_messages() {
    let err = read_agilent_header(&agilent(2, 268)[..267], false).unwrap_err();
    assert_eq!(err.message(), "Agilent header too short");
    assert!(err.incomplete);
    let err = read_agilent_header(&agilent(1, 600), false).unwrap_err();
    assert_eq!(err.message(), "Header length too short");
    let err = read_agilent_header(&agilent(256, 600), true).unwrap_err();
    assert_eq!(err.message(), "Header length too short");
    let err = read_agilent_header(&agilent(41, 600), false).unwrap_err();
    assert_eq!(err.message(), "Header length too long");
    let err = read_agilent_header(&agilent(10_002, 600), true).unwrap_err();
    assert_eq!(err.message(), "Header length too long");
    let err = read_agilent_header(&agilent(u32::MAX, 600), false).unwrap_err();
    assert_eq!(err.message(), "Header length too long");
    let err = read_agilent_header(&agilent(2, 511), false).unwrap_err();
    assert!(err.incomplete);
    assert_eq!(err.message(), "Not enough bytes left to decode a value");
}

#[test]
fn tabs_are_replaced_and_text_without_tabs_is_borrowed() {
    assert!(matches!(replace_tabs(b"no tabs", b'|'), Cow::Borrowed(_)));
    assert_eq!(&replace_tabs(b"no tabs", b'|')[..], b"no tabs");
    let out = replace_tabs(b"\ta\t\tb\t", b'|');
    assert!(matches!(out, Cow::Owned(_)));
    assert_eq!(&out[..], b"|a||b|");
    assert_eq!(&replace_tabs(b"", b'|')[..], b"");
}
