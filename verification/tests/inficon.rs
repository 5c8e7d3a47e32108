use entab::buffer::{ReadBuffer, SliceSource};
use entab::error::EtError;
use entab::readers::inficon::{InficonReader, InficonRecord, InficonState};

#[test]
fn bad_inficon_fuzzes() -> Result<(), EtError> {
    let data = [
        4, 3, 2, 1, 83, 80, 65, 72, 66, 255, 255, 255, 255, 0, 0, 0, 0, 0, 0, 0, 0, 0, 0, 0, 0,
        0, 0, 0, 0, 0, 0, 0, 0, 0, 0, 0, 0, 0, 0, 0, 0, 0, 0, 0, 0, 246, 255, 255, 255, 0, 0,
        0, 0, 14, 14, 14, 14, 14, 14, 14, 255, 255, 255, 255, 255, 255, 255, 255, 255, 255,
        248, 10, 10, 10, 10, 35, 4, 0, 0, 0, 0, 0, 0, 10, 10, 10, 10, 10, 62, 10, 10, 26, 0, 0,
        0, 42, 42, 4, 0, 0, 0, 0, 0, 0, 10, 10, 10, 10, 10, 62, 10, 10, 10, 0, 0, 0, 0, 0, 0,
        0, 16, 42, 42, 42, 10, 62, 10, 10, 26, 0, 0, 0, 42, 42, 4, 0, 0, 0, 0, 0, 0, 10, 10,
        10, 10, 10, 62, 10, 10, 10, 0, 0, 0, 0, 0, 0, 0, 16, 42, 42, 42,
    ];
    assert!(InficonReader::new(ReadBuffer::from_slice(&data[..])).is_err());

    let data = [
        4, 3, 2, 1, 83, 80, 65, 72, 4, 1, 10, 255, 255, 255, 0, 3, 197, 65, 77, 1, 62, 1, 0, 0,
        255, 255, 255, 255, 255, 255, 62, 10, 10, 10, 10, 62, 10, 10, 10, 8, 10, 62, 10, 10,
        62, 10, 10, 10, 9, 10, 62, 10, 10, 62, 10, 10, 62, 26, 10, 10, 10, 45, 10, 59, 9, 0,
        255, 255, 255, 255, 0, 0, 0, 0, 0, 0, 0, 0, 0, 0, 0, 0, 0, 0, 0, 0, 0, 0, 0, 0, 0, 0,
        0, 0, 0, 0, 0, 0, 0, 0, 0, 0, 246, 255, 255, 255, 0, 0, 0, 0, 71, 71, 71, 71, 71, 38,
        200, 62, 10, 255, 255, 255, 255, 169, 77, 86, 139, 139, 116, 116, 116, 116, 116, 246,
        245, 245, 240, 255, 255, 241, 0, 0, 0, 0, 10, 10, 10, 10, 10, 10, 10, 10, 10, 10, 10,
        10, 10, 62, 10, 227, 205, 10, 10, 62, 10, 0, 62, 10, 10, 1, 0, 62, 10, 10, 34, 0, 0, 0,
        0, 0, 0, 0, 10, 10, 10, 10, 8, 10, 10, 10, 10, 10, 10, 10, 10, 10, 10, 10, 10, 10, 10,
        10, 10, 245, 10, 10, 10, 10, 240, 10, 62, 10, 10, 10, 42, 10, 0, 0, 0, 0, 0, 0, 0, 0,
        0, 0, 0, 168, 168, 168, 168, 168, 168, 168, 168, 168, 168, 168, 168, 168, 134, 134, 14,
        62, 10, 10, 62, 59, 42, 10, 10, 10, 62, 0, 13, 10, 10, 227, 10, 10, 62, 0, 13, 10, 10,
        227, 59, 10, 10, 0, 10, 10, 62, 41, 0, 13, 10, 10, 10, 227, 10, 10, 62, 0, 13, 10, 10,
        10, 62, 10, 10, 8, 10, 62, 10, 10, 10, 10, 10, 62, 10, 10, 10, 62, 10, 10, 10, 10, 62,
        10, 10, 10, 9, 10, 62, 10, 10, 255, 255, 255, 175, 255, 255, 255, 255, 255, 255, 255,
        255, 255, 255, 255, 255, 255, 255, 255, 255, 255, 255, 255, 255, 255, 255, 255, 255,
        255, 255, 255, 10, 10, 10, 9, 10, 62, 45, 10, 59, 9, 0,
    ];
    assert!(InficonReader::new(ReadBuffer::from_slice(&data[..])).is_err());

    let data = [
        4, 3, 2, 1, 83, 80, 65, 72, 66, 65, 77, 1, 62, 1, 230, 255, 255, 251, 254, 254, 254,
        254, 168, 168, 168, 168, 168, 168, 168, 168, 168, 168, 168, 0, 10, 62, 10, 59, 10, 10,
        10, 10, 10, 10, 10, 10, 10, 10, 0, 0, 0, 0, 1, 0, 0, 0, 0, 0, 0, 0, 0, 0, 0, 0, 0, 0,
        0, 0, 0, 0, 0, 0, 0, 0, 0, 0, 0, 0, 0, 0, 0, 0, 0, 0, 0, 0, 0, 0, 0, 0, 255, 255, 255,
        255, 0, 0, 0, 0, 0, 0, 0, 0, 0, 0, 0, 0, 0, 0, 0, 0, 0, 0, 0, 0, 0, 0, 0, 0, 0, 0, 0,
        0, 0, 0, 0, 0, 246, 255, 255, 255, 0, 0, 0, 0, 10, 10, 102, 13, 10, 35, 24, 10, 62, 13,
        10, 13, 227, 5, 62, 10, 227, 134, 134, 10, 62, 10, 10, 62, 42, 10, 10, 10, 62, 0, 13,
        10, 10, 227, 10, 10, 62, 0, 13, 10, 10, 227, 59, 10, 10, 250, 255, 10, 62, 41, 0, 13,
        10, 10, 227, 43, 10, 10, 10, 10, 10, 10, 47, 59, 10, 10, 62, 0, 13, 10, 10, 227, 10,
        10, 227, 59, 10, 10, 0, 10, 10, 10, 10, 26, 10, 10, 41, 0, 13, 10, 10, 227, 59, 10, 10,
        10, 10, 10, 14, 10, 255, 255, 255, 255, 176, 0, 0, 0, 0, 0, 0, 0, 0, 0, 0, 0, 0, 0, 0,
        0, 0, 0, 0, 0, 255, 255, 255, 255, 255, 255, 255, 255, 255, 255, 175, 255, 255, 255,
        255, 255, 255, 255, 255, 255, 255, 255, 255, 255, 255, 255, 255, 255, 255, 255, 255,
        255, 255, 255, 255, 245, 240, 255, 255, 255, 255, 255, 169, 77, 86, 139, 139, 116, 35,
        116, 116, 116, 246, 245, 245, 240, 250, 255, 10, 62, 41, 0, 13, 10, 10, 227, 43, 10,
        10, 10, 10, 10, 10, 47, 59, 10, 10, 4, 3, 2, 1, 83, 80, 181, 181, 181, 181, 0, 0, 0, 0,
        0, 0, 0, 0, 0, 0, 0, 0, 0, 0, 0, 0, 0, 0, 0, 0, 0, 0, 0, 0, 0, 0, 0, 255, 255, 255,
        255, 255, 255, 255, 58, 255, 255, 255, 255, 255, 255, 255, 255, 255, 255, 255, 255,
        255, 255, 255, 255, 255, 255, 255, 255, 255, 255, 255, 255, 255, 122, 255, 255, 255,
        255, 0, 0, 0, 0, 0, 0, 0, 0, 0, 0, 0, 0, 0, 0, 0, 0, 0, 0, 0, 0, 0, 0, 0, 0, 0, 0, 0,
        0, 0, 0, 0, 0, 246, 255, 255, 255, 0, 0, 0, 0, 59, 10, 10, 10, 10, 10, 14, 10, 255, 10,
        10, 10, 10, 0, 0, 0, 0, 0, 0, 0, 0, 0, 0, 0, 255, 255, 116, 116, 246, 245, 245, 240,
    ];
    assert!(InficonReader::new(ReadBuffer::from_slice(&data[..])).is_err());

    let data = [
        4, 3, 2, 1, 83, 80, 65, 72, 66, 168, 255, 255, 255, 255, 255, 255, 255, 255, 255, 255,
        255, 255, 255, 255, 255, 10, 26, 0, 0, 0, 0, 0, 0, 0, 255, 255, 255, 255, 0, 0, 0, 0,
        0, 0, 0, 0, 0, 0, 0, 0, 0, 0, 0, 0, 0, 0, 0, 0, 0, 0, 0, 0, 0, 0, 0, 0, 0, 0, 0, 0,
        246, 255, 255, 255, 0, 0, 0, 0, 10, 10, 102, 13, 10, 35, 24, 10, 62, 13, 10, 13, 227,
        5, 62, 10, 227, 134, 134, 10, 62, 10, 10, 62, 42, 10, 10, 10, 62, 0, 13, 10, 10, 227,
        10, 10, 62, 0, 13, 10, 10, 227, 59, 10, 10, 250, 255, 10, 62, 41, 0, 13, 10, 10, 227,
        43, 10, 10, 10, 10, 10, 10, 47, 59, 10, 10, 62, 0, 13, 10, 10, 227, 10, 10, 227, 59,
        10, 10, 0, 10, 10, 10, 10, 26, 10, 10, 41, 0, 13, 10, 10, 227, 59, 10, 10, 10, 10, 10,
        14, 10, 255, 10, 10, 10, 10, 0, 0, 0, 0, 0, 0, 0, 0, 0, 0, 0, 181, 181, 181, 181, 181,
        0, 0, 0, 0, 0, 0, 0, 83, 55, 159, 159, 0, 0, 10, 0, 0, 0, 0, 0, 0, 0, 0, 0, 0, 0, 0, 0,
        0, 0, 0, 0, 0, 0, 227, 43, 10, 10, 10, 10, 10, 10, 47, 59, 10, 10, 10, 10, 62, 42, 10,
        10, 10, 62, 0, 13, 10, 10, 227, 10, 10, 62, 0, 13, 10, 10, 227, 59, 10, 10, 250, 255,
        10, 62, 41, 0, 13, 10, 10, 227, 43, 10, 10, 10, 10, 0, 10, 10, 10, 10, 26, 10, 10, 41,
        0, 13, 10, 10, 227, 59, 10, 10, 10, 10, 10, 14, 10, 255, 10, 10, 10, 10, 0, 0, 0, 0, 0,
        0, 0, 0, 0, 0, 0, 245, 240, 255, 255, 255, 255, 255, 169, 77, 86, 139, 139, 116, 35,
        116, 116, 116, 246, 245, 245, 240, 10, 10, 10, 10, 14, 10, 0, 0, 0, 0, 0, 0, 0, 0, 0,
        0, 0, 245, 240, 255, 255, 255, 255, 255, 169, 77, 86, 139, 139, 116, 35, 116, 246, 245,
        245, 240,
    ];
    assert!(InficonReader::new(ReadBuffer::from_slice(&data[..])).is_err());

    Ok(())
}

#[test]
fn slow_inficon_fuzzes() -> Result<(), EtError> {
    let test_data = [
        4, 3, 2, 1, 83, 80, 65, 72, 66, 65, 77, 1, 255, 255, 255, 255, 255, 255, 255, 255, 255,
        255, 255, 255, 140, 130, 127, 2, 0, 0, 0, 0, 0, 0, 0, 0, 0, 0, 0, 0, 0, 0, 0, 0, 0, 0,
        0, 0, 0, 0, 0, 0, 0, 0, 0, 0, 0, 0, 0, 0, 0, 0, 0, 0, 0, 0, 0, 0, 0, 0, 0, 0, 0, 0, 0,
        0, 0, 0, 0, 0, 0, 0, 0, 0, 0, 0, 0, 0, 255, 255, 255, 255, 0, 0, 0, 0, 0, 0, 0, 0, 0,
        0, 0, 0, 0, 0, 0, 0, 0, 0, 0, 0, 0, 0, 0, 0, 0, 0, 0, 0, 0, 0, 0, 0, 246, 255, 255,
        255, 0, 0, 0, 0, 10, 10, 102, 13, 10, 35, 24, 10, 62, 13, 10, 13, 227, 5, 62, 10, 227,
        134, 134, 10, 62, 10, 10, 62, 42, 10, 10, 10, 62, 0, 13, 10, 10, 227, 10, 10, 62, 0,
        13, 10, 10, 227, 59, 10, 10, 250, 255, 10, 62, 41, 0, 13, 10, 10, 227, 43, 10, 10, 10,
        10, 10, 10, 47, 59, 10, 10, 62, 0, 13, 10, 10, 227, 10, 10, 227, 59, 10, 10, 0, 10, 10,
        10, 10, 26, 10, 10, 41, 0, 13, 10, 10, 227, 59, 10, 10, 10, 10, 10, 14, 10, 255, 10,
        10, 10, 10, 0, 0, 0, 0, 0, 0, 0, 0, 0, 0, 0, 181, 181, 181, 181, 181, 0, 0, 0, 0, 0, 0,
        0, 83, 51, 159, 159, 0, 0, 10, 0, 0, 0, 0, 0, 0, 0, 0, 0, 0, 0, 0, 0, 0, 0, 0, 0, 0,
        255, 255, 255, 255, 255, 255, 255, 255, 255, 255, 175, 255, 255, 255, 10, 10, 62, 0,
        13, 10, 10, 220, 227, 10, 10, 62, 0, 13, 10, 10, 227, 10, 10, 62, 10, 59, 10, 10, 10,
        10, 10, 10, 10, 10, 10, 10, 0, 0, 0, 0, 0, 0, 0, 0, 0, 0, 0, 0, 0, 0, 0, 0, 0, 0, 0, 0,
        0, 0, 0, 0, 0, 0, 0, 0, 0, 0, 0, 0, 0, 0, 0, 0, 0, 0, 0, 0, 0, 0, 0, 1, 0, 0, 0, 0, 0,
        15, 230, 0, 0, 0, 0, 0, 0, 0, 0, 0, 0, 0, 0, 0, 0, 0, 0, 0, 0, 0, 0, 0, 0, 0, 0, 0, 0,
        0, 0, 0, 0, 0, 0, 0, 0, 0, 0, 0, 0, 255, 255, 255, 255, 0, 0, 0, 0, 0, 0, 0, 0, 0, 0,
        0, 0, 0, 0, 0, 0, 0, 0, 0, 0, 0, 0, 0, 0, 0, 0, 0, 0, 0, 0, 0, 0, 10, 227, 59, 10, 10,
        250, 255, 10, 62, 41, 0, 13, 10, 10, 39, 212, 245, 245, 10, 10, 10, 10, 47, 59, 10, 10,
        4, 3, 2, 1, 83, 80, 65, 72, 66, 65, 77, 1, 62, 1, 0, 0, 0, 6, 2, 254, 254, 254, 168,
        168, 168, 168, 168, 168, 168, 168, 168, 168, 168, 168, 168, 168, 168, 168, 168, 168,
        168, 168, 168, 168, 168, 168, 168, 168, 168, 168, 168, 168, 168, 168, 168, 168, 168, 1,
        0, 0, 0, 0, 0, 3, 70, 168, 168, 168, 168, 168, 168, 168, 168, 168, 168, 168, 168, 168,
        240, 255, 255, 255, 255, 255, 169, 77, 86, 139, 139, 116, 35, 116, 116, 116, 246, 245,
        245, 237, 237, 237, 237, 237, 237, 237, 237, 237, 237, 237, 237, 237, 237, 237, 237,
        237, 237, 237, 237, 237, 237, 237, 237, 237, 237, 237, 237, 39, 237, 237, 237, 237,
        237, 237, 237, 237, 237, 237, 237, 237, 237, 237, 237, 237, 237, 237, 237, 237, 237,
        237, 237, 237, 237, 237, 237, 237, 237, 237, 237, 237, 237, 237, 237, 237, 237, 237,
        237, 237, 237, 237, 237, 237, 240,
    ];
    assert!(InficonReader::new(ReadBuffer::from_slice(&test_data[..])).is_err());
    Ok(())
}

const MZ_LIST_MARK: [u8; 44] = [
    0xFF, 0xFF, 0xFF, 0xFF, 0, 0, 0, 0, 0, 0, 0, 0, 0, 0, 0, 0, 0, 0, 0, 0, 0, 0, 0, 0, 0, 0, 0,
    0, 0, 0, 0, 0, 0, 0, 0, 0, 0xF6, 0xFF, 0xFF, 0xFF, 0, 0, 0, 0,
];

fn push_u32(out: &mut Vec<u8>, v: u32) {
    out.extend_from_slice(&v.to_le_bytes());
}

fn push_u16(out: &mut Vec<u8>, v: u16) {
    out.extend_from_slice(&v.to_le_bytes());
}

fn push_range(out: &mut Vec<u8>, start: u32, end: u32, i_type: u32) {
    push_u32(out, start);
    push_u32(out, end);
    out.extend_from_slice(&[7u8; 16]);
    push_u32(out, i_type);
    out.extend_from_slice(&[7u8; 4]);
}

fn push_burst_header(out: &mut Vec<u8>, time: i32, n_mzs: u16, segment: u16) {
    push_u32(out, 1);
    out.extend_from_slice(&time.to_le_bytes());
    push_u16(out, 1);
    push_u16(out, n_mzs);
    push_u16(out, 0xFFFF);
    push_u16(out, (segment << 4) | 0x0F);
}

/// A file with two segments: a single ion at 28.00, and a full scan from
/// 40.00 to 42.50. Its scan data hold one burst of each.
fn sample_file(data_length: u32) -> Vec<u8> {
    let mut out: Vec<u8> = vec![4, 3, 2, 1, 83, 80, 65, 72, 66];
    out.extend_from_slice(&MZ_LIST_MARK);
    out.extend_from_slice(&[9u8; 148]);
    push_u32(&mut out, 2);
    out.extend_from_slice(&[9u8; 96]);
    push_u32(&mut out, 1);
    push_range(&mut out, 2800, 2900, 0);
    out.extend_from_slice(&[9u8; 96]);
    push_u32(&mut out, 1);
    push_range(&mut out, 4000, 4250, 1);
    out.extend_from_slice(&[3u8; 5]);
    out.extend_from_slice(&[0xFF, 0xFF, 0xFF, 0xFF]);
    out.extend_from_slice(b"HapsGPIR");
    out.extend_from_slice(&[9u8; 180]);
    push_u32(&mut out, data_length);
    out.extend_from_slice(&[9u8; 8]);
    out.extend_from_slice(b"HapsScan");
    out.extend_from_slice(&[9u8; 56]);
    push_burst_header(&mut out, 60_000, 1, 0);
    push_u32(&mut out, 1.5f32.to_bits());
    push_burst_header(&mut out, -120_000, 3, 1);
    push_u32(&mut out, 2.0f32.to_bits());
    push_u32(&mut out, 3.0f32.to_bits());
    push_u32(&mut out, 4.0f32.to_bits());
    out
}

fn record(time: i32, mz: u32, intensity: f32) -> InficonRecord {
    InficonRecord { time, mz, intensity: intensity.to_bits() }
}

#[test]
fn sound_file_gives_every_reading() {
    let data = sample_file(48);
    let mut reader = InficonReader::new(ReadBuffer::from_slice(&data[..])).unwrap();
    assert_eq!(reader.headers(), vec!["time", "mz", "intensity"]);
    assert_eq!(reader.state.mz_segments, vec![vec![2800], vec![4000, 4100, 4200]]);
    assert_eq!(reader.state.data_left, 48);
    assert_eq!(reader.rb.consumed, data.len() - 48);
    assert_eq!(reader.rb.record_pos, 0);
    assert_eq!(reader.next().unwrap(), Some(record(60_000, 2800, 1.5)));
    assert_eq!(reader.state.data_left, 28);
    assert_eq!(reader.next().unwrap(), Some(record(-120_000, 4000, 2.0)));
    assert_eq!(reader.state.data_left, 8);
    assert_eq!(reader.state.mzs_left, 2);
    assert_eq!(reader.next().unwrap(), Some(record(-120_000, 4100, 3.0)));
    assert_eq!(reader.next().unwrap(), Some(record(-120_000, 4200, 4.0)));
    assert_eq!(reader.state.data_left, 0);
    assert_eq!(reader.rb.record_pos, 4);
    assert_eq!(reader.next().unwrap(), None);
    assert_eq!(reader.next().unwrap(), None);
    assert_eq!(reader.rb.consumed, data.len());
}

#[test]
fn declared_length_ends_the_records_early() {
    let data = sample_file(20);
    let mut reader = InficonReader::new(ReadBuffer::from_slice(&data[..])).unwrap();
    assert!(reader.next().unwrap().is_some());
    assert_eq!(reader.next().unwrap(), None);
}

#[test]
fn overrun_of_the_declared_length_leaves_nothing() {
    let data = sample_file(21);
    let mut reader = InficonReader::new(ReadBuffer::from_slice(&data[..])).unwrap();
    assert!(reader.next().unwrap().is_some());
    assert_eq!(reader.state.data_left, 1);
    assert!(reader.next().unwrap().is_some());
    assert_eq!(reader.state.data_left, 0);
    assert_eq!(reader.next().unwrap(), None);
}

#[test]
fn scan_data_cut_short_is_an_incomplete_error_with_context() {
    let mut data = sample_file(48);
    data.truncate(data.len() - 2);
    let mut reader = InficonReader::new(ReadBuffer::from_slice(&data[..])).unwrap();
    for _ in 0..3 {
        assert!(reader.next().unwrap().is_some());
    }
    let before = (reader.rb.consumed, reader.rb.record_pos, reader.state.mzs_left);
    let err = reader.next().unwrap_err();
    assert!(err.incomplete);
    assert_eq!(err.message(), "Not enough bytes left to decode a value");
    assert_eq!(err.context.unwrap().record, 3);
    assert_eq!(before, (reader.rb.consumed, reader.rb.record_pos, reader.state.mzs_left));
    assert!(reader.next().is_err());
}

#[test]
fn burst_of_an_unknown_segment_is_refused() {
    let mut data = sample_file(48);
    let at = data.len() - 48 + 14;
    data[at] = 0x2F;
    let mut reader = InficonReader::new(ReadBuffer::from_slice(&data[..])).unwrap();
    let err = reader.next().unwrap_err();
    assert_eq!(err.message(), "Invalid segment number (2) specified");
    assert!(!err.incomplete);
    assert_eq!(reader.next().unwrap_err().message(), "Invalid segment number (2) specified");
}

#[test]
fn burst_of_the_wrong_size_is_refused() {
    let mut data = sample_file(48);
    let at = data.len() - 48 + 10;
    data[at] = 12;
    let mut reader = InficonReader::new(ReadBuffer::from_slice(&data[..])).unwrap();
    let err = reader.next().unwrap_err();
    assert_eq!(err.message(), "Number of intensities (12) doesn't match number of mzs (1)");
}

#[test]
fn header_faults_have_their_messages() {
    let err = InficonReader::new(ReadBuffer::from_slice(&[1u8, 2, 3][..])).err().unwrap();
    assert_eq!(err.message(), "Could not find m/z header list");
    assert!(!err.incomplete);
    assert!(err.context.is_some());

    let mut data: Vec<u8> = Vec::new();
    data.extend_from_slice(&MZ_LIST_MARK);
    data.extend_from_slice(&[0u8; 148]);
    push_u32(&mut data, 10_001);
    let err = InficonReader::new(ReadBuffer::from_slice(&data[..])).err().unwrap();
    assert_eq!(err.message(), "Inficon file has too many segments");

    let mut data: Vec<u8> = Vec::new();
    data.extend_from_slice(&MZ_LIST_MARK);
    data.extend_from_slice(&[0u8; 148]);
    push_u32(&mut data, 1);
    data.extend_from_slice(&[0u8; 96]);
    push_u32(&mut data, 1);
    push_range(&mut data, 5, 5, 0);
    let err = InficonReader::new(ReadBuffer::from_slice(&data[..])).err().unwrap();
    assert_eq!(err.message(), "m/z range too big or invalid");

    let mut data: Vec<u8> = Vec::new();
    data.extend_from_slice(&MZ_LIST_MARK);
    data.extend_from_slice(&[0u8; 148]);
    push_u32(&mut data, 0);
    let err = InficonReader::new(ReadBuffer::from_slice(&data[..])).err().unwrap();
    assert_eq!(err.message(), "Could not find start of scan data");

    let mut data = sample_file(48);
    let at = data.len() - 48 - 56 - 1;
    data[at] = b'm';
    let err = InficonReader::new(ReadBuffer::from_slice(&data[..])).err().unwrap();
    assert_eq!(err.message(), "Data header was malformed");

    let mut data: Vec<u8> = Vec::new();
    data.extend_from_slice(&MZ_LIST_MARK);
    data.extend_from_slice(&[0u8; 100]);
    let err = InficonReader::new(ReadBuffer::from_slice(&data[..])).err().unwrap();
    assert_eq!(err.message(), "Not enough bytes left to decode a value");
    assert!(err.incomplete);
}

#[test]
fn method_section_is_read_across_refills() {
    let mut data = vec![0u8; 25_000];
    data.extend_from_slice(&sample_file(48));
    let rb = ReadBuffer::new(SliceSource::new(&data[..])).unwrap();
    let mut reader = InficonReader::new(rb).unwrap();
    assert_eq!(reader.state.mz_segments, vec![vec![2800], vec![4000, 4100, 4200]]);
    let mut n = 0;
    while let Some(_) = reader.next().unwrap() {
        n += 1;
    }
    assert_eq!(n, 4);
    assert_eq!(reader.rb.reader_pos + reader.rb.consumed as u64, data.len() as u64);
}

#[test]
fn state_parse_adds_to_the_cursor_and_get_copies_the_table() {
    let data = sample_file(48);
    let mut consumed = 0usize;
    let mut found: (Vec<Vec<u32>>, usize) = (Vec::new(), 0);
    assert!(InficonState::parse(&data[..], true, &mut consumed, &mut found).unwrap());
    assert_eq!(consumed, data.len() - 48);
    assert_eq!(found.1, 48);
    let mut state = InficonState::default();
    state.get(&data[..], &found).unwrap();
    assert_eq!(state.mz_segments, found.0);
    assert_eq!(state.data_left, 48);

    let mut record = InficonRecord::default();
    let mut used = 0usize;
    assert!(InficonRecord::parse(&data[consumed..], true, &mut used, &mut state).unwrap());
    assert_eq!(used, 20);
    record.get(&data[consumed..], &state).unwrap();
    assert_eq!(record, InficonRecord { time: 60_000, mz: 2800, intensity: 1.5f32.to_bits() });
    assert_eq!(record.size(), 3);
}

#[test]
fn every_reading_has_one_field_for_every_column() {
    let data = sample_file(48);
    let mut reader = InficonReader::new(ReadBuffer::from_slice(&data[..])).unwrap();
    let names = reader.headers();
    while let Some(record) = reader.next().unwrap() {
        assert_eq!(record.size(), names.len());
    }
    assert_eq!(reader.headers(), names);
}

#[test]
fn cursor_that_cannot_move_on_is_a_fault() {
    let data = sample_file(48);
    let mut consumed = usize::MAX - 3;
    let mut found: (Vec<Vec<u32>>, usize) = (Vec::new(), 7);
    let err = InficonState::parse(&data[..], true, &mut consumed, &mut found).unwrap_err();
    assert_eq!(err.message(), "Cursor is too far on to be moved");
    assert!(!err.incomplete);
    assert_eq!(consumed, usize::MAX - 3);
    assert_eq!(found, (Vec::new(), 7));

    let mut start = 0usize;
    InficonState::parse(&data[..], true, &mut start, &mut found).unwrap();
    let mut state = InficonState::default();
    state.get(&data[..], &found).unwrap();
    let err = InficonRecord::parse(&data[start..], true, &mut consumed, &mut state).unwrap_err();
    assert_eq!(err.message(), "Cursor is too far on to be moved");
    assert_eq!(consumed, usize::MAX - 3);
    assert_eq!(state.data_left, 48);
    assert_eq!(state.mzs_left, 0);
    let mut near = usize::MAX - 20;
    assert!(InficonRecord::parse(&data[start..], true, &mut near, &mut state).unwrap());
    assert_eq!(near, usize::MAX);
}
