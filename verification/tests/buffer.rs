use entab::buffer::{ByteSource, NoSource, ReadBuffer, SliceSource, BUFFER_SIZE};

#[test]
fn from_slice_holds_everything_at_the_end_of_its_stream() {
    let rb = ReadBuffer::from_slice(b"abcdef");
    assert!(rb.eof());
    assert_eq!(rb.len(), 6);
    assert!(!rb.is_empty());
    assert_eq!(rb.as_slice(), b"abcdef");
    assert_eq!(rb.as_ref(), b"abcdef");
    assert_eq!((rb.reader_pos, rb.record_pos, rb.consumed), (0, 0, 0));
}

#[test]
fn consume_takes_exactly_the_bytes_asked_for() {
    let mut rb = ReadBuffer::from_slice(b"abcdef");
    assert_eq!(rb.consume(2), b"ab");
    assert_eq!(rb.as_slice(), b"cdef");
    assert_eq!((rb.consumed, rb.record_pos), (2, 1));
    assert_eq!(rb.consume(0), b"");
    assert_eq!((rb.consumed, rb.record_pos), (2, 2));
    assert_eq!(rb.consume(4), b"cdef");
    assert!(rb.is_empty());
    assert_eq!(rb.len(), 0);
    assert_eq!((rb.consumed, rb.record_pos), (6, 3));
}

#[test]
fn refill_at_the_end_changes_nothing() {
    let mut rb = ReadBuffer::from_slice(b"abcdef");
    rb.consume(1);
    rb.refill().unwrap();
    rb.refill().unwrap();
    assert!(rb.eof());
    assert_eq!(rb.as_slice(), b"bcdef");
    assert_eq!((rb.reader_pos, rb.consumed), (0, 1));
}

#[test]
fn reserve_fails_with_an_incomplete_error_at_the_end() {
    let mut rb = ReadBuffer::from_slice(b"abcdef");
    rb.reserve(6).unwrap();
    let err = rb.reserve(7).unwrap_err();
    assert!(err.incomplete);
    assert_eq!(err.message(), "Stream ended before the reserved bytes");
    assert_eq!(rb.as_slice(), b"abcdef");
}

#[test]
fn new_fills_once_and_refills_keep_the_position() {
    let data: Vec<u8> = (0..(2 * BUFFER_SIZE + 10)).map(|i| (i % 251) as u8).collect();
    let mut rb = ReadBuffer::new(SliceSource::new(&data[..])).unwrap();
    assert_eq!(rb.len(), BUFFER_SIZE);
    assert!(!rb.eof());
    assert_eq!(rb.consume(100), &data[..100]);
    rb.refill().unwrap();
    assert_eq!(rb.reader_pos, 100);
    assert_eq!(rb.consumed, 0);
    assert_eq!(rb.len(), 2 * BUFFER_SIZE - 100);
    assert_eq!(rb.as_slice(), &data[100..2 * BUFFER_SIZE]);
    rb.reserve(2 * BUFFER_SIZE - 90).unwrap();
    assert_eq!(rb.as_slice(), &data[100..]);
    assert!(!rb.eof());
    let err = rb.reserve(2 * BUFFER_SIZE).unwrap_err();
    assert!(err.incomplete);
    assert!(rb.eof());
    assert_eq!(rb.as_slice(), &data[100..]);
    assert_eq!(rb.reader_pos + rb.consumed as u64, 100);
    assert_eq!(rb.record_pos, 1);
}

#[test]
fn empty_source_is_at_its_end_after_the_first_fill() {
    let rb = ReadBuffer::new(SliceSource::new(&[][..])).unwrap();
    assert!(rb.eof());
    assert!(rb.is_empty());
    let rb = ReadBuffer::new(NoSource).unwrap();
    assert!(rb.eof());
}

#[test]
fn slice_source_hands_out_pieces_in_order() {
    let mut source = SliceSource::new(b"abcdefg");
    assert_eq!(source.take(3), b"abc".to_vec());
    assert_eq!(source.read(3).unwrap(), b"def".to_vec());
    assert_eq!(source.take(3), b"g".to_vec());
    assert_eq!(source.take(3), Vec::<u8>::new());
}

#[test]
fn absorb_joins_a_chunk_to_the_unread_bytes() {
    let mut rb = ReadBuffer::new(SliceSource::new(b"abcdef")).unwrap();
    assert!(!rb.eof());
    assert_eq!(rb.consume(2), b"ab");
    rb.absorb(b"ghi".to_vec()).unwrap();
    assert_eq!(rb.as_slice(), b"cdefghi");
    assert_eq!((rb.reader_pos, rb.consumed, rb.record_pos), (2, 0, 1));
    assert!(!rb.eof());
    rb.absorb(Vec::new()).unwrap();
    assert!(rb.eof());
    assert_eq!(rb.as_slice(), b"cdefghi");
    assert_eq!((rb.reader_pos, rb.consumed, rb.record_pos), (2, 0, 1));
}

#[test]
fn new_is_at_the_end_exactly_when_the_first_read_gave_nothing() {
    let rb = ReadBuffer::new(SliceSource::new(b"a")).unwrap();
    assert!(!rb.eof());
    assert_eq!(rb.as_ref(), b"a");
    assert_eq!((rb.reader_pos, rb.consumed, rb.record_pos), (0, 0, 0));
    let rb = ReadBuffer::new(SliceSource::new(b"")).unwrap();
    assert!(rb.eof());
    assert_eq!(rb.as_ref(), b"");
}
