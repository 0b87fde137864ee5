use binarystream::binary::{BinaryError, Endian};
use binarystream::binary_stream::BinaryStream;

#[test]
fn new_stream_holds_buffer_and_offset() {
    let s = BinaryStream::new(vec![1, 2, 3], 1);
    assert_eq!(s.get_buffer(), &vec![1, 2, 3]);
    assert_eq!(s.get_offset(), 1);
}

#[test]
fn get_advances_offset_by_exactly_n() {
    let mut s = BinaryStream::new(vec![10, 20, 30, 40, 50], 0);
    assert_eq!(s.get(2), Ok(vec![10, 20]));
    assert_eq!(s.get_offset(), 2);
    assert_eq!(s.get(3), Ok(vec![30, 40, 50]));
    assert_eq!(s.get_offset(), 5);
}

#[test]
fn get_zero_bytes_succeeds() {
    let mut s = BinaryStream::new(Vec::new(), 0);
    assert_eq!(s.get(0), Ok(Vec::new()));
    assert_eq!(s.get_offset(), 0);
}

#[test]
fn get_underrun_leaves_stream_unmodified() {
    let mut s = BinaryStream::new(vec![1, 2, 3], 1);
    assert_eq!(s.get(3), Err(BinaryError::BufferUnderrun));
    assert_eq!(s.get_buffer(), &vec![1, 2, 3]);
    assert_eq!(s.get_offset(), 1);
}

#[test]
fn get_remaining_consumes_to_end() {
    let mut s = BinaryStream::new(vec![1, 2, 3, 4], 0);
    assert_eq!(s.get(1), Ok(vec![1]));
    assert_eq!(s.get_remaining(), Ok(vec![2, 3, 4]));
    assert_eq!(s.get_offset(), 4);
    assert!(s.feof());
    // at the end, the remainder is empty but still a success
    assert_eq!(s.get_remaining(), Ok(Vec::new()));
}

#[test]
fn get_remaining_past_end_is_underrun() {
    let mut s = BinaryStream::new(vec![1, 2], 5);
    assert_eq!(s.get_remaining(), Err(BinaryError::BufferUnderrun));
    assert_eq!(s.get_offset(), 5);
}

#[test]
fn put_appends_without_moving_offset() {
    let mut s = BinaryStream::new(vec![1], 1);
    s.put(vec![2, 3]);
    assert_eq!(s.get_buffer(), &vec![1, 2, 3]);
    assert_eq!(s.get_offset(), 1);
}

#[test]
fn rewind_and_reset() {
    let mut s = BinaryStream::new(vec![1, 2], 2);
    s.rewind();
    assert_eq!(s.get_offset(), 0);
    assert_eq!(s.get_buffer(), &vec![1, 2]);
    s.set_offset(1);
    s.reset();
    assert_eq!(s.get_offset(), 0);
    assert_eq!(s.get_buffer(), &Vec::new());
}

#[test]
fn set_buffer_replaces_wholesale() {
    let mut s = BinaryStream::new(vec![1, 2], 2);
    s.set_buffer(vec![9, 8, 7], 1);
    assert_eq!(s.get_buffer(), &vec![9, 8, 7]);
    assert_eq!(s.get_offset(), 1);
}

#[test]
fn feof_reports_end_of_data() {
    let mut s = BinaryStream::new(vec![5], 0);
    assert!(!s.feof());
    assert_eq!(s.get_byte(), Ok(5));
    assert!(s.feof());
    s.set_offset(9);
    assert!(s.feof());
}

#[test]
fn bool_and_byte_round_trip() {
    let mut w = BinaryStream::new(Vec::new(), 0);
    w.put_bool(true);
    w.put_bool(false);
    w.put_byte(0xAB);
    let mut r = BinaryStream::new(w.get_buffer().clone(), 0);
    assert_eq!(r.get_bool(), Ok(true));
    assert_eq!(r.get_bool(), Ok(false));
    assert_eq!(r.get_byte(), Ok(0xAB));
}

#[test]
fn get_bool_reads_any_nonzero_as_true() {
    let mut s = BinaryStream::new(vec![0, 1, 7], 0);
    assert_eq!(s.get_bool(), Ok(false));
    assert_eq!(s.get_bool(), Ok(true));
    assert_eq!(s.get_bool(), Ok(true));
}

#[test]
fn typed_accessors_round_trip_mixed_endianness() {
    let mut w = BinaryStream::new(Vec::new(), 0);
    w.put_short(-123, Endian::Big);
    w.put_unsigned_short(300, Endian::Little);
    w.put_unsigned_triad(0x123456, Endian::Big);
    w.put_int(-7, Endian::Little);
    w.put_unsigned_int(0xDEADBEEF, Endian::Big);
    w.put_long(i64::MIN, Endian::Little);
    w.put_unsigned_long(u64::MAX, Endian::Big);
    let mut r = BinaryStream::new(w.get_buffer().clone(), 0);
    assert_eq!(r.get_short(Endian::Big), Ok(-123));
    assert_eq!(r.get_unsigned_short(Endian::Little), Ok(300));
    assert_eq!(r.get_unsigned_triad(Endian::Big), Ok(0x123456));
    assert_eq!(r.get_int(Endian::Little), Ok(-7));
    assert_eq!(r.get_unsigned_int(Endian::Big), Ok(0xDEADBEEF));
    assert_eq!(r.get_long(Endian::Little), Ok(i64::MIN));
    assert_eq!(r.get_unsigned_long(Endian::Big), Ok(u64::MAX));
    assert!(r.feof());
}

#[test]
fn var_accessors_round_trip() {
    let mut w = BinaryStream::new(Vec::new(), 0);
    w.put_unsigned_var_int(u32::MAX);
    w.put_var_int(i32::MIN);
    w.put_unsigned_var_long(u64::MAX);
    w.put_var_long(i64::MAX);
    let mut r = BinaryStream::new(w.get_buffer().clone(), 0);
    assert_eq!(r.get_unsigned_var_int(), Ok(u32::MAX));
    assert_eq!(r.get_var_int(), Ok(i32::MIN));
    assert_eq!(r.get_unsigned_var_long(), Ok(u64::MAX));
    assert_eq!(r.get_var_long(), Ok(i64::MAX));
    assert!(r.feof());
}

#[test]
fn typed_getter_underrun_leaves_stream_unmodified() {
    let mut s = BinaryStream::new(vec![1], 0);
    assert_eq!(s.get_unsigned_short(Endian::Big), Err(BinaryError::BufferUnderrun));
    assert_eq!(s.get_int(Endian::Big), Err(BinaryError::BufferUnderrun));
    assert_eq!(s.get_long(Endian::Little), Err(BinaryError::BufferUnderrun));
    assert_eq!(s.get_unsigned_triad(Endian::Little), Err(BinaryError::BufferUnderrun));
    assert_eq!(s.get_buffer(), &vec![1]);
    assert_eq!(s.get_offset(), 0);
}

#[test]
fn var_getter_malformed_leaves_offset_unmoved() {
    let mut s = BinaryStream::new(vec![0x80; 6], 0);
    assert_eq!(s.get_unsigned_var_int(), Err(BinaryError::MalformedVarInt));
    assert_eq!(s.get_offset(), 0);
    let mut l = BinaryStream::new(vec![0x80; 11], 0);
    assert_eq!(l.get_unsigned_var_long(), Err(BinaryError::MalformedVarInt));
    assert_eq!(l.get_offset(), 0);
}

#[test]
fn var_getter_underrun_on_truncated_input() {
    let mut s = BinaryStream::new(vec![0xAC], 0);
    assert_eq!(s.get_unsigned_var_int(), Err(BinaryError::BufferUnderrun));
    assert_eq!(s.get_offset(), 0);
}

#[test]
fn write_then_read_scenario() {
    let mut w = BinaryStream::new(Vec::new(), 0);
    w.put_bool(true);
    w.put_unsigned_short(300, Endian::Big);
    w.put_var_int(-5);
    assert_eq!(w.get_offset(), 0);
    let mut r = BinaryStream::new(w.get_buffer().clone(), 0);
    assert_eq!(r.get_bool(), Ok(true));
    assert_eq!(r.get_unsigned_short(Endian::Big), Ok(300));
    assert_eq!(r.get_var_int(), Ok(-5));
    assert!(r.feof());
}

#[test]
fn offset_never_exceeds_length_on_success() {
    let mut s = BinaryStream::new(vec![0; 10], 0);
    while !s.feof() {
        let before = s.get_offset();
        assert!(s.get(3).is_ok() || s.get(1).is_ok());
        assert!(s.get_offset() > before);
        assert!(s.get_offset() <= s.get_buffer().len());
    }
}
