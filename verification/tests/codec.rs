use binarystream::binary::{
    read_int, read_long, read_short, read_unsigned_int, read_unsigned_long, read_unsigned_short,
    read_unsigned_triad, read_unsigned_var_int, read_unsigned_var_long, read_var_int,
    read_var_long, write_int, write_long, write_short, write_unsigned_int, write_unsigned_long,
    write_unsigned_short, write_unsigned_triad, write_unsigned_var_int, write_unsigned_var_long,
    write_var_int, write_var_long, BinaryError, Endian,
};

#[test]
fn short_round_trip_both_orders() {
    for v in [0i16, 1, -1, 300, -300, i16::MIN, i16::MAX] {
        assert_eq!(read_short(write_short(v, Endian::Big), Endian::Big), v);
        assert_eq!(read_short(write_short(v, Endian::Little), Endian::Little), v);
    }
}

#[test]
fn unsigned_short_round_trip_both_orders() {
    for v in [0u16, 1, 300, 0x1234, u16::MAX] {
        assert_eq!(
            read_unsigned_short(write_unsigned_short(v, Endian::Big), Endian::Big),
            v
        );
        assert_eq!(
            read_unsigned_short(write_unsigned_short(v, Endian::Little), Endian::Little),
            v
        );
    }
}

#[test]
fn unsigned_short_exact_bytes() {
    assert_eq!(write_unsigned_short(300, Endian::Big), vec![0x01, 0x2C]);
    assert_eq!(write_unsigned_short(300, Endian::Little), vec![0x2C, 0x01]);
}

#[test]
fn short_exact_bytes_negative() {
    assert_eq!(write_short(-2, Endian::Big), vec![0xFF, 0xFE]);
    assert_eq!(write_short(-2, Endian::Little), vec![0xFE, 0xFF]);
}

#[test]
fn triad_round_trip_example() {
    // 0x123456 in Big order is its three bytes, most significant first
    assert_eq!(
        write_unsigned_triad(0x123456, Endian::Big),
        vec![0x12, 0x34, 0x56]
    );
    assert_eq!(
        read_unsigned_triad(vec![0x12, 0x34, 0x56], Endian::Big),
        0x123456
    );
    assert_eq!(
        write_unsigned_triad(0x123456, Endian::Little),
        vec![0x56, 0x34, 0x12]
    );
    assert_eq!(
        read_unsigned_triad(vec![0x56, 0x34, 0x12], Endian::Little),
        0x123456
    );
}

#[test]
fn triad_round_trip_both_orders() {
    for v in [0u32, 1, 0xFF_FFFF, 0x00_80_00, 0x12_34_56] {
        assert_eq!(
            read_unsigned_triad(write_unsigned_triad(v, Endian::Big), Endian::Big),
            v
        );
        assert_eq!(
            read_unsigned_triad(write_unsigned_triad(v, Endian::Little), Endian::Little),
            v
        );
    }
}

#[test]
fn int_round_trip_both_orders() {
    for v in [0i32, 1, -1, 0x12345678, -0x12345678, i32::MIN, i32::MAX] {
        assert_eq!(read_int(write_int(v, Endian::Big), Endian::Big), v);
        assert_eq!(read_int(write_int(v, Endian::Little), Endian::Little), v);
    }
}

#[test]
fn unsigned_int_round_trip_both_orders() {
    for v in [0u32, 1, 0xDEADBEEF, u32::MAX] {
        assert_eq!(
            read_unsigned_int(write_unsigned_int(v, Endian::Big), Endian::Big),
            v
        );
        assert_eq!(
            read_unsigned_int(write_unsigned_int(v, Endian::Little), Endian::Little),
            v
        );
    }
}

#[test]
fn unsigned_int_exact_bytes() {
    assert_eq!(
        write_unsigned_int(0xDEADBEEF, Endian::Big),
        vec![0xDE, 0xAD, 0xBE, 0xEF]
    );
    assert_eq!(
        write_unsigned_int(0xDEADBEEF, Endian::Little),
        vec![0xEF, 0xBE, 0xAD, 0xDE]
    );
}

#[test]
fn long_round_trip_both_orders() {
    for v in [0i64, 1, -1, 0x0102030405060708, i64::MIN, i64::MAX] {
        assert_eq!(read_long(write_long(v, Endian::Big), Endian::Big), v);
        assert_eq!(read_long(write_long(v, Endian::Little), Endian::Little), v);
    }
}

#[test]
fn unsigned_long_round_trip_both_orders() {
    for v in [0u64, 1, 0x0102030405060708, u64::MAX] {
        assert_eq!(
            read_unsigned_long(write_unsigned_long(v, Endian::Big), Endian::Big),
            v
        );
        assert_eq!(
            read_unsigned_long(write_unsigned_long(v, Endian::Little), Endian::Little),
            v
        );
    }
}

#[test]
fn long_exact_bytes() {
    assert_eq!(
        write_unsigned_long(0x0102030405060708, Endian::Big),
        vec![0x01, 0x02, 0x03, 0x04, 0x05, 0x06, 0x07, 0x08]
    );
    assert_eq!(
        write_unsigned_long(0x0102030405060708, Endian::Little),
        vec![0x08, 0x07, 0x06, 0x05, 0x04, 0x03, 0x02, 0x01]
    );
}

#[test]
fn mixed_endianness_is_per_call() {
    // the same bytes read in the two orders give byte-swapped values
    let bytes = write_unsigned_short(0x0102, Endian::Big);
    assert_eq!(read_unsigned_short(bytes.clone(), Endian::Big), 0x0102);
    assert_eq!(read_unsigned_short(bytes, Endian::Little), 0x0201);
}

#[test]
fn unsigned_var_int_exact_bytes() {
    assert_eq!(write_unsigned_var_int(0), vec![0x00]);
    assert_eq!(write_unsigned_var_int(1), vec![0x01]);
    assert_eq!(write_unsigned_var_int(127), vec![0x7F]);
    assert_eq!(write_unsigned_var_int(128), vec![0x80, 0x01]);
    assert_eq!(write_unsigned_var_int(300), vec![0xAC, 0x02]);
    assert_eq!(
        write_unsigned_var_int(u32::MAX),
        vec![0xFF, 0xFF, 0xFF, 0xFF, 0x0F]
    );
}

#[test]
fn unsigned_var_int_round_trip() {
    for v in [0u32, 1, 127, 128, 300, 16383, 16384, u32::MAX] {
        let buf = write_unsigned_var_int(v);
        let n = buf.len();
        let mut offset = 0usize;
        assert_eq!(read_unsigned_var_int(&buf, &mut offset), Ok(v));
        assert_eq!(offset, n);
    }
}

#[test]
fn var_int_zigzag_values() {
    // small magnitudes of either sign stay a single group
    assert_eq!(write_var_int(0), vec![0x00]);
    assert_eq!(write_var_int(-1), vec![0x01]);
    assert_eq!(write_var_int(1), vec![0x02]);
    assert_eq!(write_var_int(-5), vec![0x09]);
    assert_eq!(
        write_var_int(i32::MIN),
        vec![0xFF, 0xFF, 0xFF, 0xFF, 0x0F]
    );
}

#[test]
fn var_int_round_trip() {
    for v in [0i32, 1, -1, 5, -5, i32::MIN, i32::MAX] {
        let buf = write_var_int(v);
        let n = buf.len();
        let mut offset = 0usize;
        assert_eq!(read_var_int(&buf, &mut offset), Ok(v));
        assert_eq!(offset, n);
    }
}

#[test]
fn var_long_round_trip() {
    for v in [0i64, 1, -1, 5, -5, i64::MIN, i64::MAX] {
        let buf = write_var_long(v);
        let n = buf.len();
        let mut offset = 0usize;
        assert_eq!(read_var_long(&buf, &mut offset), Ok(v));
        assert_eq!(offset, n);
    }
}

#[test]
fn unsigned_var_long_round_trip() {
    for v in [0u64, 1, 127, 128, 0x1_0000_0000, u64::MAX] {
        let buf = write_unsigned_var_long(v);
        let n = buf.len();
        let mut offset = 0usize;
        assert_eq!(read_unsigned_var_long(&buf, &mut offset), Ok(v));
        assert_eq!(offset, n);
    }
}

#[test]
fn unsigned_var_long_max_exact_bytes() {
    assert_eq!(
        write_unsigned_var_long(u64::MAX),
        vec![0xFF, 0xFF, 0xFF, 0xFF, 0xFF, 0xFF, 0xFF, 0xFF, 0xFF, 0x01]
    );
}

#[test]
fn var_int_decode_then_reencode_is_identical() {
    let buf = vec![0xAC, 0x02, 0x55];
    let mut offset = 0usize;
    let v = read_unsigned_var_int(&buf, &mut offset).unwrap();
    assert_eq!(v, 300);
    assert_eq!(offset, 2);
    assert_eq!(write_unsigned_var_int(v), vec![0xAC, 0x02]);
}

#[test]
fn var_int_accepts_non_canonical_terminated_input() {
    // 300 padded with a zero continuation group: valid to decode, but the
    // canonical re-encoding is shorter
    let buf = vec![0xAC, 0x82, 0x00];
    let mut offset = 0usize;
    assert_eq!(read_unsigned_var_int(&buf, &mut offset), Ok(300));
    assert_eq!(offset, 3);
    assert_eq!(write_unsigned_var_int(300), vec![0xAC, 0x02]);
}

#[test]
fn var_int_high_bits_beyond_width_are_dropped() {
    // five full groups reach 35 bits; only the low 32 survive
    let buf = vec![0x80, 0x80, 0x80, 0x80, 0x7F];
    let mut offset = 0usize;
    assert_eq!(read_unsigned_var_int(&buf, &mut offset), Ok(0xF000_0000));
    assert_eq!(offset, 5);
}

#[test]
fn var_int_termination_bound() {
    // six continuation bytes: the fifth group already exhausts the budget
    let buf = vec![0x80; 6];
    let mut offset = 0usize;
    assert_eq!(
        read_unsigned_var_int(&buf, &mut offset),
        Err(BinaryError::MalformedVarInt)
    );
    assert_eq!(offset, 0);
}

#[test]
fn var_long_termination_bound() {
    let buf = vec![0x80; 11];
    let mut offset = 0usize;
    assert_eq!(
        read_unsigned_var_long(&buf, &mut offset),
        Err(BinaryError::MalformedVarInt)
    );
    assert_eq!(offset, 0);
}

#[test]
fn var_int_underrun_before_terminator() {
    // three continuation bytes and no terminator: the input ran out first
    let buf = vec![0x80, 0x80, 0x80];
    let mut offset = 0usize;
    assert_eq!(
        read_unsigned_var_int(&buf, &mut offset),
        Err(BinaryError::BufferUnderrun)
    );
    assert_eq!(offset, 0);
}

#[test]
fn var_long_underrun_before_terminator() {
    let buf = vec![0x80; 9];
    let mut offset = 0usize;
    assert_eq!(
        read_unsigned_var_long(&buf, &mut offset),
        Err(BinaryError::BufferUnderrun)
    );
    assert_eq!(offset, 0);
}

#[test]
fn var_int_empty_input_is_underrun() {
    let buf: Vec<u8> = Vec::new();
    let mut offset = 0usize;
    assert_eq!(
        read_var_int(&buf, &mut offset),
        Err(BinaryError::BufferUnderrun)
    );
    assert_eq!(offset, 0);
}
