use varint::VarInt;
use varint::zigzag_decode;
use varint::zigzag_encode;

#[test]
fn encode_zero_u64() {
    assert_eq!(0u64.encode_var_vec(), vec![0x00]);
    assert_eq!(0u64.required_space(), 1);
}

#[test]
fn encode_127_u64() {
    assert_eq!(127u64.encode_var_vec(), vec![0x7F]);
    assert_eq!(127u64.required_space(), 1);
}

#[test]
fn encode_128_u64() {
    assert_eq!(128u64.encode_var_vec(), vec![0x80, 0x01]);
    assert_eq!(128u64.required_space(), 2);
}

#[test]
fn encode_300_u64() {
    assert_eq!(300u64.encode_var_vec(), vec![0xAC, 0x02]);
    assert_eq!(300u64.required_space(), 2);
}

#[test]
fn encoded_len_is_required_space() {
    for v in [0u64, 1, 127, 128, 16383, 16384, 2097151, 2097152, u64::MAX] {
        assert_eq!(v.encode_var_vec().len(), v.required_space());
    }
    assert_eq!(u64::MAX.required_space(), 10);
}

#[test]
fn round_trip_u64() {
    for v in [0u64, 1, 127, 128, 300, 16384, u32::MAX as u64, u64::MAX] {
        let e = v.encode_var_vec();
        assert_eq!(u64::decode_var(&e), Some((v, e.len())));
    }
}

#[test]
fn round_trip_narrow_unsigned() {
    for v in [0u8, 1, 127, 128, u8::MAX] {
        let e = v.encode_var_vec();
        assert_eq!(u8::decode_var(&e), Some((v, e.len())));
    }
    for v in [0u16, 300, u16::MAX] {
        let e = v.encode_var_vec();
        assert_eq!(u16::decode_var(&e), Some((v, e.len())));
    }
    for v in [0u32, 70000, u32::MAX] {
        let e = v.encode_var_vec();
        assert_eq!(u32::decode_var(&e), Some((v, e.len())));
    }
    for v in [0usize, 5000000, usize::MAX] {
        let e = v.encode_var_vec();
        assert_eq!(usize::decode_var(&e), Some((v, e.len())));
    }
}

#[test]
fn round_trip_signed() {
    for v in [0i8, 1, -1, i8::MIN, i8::MAX] {
        let e = v.encode_var_vec();
        assert_eq!(i8::decode_var(&e), Some((v, e.len())));
    }
    for v in [0i16, -300, i16::MIN, i16::MAX] {
        let e = v.encode_var_vec();
        assert_eq!(i16::decode_var(&e), Some((v, e.len())));
    }
    for v in [0i32, -70000, i32::MIN, i32::MAX] {
        let e = v.encode_var_vec();
        assert_eq!(i32::decode_var(&e), Some((v, e.len())));
    }
    for v in [0i64, -1, 1, i64::MIN, i64::MAX] {
        let e = v.encode_var_vec();
        assert_eq!(i64::decode_var(&e), Some((v, e.len())));
    }
    for v in [0isize, -5000000, isize::MIN, isize::MAX] {
        let e = v.encode_var_vec();
        assert_eq!(isize::decode_var(&e), Some((v, e.len())));
    }
}

#[test]
fn decode_300_as_u8_fails() {
    let e = 300u32.encode_var_vec();
    assert_eq!(u32::decode_var(&e), Some((300u32, 2)));
    assert_eq!(u64::decode_var(&e), Some((300u64, 2)));
    assert_eq!(u8::decode_var(&e), None);
}

#[test]
fn decode_overflow_narrow_widths() {
    let e = 256u16.encode_var_vec();
    assert_eq!(u8::decode_var(&e), None);
    assert_eq!(u8::decode_var(&255u16.encode_var_vec()), Some((255u8, 2)));

    let e = 65536u32.encode_var_vec();
    assert_eq!(u16::decode_var(&e), None);
    assert_eq!(u16::decode_var(&65535u32.encode_var_vec()), Some((65535u16, 3)));

    let e = (u32::MAX as u64 + 1).encode_var_vec();
    assert_eq!(u32::decode_var(&e), None);

    assert_eq!(i8::decode_var(&128i16.encode_var_vec()), None);
    assert_eq!(i8::decode_var(&(-129i16).encode_var_vec()), None);
    assert_eq!(i8::decode_var(&127i16.encode_var_vec()), Some((127i8, 2)));
    assert_eq!(i8::decode_var(&(-128i16).encode_var_vec()), Some((-128i8, 2)));

    assert_eq!(i16::decode_var(&32768i32.encode_var_vec()), None);
    assert_eq!(i16::decode_var(&(-32769i32).encode_var_vec()), None);

    assert_eq!(i32::decode_var(&(i32::MAX as i64 + 1).encode_var_vec()), None);
    assert_eq!(i32::decode_var(&(i32::MIN as i64 - 1).encode_var_vec()), None);
}

#[test]
fn overflow_boundary_u64() {
    let mut bad = vec![0xFFu8; 10];
    bad[9] = 0x02;
    assert_eq!(u64::decode_var(&bad), None);

    let mut good = vec![0xFFu8; 9];
    good.push(0x01);
    assert_eq!(u64::decode_var(&good), Some((u64::MAX, 10)));
}

#[test]
fn zigzag_byte_vectors() {
    assert_eq!((-1i64).encode_var_vec(), vec![0x01]);
    assert_eq!(1u64.encode_var_vec(), vec![0x01]);
    assert_eq!(0i64.encode_var_vec(), vec![0x00]);
    assert_eq!(1i64.encode_var_vec(), vec![0x02]);
}

#[test]
fn zigzag_values() {
    assert_eq!(zigzag_encode(0), 0);
    assert_eq!(zigzag_encode(-1), 1);
    assert_eq!(zigzag_encode(1), 2);
    assert_eq!(zigzag_encode(-2), 3);
    assert_eq!(zigzag_encode(2), 4);
    assert_eq!(zigzag_encode(i64::MAX), u64::MAX - 1);
    assert_eq!(zigzag_encode(i64::MIN), u64::MAX);
    for w in [0u64, 1, 2, 3, 4, 5, u64::MAX - 1, u64::MAX] {
        assert_eq!(zigzag_encode(zigzag_decode(w)), w);
    }
}

#[test]
fn i64_min_round_trip() {
    let e = i64::MIN.encode_var_vec();
    assert_eq!(e.len(), 10);
    assert_eq!(i64::decode_var(&e), Some((i64::MIN, 10)));
}

#[test]
fn truncated_input_fails() {
    assert_eq!(u64::decode_var(&[]), None);
    assert_eq!(u8::decode_var(&[]), None);
    assert_eq!(i64::decode_var(&[]), None);
    assert_eq!(u64::decode_var(&[0x80]), None);
    assert_eq!(u64::decode_var(&[0xFF, 0xFF, 0xFF]), None);
    assert_eq!(i32::decode_var(&[0x80, 0x80]), None);
}

#[test]
fn decode_stops_at_terminator() {
    assert_eq!(u64::decode_var(&[0x05, 0xFF, 0xFF]), Some((5u64, 1)));
    assert_eq!(u64::decode_var(&[0xAC, 0x02, 0x7F]), Some((300u64, 2)));
}

#[test]
fn encode_into_buffer_leaves_tail() {
    let mut buf = [0xEEu8; 8];
    let n = 300u64.encode_var(&mut buf[..]);
    assert_eq!(n, 2);
    assert_eq!(&buf[..2], &[0xAC, 0x02]);
    assert_eq!(&buf[2..], &[0xEE; 6]);
}

#[test]
fn consecutive_values_from_one_slice() {
    let mut bytes = Vec::new();
    bytes.extend_from_slice(&300u64.encode_var_vec());
    bytes.extend_from_slice(&1u64.encode_var_vec());
    bytes.extend_from_slice(&u64::MAX.encode_var_vec());
    let (a, n1) = u64::decode_var(&bytes).unwrap();
    let (b, n2) = u64::decode_var(&bytes[n1..]).unwrap();
    let (c, n3) = u64::decode_var(&bytes[n1 + n2..]).unwrap();
    assert_eq!((a, b, c), (300, 1, u64::MAX));
    assert_eq!(n1 + n2 + n3, bytes.len());
}
