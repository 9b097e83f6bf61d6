use gaze::codec::bytes::{offset_from_id, u32_from_le, u32_to_le, u64_to_le};
use gaze::codec::number::{IntoI128, IntoU128, VarInt, VarIntReader, VarIntState};
use gaze::codec::numbers::{
    accumulate, varint_end_exec, VarIntDecoder, VarIntEncoder, ZigZagIntoSigned,
    ZigZagIntoUnsigned,
};

#[test]
fn zigzag_maps_signed_to_unsigned() {
    assert_eq!(0i64.zigzag(), 0u64);
    assert_eq!((-1i64).zigzag(), 1u64);
    assert_eq!(1i64.zigzag(), 2u64);
    assert_eq!((-2i64).zigzag(), 3u64);
    assert_eq!(i64::MIN.zigzag(), u64::MAX);
    assert_eq!((-1isize).zigzag(), 1usize);
}

#[test]
fn zigzag_maps_unsigned_back() {
    assert_eq!(0u64.zigzag(), 0i64);
    assert_eq!(1u64.zigzag(), -1i64);
    assert_eq!(2u64.zigzag(), 1i64);
    assert_eq!(u64::MAX.zigzag(), i64::MIN);
    assert_eq!(3usize.zigzag(), -2isize);
}

#[test]
fn zigzag_roundtrip_on_values() {
    for x in [0i64, 1, -1, 63, -64, 1 << 40, i64::MAX, i64::MIN] {
        let z: u64 = x.zigzag();
        let back: i64 = z.zigzag();
        assert_eq!(back, x);
    }
}

#[test]
fn varint_encoding_of_known_values() {
    assert_eq!(0u64.encode_as_varint(), vec![0x00]);
    assert_eq!(1u64.encode_as_varint(), vec![0x01]);
    assert_eq!(127u64.encode_as_varint(), vec![0x7f]);
    assert_eq!(128u64.encode_as_varint(), vec![0x80, 0x01]);
    assert_eq!(300u64.encode_as_varint(), vec![0xac, 0x02]);
    assert_eq!(300usize.encode_as_varint(), vec![0xac, 0x02]);
    assert_eq!(u64::MAX.encode_as_varint().len(), 10);
}

#[test]
fn varint_sizes() {
    assert_eq!(0u64.varint_size(), 1);
    assert_eq!(127u64.varint_size(), 1);
    assert_eq!(128u64.varint_size(), 2);
    assert_eq!(300usize.varint_size(), 2);
    assert_eq!(u64::MAX.varint_size(), 10);
}

#[test]
fn varint_decoding() {
    let bytes: &[u8] = &[0xac, 0x02, 0x55];
    assert_eq!(bytes.get_varint_size(), Ok(2));
    assert_eq!(bytes.read_varint(), Ok((150, 2)));
    assert_eq!(bytes.read_varint_with_size(2), Ok(150));
    let minus_one: &[u8] = &[0x01];
    assert_eq!(minus_one.read_varint_with_size(1), Ok(u64::MAX));
}

#[test]
fn varint_roundtrip_through_decoder() {
    for x in [0u64, 5, 127, 128, 300, 1 << 35] {
        let encoded = (2 * x).encode_as_varint();
        let slice: &[u8] = &encoded;
        assert_eq!(slice.read_varint(), Ok((x as usize, encoded.len())));
    }
}

#[test]
fn varint_helpers() {
    assert_eq!(accumulate(&[0xac, 0x02], 2), 300);
    assert_eq!(accumulate(&[0xac, 0x02], 1), 44);
    assert_eq!(varint_end_exec(&[0x80, 0x81, 0x01, 0x00]), 2);
    assert_eq!(varint_end_exec(&[0x80, 0x81]), 2);
}

#[test]
fn i128_zigzag() {
    assert_eq!((-1i128).zigzag_into_u128(), 1);
    assert_eq!(5i128.zigzag_into_u128(), 10);
    assert_eq!(1u128.zigzag_into_i128(), -1);
    assert_eq!(10u128.zigzag_into_i128(), 5);
}

#[test]
fn i128_varint_encode_and_decode() {
    assert_eq!(300i128.required_space(), 2);
    assert_eq!(0i128.required_space(), 1);
    assert_eq!(63i128.required_space(), 1);
    assert_eq!(64i128.required_space(), 2);
    assert_eq!((-1i128).required_space(), 1);
    assert_eq!((-65i128).required_space(), 2);
    let mut dst = [0xeeu8; 4];
    let written = 300i128.encode_var(&mut dst);
    assert_eq!(written, 2);
    assert_eq!(dst, [0xd8, 0x04, 0xee, 0xee]);
    assert_eq!(i128::decode_var(&dst), (300, 2));
    assert_eq!(300i128.encode_var_vec(), vec![0xd8, 0x04]);
    assert_eq!(64i128.encode_var_vec(), vec![0x80, 0x01]);
    assert_eq!((-1i128).encode_var_vec(), vec![0x01]);
    for x in [0i128, 1, -1, 64, -65, 300, i64::MAX as i128, i64::MIN as i128] {
        let v = x.encode_var_vec();
        assert_eq!(v.len(), x.required_space());
        assert_eq!(i128::decode_var(&v), (x, v.len()));
    }
    let mut small = [0u8; 1];
    assert_eq!((-1i128).encode_var(&mut small), 1);
    assert_eq!(small, [0x01]);
    assert_eq!(i128::decode_var(&small), (-1, 1));
}

#[test]
fn reading_a_varint_byte_by_byte() {
    let mut state = VarIntState::new();
    assert!(!state.take_byte(0xd8));
    assert!(state.take_byte(0x04));
    assert_eq!(state.read_varint_into_i128(), (300, 2));

    let mut state = VarIntState::new();
    assert!(state.take_byte(0x03));
    assert_eq!(state.read_varint_into_i128(), (-2, 1));
}

#[test]
fn reading_a_long_varint_keeps_128_bits() {
    let mut state = VarIntState::new();
    for _ in 0..18 {
        assert!(!state.take_byte(0xff));
    }
    assert!(state.take_byte(0x7f));
    let (value, count) = state.read_varint_into_i128();
    assert_eq!(count, 19);
    assert_eq!(value, (u128::MAX).zigzag_into_i128());
}

#[test]
fn little_endian_bytes() {
    assert_eq!(u32_from_le(&[1, 0, 0, 0]), 1);
    assert_eq!(u32_from_le(&[4, 3, 2, 1]), 0x0102_0304);
    assert_eq!(u32_to_le(0x0102_0304), vec![4, 3, 2, 1]);
    assert_eq!(u64_to_le(0x0102_0304_0506_0708), vec![8, 7, 6, 5, 4, 3, 2, 1]);
}

#[test]
fn offset_of_an_id() {
    assert_eq!(offset_from_id(&[1, 0, 0, 0, 0, 0]), 65536);
    assert_eq!(offset_from_id(&[0, 0, 0, 0, 0, 1]), 1u64 << 56);
    assert_ne!(offset_from_id(&[1, 2, 3, 4, 5, 6]), offset_from_id(&[6, 5, 4, 3, 2, 1]));
}

#[test]
fn decoding_consecutive_encodings() {
    let a = 64i128.encode_var_vec();
    let b = (-300i128).encode_var_vec();
    let mut src = a.clone();
    src.extend_from_slice(&b);
    src.push(0x7f);
    assert_eq!(i128::decode_var(&src), (64, a.len()));
    assert_eq!(i128::decode_var(&src[a.len()..]), (-300, b.len()));
}

#[test]
fn reading_signed_values_with_bytes_after() {
    for x in [0isize, 1, -1, 150, -151, isize::MAX, isize::MIN] {
        let e = x.zigzag().encode_as_varint();
        let mut s = e.clone();
        s.extend_from_slice(&[0x05, 0x81]);
        let slice: &[u8] = &s;
        assert_eq!(slice.read_varint(), Ok((x as usize, e.len())));
        assert_eq!(slice.get_varint_size(), Ok(e.len()));
    }
}
