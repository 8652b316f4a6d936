use easyshare::proto::{decode_message, FileComplete};
use easyshare::wire::{
    decode_key, decode_varint, encode_bytes_field, encode_key, encode_varint, encode_varint_field,
    i32_to_wire, wire_to_i32, wire_to_u32, DecodeError, WireType,
};

fn prost_varint(v: u64) -> Vec<u8> {
    let mut out: Vec<u8> = Vec::new();
    prost::encoding::encode_varint(v, &mut out);
    out
}

const SAMPLES: [u64; 12] = [
    0,
    1,
    127,
    128,
    300,
    16_383,
    16_384,
    0xFFFF_FFFF,
    0x1_0000_0000,
    1 << 62,
    u64::MAX - 1,
    u64::MAX,
];

#[test]
fn varint_encoding_matches_prost() {
    for v in SAMPLES {
        let mut out = Vec::new();
        encode_varint(v, &mut out);
        assert_eq!(out, prost_varint(v), "value {v}");
    }
}

#[test]
fn varint_known_bytes() {
    let mut out = Vec::new();
    encode_varint(300, &mut out);
    assert_eq!(out, vec![0xAC, 0x02]);
    let mut out = Vec::new();
    encode_varint(u64::MAX, &mut out);
    assert_eq!(out, vec![0xFF, 0xFF, 0xFF, 0xFF, 0xFF, 0xFF, 0xFF, 0xFF, 0xFF, 0x01]);
}

#[test]
fn varint_decoding_roundtrip_and_matches_prost() {
    for v in SAMPLES {
        let mut bytes = vec![0x55u8];
        bytes.extend(prost_varint(v));
        bytes.push(0x77);
        let (x, n) = decode_varint(&bytes, 1).unwrap();
        assert_eq!(x, v);
        assert_eq!(n, prost_varint(v).len());
        let mut slice: &[u8] = &bytes[1..];
        assert_eq!(prost::encoding::decode_varint(&mut slice).unwrap(), x);
    }
}

#[test]
fn varint_truncated_is_refused() {
    assert_eq!(decode_varint(&[0x80, 0x80], 0), Err(DecodeError::InvalidVarint));
    assert_eq!(decode_varint(&[], 0), Err(DecodeError::InvalidVarint));
    let mut slice: &[u8] = &[0x80, 0x80];
    assert!(prost::encoding::decode_varint(&mut slice).is_err());
}

#[test]
fn varint_overflowing_64_bits_is_refused() {
    let bytes = [0xFF, 0xFF, 0xFF, 0xFF, 0xFF, 0xFF, 0xFF, 0xFF, 0xFF, 0x02];
    assert_eq!(decode_varint(&bytes, 0), Err(DecodeError::InvalidVarint));
    let mut slice: &[u8] = &bytes;
    assert!(prost::encoding::decode_varint(&mut slice).is_err());
    let eleven = [0x80, 0x80, 0x80, 0x80, 0x80, 0x80, 0x80, 0x80, 0x80, 0x80, 0x00];
    assert_eq!(decode_varint(&eleven, 0), Err(DecodeError::InvalidVarint));
}

#[test]
fn keys_roundtrip() {
    let kinds = [
        WireType::Varint,
        WireType::SixtyFourBit,
        WireType::LengthDelimited,
        WireType::StartGroup,
        WireType::EndGroup,
        WireType::ThirtyTwoBit,
    ];
    for tag in [1u32, 2, 15, 16, 2047, (1 << 29) - 1] {
        for w in kinds {
            let mut out = Vec::new();
            encode_key(tag, w, &mut out);
            assert_eq!(decode_key(&out, 0), Ok((tag, w, out.len())));
        }
    }
}

#[test]
fn key_errors() {
    assert_eq!(decode_key(&[0x00], 0), Err(DecodeError::InvalidTag));
    assert_eq!(decode_key(&[0x0E], 0), Err(DecodeError::InvalidWireType));
    assert_eq!(decode_key(&[0x0F], 0), Err(DecodeError::InvalidWireType));
    let big = prost_varint(1u64 << 35);
    assert_eq!(decode_key(&big, 0), Err(DecodeError::InvalidKey));
}

#[test]
fn scalar_fields_match_prost() {
    for v in [0u32, 1, 150, u32::MAX] {
        let mut ours = Vec::new();
        encode_varint_field(4, v as u64, &mut ours);
        let mut theirs = Vec::new();
        if v != 0 {
            prost::encoding::uint32::encode(4, &v, &mut theirs);
        }
        assert_eq!(ours, theirs);
    }
    for v in [0i32, 1, -1, i32::MIN, i32::MAX] {
        let mut ours = Vec::new();
        encode_varint_field(2, i32_to_wire(v), &mut ours);
        let mut theirs = Vec::new();
        if v != 0 {
            prost::encoding::int32::encode(2, &v, &mut theirs);
        }
        assert_eq!(ours, theirs);
    }
}

#[test]
fn bytes_field_matches_prost() {
    for data in [vec![], vec![1u8, 2, 3], vec![0xAB; 300]] {
        let mut ours = Vec::new();
        encode_bytes_field(3, &data, &mut ours);
        let mut theirs = Vec::new();
        if !data.is_empty() {
            prost::encoding::bytes::encode(3, &data, &mut theirs);
        }
        assert_eq!(ours, theirs);
    }
}

#[test]
fn negative_int32_is_sign_extended() {
    assert_eq!(i32_to_wire(-1), u64::MAX);
    assert_eq!(wire_to_i32(u64::MAX), -1);
    assert_eq!(wire_to_i32(i32_to_wire(i32::MIN)), i32::MIN);
    assert_eq!(wire_to_u32(0x1_0000_0005), 5);
}

fn nested_groups(depth: usize) -> Vec<u8> {
    let mut bytes = vec![0x2B; depth];
    bytes.extend(vec![0x2C; depth]);
    bytes
}

fn prost_accepts_unknown(bytes: &[u8]) -> bool {
    let mut buf: &[u8] = bytes;
    while !buf.is_empty() {
        let (tag, wire_type) = match prost::encoding::decode_key(&mut buf) {
            Ok(k) => k,
            Err(_) => return false,
        };
        let ctx = prost::encoding::DecodeContext::default();
        if prost::encoding::skip_field(wire_type, tag, &mut buf, ctx).is_err() {
            return false;
        }
    }
    true
}

#[test]
fn unknown_groups_are_skipped_up_to_the_recursion_limit() {
    for depth in [1usize, 2, 50, 98, 99, 100, 101, 102, 150] {
        let bytes = nested_groups(depth);
        let ours = decode_message::<FileComplete>(&bytes);
        assert_eq!(ours.is_ok(), prost_accepts_unknown(&bytes), "depth {depth}");
    }
    assert_eq!(
        decode_message::<FileComplete>(&nested_groups(150)).unwrap_err(),
        DecodeError::RecursionLimit
    );
}

#[test]
fn unmatched_end_group_is_refused() {
    assert_eq!(decode_message::<FileComplete>(&[0x2C]).unwrap_err(), DecodeError::UnexpectedEndGroup);
    // A group closed by the end of another field number.
    assert_eq!(decode_message::<FileComplete>(&[0x2B, 0x34]).unwrap_err(), DecodeError::UnexpectedEndGroup);
    assert!(!prost_accepts_unknown(&[0x2B, 0x34]));
}

#[test]
fn unknown_fields_of_every_wire_type_are_skipped() {
    // field 9 varint, field 10 fixed64, field 11 bytes, field 12 fixed32
    let mut bytes = vec![0x48, 0x96, 0x01];
    bytes.push(0x51);
    bytes.extend([1, 2, 3, 4, 5, 6, 7, 8]);
    bytes.extend([0x5A, 0x02, 0xAA, 0xBB]);
    bytes.push(0x65);
    bytes.extend([9, 9, 9, 9]);
    // field 1 = 7
    bytes.extend([0x08, 0x07]);
    let done = decode_message::<FileComplete>(&bytes).unwrap();
    assert_eq!(done.transfer_id, 7);
    assert!(!done.success);
}

#[test]
fn truncated_fixed_width_fields_underflow() {
    assert_eq!(decode_message::<FileComplete>(&[0x51, 1, 2, 3]).unwrap_err(), DecodeError::BufferUnderflow);
    assert_eq!(decode_message::<FileComplete>(&[0x65, 1, 2]).unwrap_err(), DecodeError::BufferUnderflow);
    assert_eq!(decode_message::<FileComplete>(&[0x5A, 0x05, 1]).unwrap_err(), DecodeError::BufferUnderflow);
}
