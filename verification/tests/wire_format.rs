//! Byte-level checks of the wire layout and the round trip.

use ssmarshal::deserialize;
use ssmarshal::serialize;
use ssmarshal::Shape;
use ssmarshal::Value;

fn buf(n: usize) -> Vec<u8> {
    vec![0u8; n]
}

#[test]
fn unit_takes_no_bytes() {
    let mut b = buf(4);
    let n = serialize(&mut b, &Value::Unit).unwrap();
    assert_eq!(n, 0);
    let (v, used) = deserialize(&b, &Shape::Unit).unwrap();
    assert_eq!(v, Value::Unit);
    assert_eq!(used, 0);
}

#[test]
fn bool_is_one_byte() {
    let mut b = buf(4);
    let n = serialize(&mut b, &Value::Bool(true)).unwrap();
    assert_eq!(n, 1);
    assert_eq!(b[0], 1);
    let n = serialize(&mut b, &Value::Bool(false)).unwrap();
    assert_eq!(n, 1);
    assert_eq!(b[0], 0);
}

#[test]
fn u32_is_little_endian() {
    let mut b = buf(8);
    let n = serialize(&mut b, &Value::U32(0x1234_5678)).unwrap();
    assert_eq!(n, 4);
    assert_eq!(&b[..4], &[0x78, 0x56, 0x34, 0x12]);
}

#[test]
fn u64_round_trip() {
    let mut b = buf(16);
    let n = serialize(&mut b, &Value::U64(u64::MAX - 1)).unwrap();
    assert_eq!(n, 8);
    let (v, used) = deserialize(&b, &Shape::U64).unwrap();
    assert_eq!(v, Value::U64(u64::MAX - 1));
    assert_eq!(used, n);
}

#[test]
fn signed_reuses_unsigned_bit_pattern() {
    let mut b = buf(8);
    let n = serialize(&mut b, &Value::I16(-2)).unwrap();
    assert_eq!(n, 2);
    assert_eq!(&b[..2], &[0xFE, 0xFF]);
    let (v, used) = deserialize(&b, &Shape::I16).unwrap();
    assert_eq!(v, Value::I16(-2));
    assert_eq!(used, 2);
}

#[test]
fn i64_min_round_trip() {
    let mut b = buf(8);
    let n = serialize(&mut b, &Value::I64(i64::MIN)).unwrap();
    assert_eq!(n, 8);
    let (v, _) = deserialize(&b, &Shape::I64).unwrap();
    assert_eq!(v, Value::I64(i64::MIN));
}

#[test]
fn struct_is_fields_in_order() {
    // A struct { a: u8 = 5, b: u32 = 300 }: one byte then four, little-endian.
    let mut b = buf(16);
    let v = Value::Tuple(vec![Value::U8(5), Value::U32(300)]);
    let n = serialize(&mut b, &v).unwrap();
    assert_eq!(n, 5);
    assert_eq!(&b[..5], &[5, 44, 1, 0, 0]);
    let shape = Shape::Tuple(vec![Shape::U8, Shape::U32]);
    let (back, used) = deserialize(&b, &shape).unwrap();
    assert_eq!(back, v);
    assert_eq!(used, 5);
}

#[test]
fn enum_is_ordinal_byte_then_payload() {
    // Ordinal 2 carrying a u8 payload of 7.
    let mut b = buf(8);
    let v = Value::Variant(2, Box::new(Value::U8(7)));
    let n = serialize(&mut b, &v).unwrap();
    assert_eq!(n, 2);
    assert_eq!(&b[..2], &[2, 7]);
    let shape = Shape::Enum(vec![Shape::Unit, Shape::Bool, Shape::U8]);
    let (back, used) = deserialize(&b, &shape).unwrap();
    assert_eq!(back, v);
    assert_eq!(used, 2);
}

#[test]
fn sequence_has_count_prefix() {
    // Three u8 elements behind an 8-byte little-endian count.
    let mut b = buf(16);
    let v = Value::Sequence(vec![Value::U8(1), Value::U8(2), Value::U8(3)]);
    let n = serialize(&mut b, &v).unwrap();
    assert_eq!(n, 11);
    assert_eq!(&b[..11], &[3, 0, 0, 0, 0, 0, 0, 0, 1, 2, 3]);
    let shape = Shape::Sequence(Box::new(Shape::U8));
    let (back, used) = deserialize(&b, &shape).unwrap();
    assert_eq!(back, v);
    assert_eq!(used, 11);
}

#[test]
fn empty_sequence_is_count_alone() {
    let mut b = buf(16);
    let v = Value::Sequence(vec![]);
    let n = serialize(&mut b, &v).unwrap();
    assert_eq!(n, 8);
    assert_eq!(&b[..8], &[0; 8]);
    let (back, used) = deserialize(&b, &Shape::Sequence(Box::new(Shape::U64))).unwrap();
    assert_eq!(back, v);
    assert_eq!(used, 8);
}

#[test]
fn option_tag_then_payload() {
    let mut b = buf(8);
    let none = Value::Maybe(None);
    assert_eq!(serialize(&mut b, &none).unwrap(), 1);
    assert_eq!(b[0], 0);
    let shape = Shape::Maybe(Box::new(Shape::U16));
    let (back, _) = deserialize(&b, &shape).unwrap();
    assert_eq!(back, none);

    let some = Value::Maybe(Some(Box::new(Value::U16(0xABCD))));
    assert_eq!(serialize(&mut b, &some).unwrap(), 3);
    assert_eq!(&b[..3], &[1, 0xCD, 0xAB]);
    let (back, used) = deserialize(&b, &shape).unwrap();
    assert_eq!(back, some);
    assert_eq!(used, 3);
}

#[test]
fn char_is_plain_utf8() {
    let mut b = buf(8);
    assert_eq!(serialize(&mut b, &Value::Char('A')).unwrap(), 1);
    assert_eq!(b[0], 0x41);
    assert_eq!(serialize(&mut b, &Value::Char('\u{e9}')).unwrap(), 2);
    assert_eq!(&b[..2], &[0xC3, 0xA9]);
    let (back, used) = deserialize(&b, &Shape::Char).unwrap();
    assert_eq!(back, Value::Char('\u{e9}'));
    assert_eq!(used, 2);
    assert_eq!(serialize(&mut b, &Value::Char('\u{1F680}')).unwrap(), 4);
    let (back, used) = deserialize(&b, &Shape::Char).unwrap();
    assert_eq!(back, Value::Char('\u{1F680}'));
    assert_eq!(used, 4);
}

#[test]
fn string_is_byte_count_then_utf8() {
    let mut b = buf(32);
    let v = Value::Text(vec!['h', 'i', '\u{20AC}']);
    let n = serialize(&mut b, &v).unwrap();
    // 8-byte count of UTF-8 bytes (2 ASCII + 3 for the euro sign), then the bytes.
    assert_eq!(n, 13);
    assert_eq!(&b[..13], &[5, 0, 0, 0, 0, 0, 0, 0, b'h', b'i', 0xE2, 0x82, 0xAC]);
    let (back, used) = deserialize(&b, &Shape::Text).unwrap();
    assert_eq!(back, v);
    assert_eq!(used, 13);
}

#[test]
fn empty_string_is_count_alone() {
    let mut b = buf(16);
    let v = Value::Text(vec![]);
    assert_eq!(serialize(&mut b, &v).unwrap(), 8);
    let (back, used) = deserialize(&b, &Shape::Text).unwrap();
    assert_eq!(back, v);
    assert_eq!(used, 8);
}

#[test]
fn byte_string_round_trip() {
    let mut b = buf(32);
    let v = Value::Bytes(vec![0, 255, 7]);
    let n = serialize(&mut b, &v).unwrap();
    assert_eq!(n, 11);
    assert_eq!(&b[..11], &[3, 0, 0, 0, 0, 0, 0, 0, 0, 255, 7]);
    let (back, used) = deserialize(&b, &Shape::Bytes).unwrap();
    assert_eq!(back, v);
    assert_eq!(used, 11);
}

#[test]
fn nested_composite_round_trip() {
    let mut b = buf(64);
    let v = Value::Tuple(vec![
        Value::Variant(1, Box::new(Value::Tuple(vec![Value::I8(-1), Value::Bool(true)]))),
        Value::Sequence(vec![
            Value::Maybe(None),
            Value::Maybe(Some(Box::new(Value::U8(9)))),
        ]),
    ]);
    let shape = Shape::Tuple(vec![
        Shape::Enum(vec![Shape::Unit, Shape::Tuple(vec![Shape::I8, Shape::Bool])]),
        Shape::Sequence(Box::new(Shape::Maybe(Box::new(Shape::U8)))),
    ]);
    let n = serialize(&mut b, &v).unwrap();
    let (back, used) = deserialize(&b, &shape).unwrap();
    assert_eq!(back, v);
    assert_eq!(used, n);
}

#[test]
fn trailing_bytes_are_ignored() {
    let b = vec![7u8, 99, 99, 99];
    let (v, used) = deserialize(&b, &Shape::U8).unwrap();
    assert_eq!(v, Value::U8(7));
    assert_eq!(used, 1);
}

#[test]
fn encoding_is_deterministic() {
    let v = Value::Tuple(vec![
        Value::Text(vec!['o', 'k']),
        Value::U64(42),
        Value::Variant(0, Box::new(Value::Unit)),
    ]);
    let mut b1 = buf(64);
    let mut b2 = vec![0xFFu8; 64];
    let n1 = serialize(&mut b1, &v).unwrap();
    let n2 = serialize(&mut b2, &v).unwrap();
    assert_eq!(n1, n2);
    assert_eq!(&b1[..n1], &b2[..n2]);
}

#[test]
fn fixed_shapes_have_fixed_width() {
    // Two different values of one fixed shape occupy the same byte count.
    let shape_width = 1 + 4 + 8;
    for v in [
        Value::Tuple(vec![Value::U8(0), Value::I32(0), Value::U64(0)]),
        Value::Tuple(vec![Value::U8(255), Value::I32(i32::MIN), Value::U64(u64::MAX)]),
    ] {
        let mut b = buf(32);
        assert_eq!(serialize(&mut b, &v).unwrap(), shape_width);
    }
}

#[test]
fn bytes_beyond_the_encoding_stay_untouched() {
    let mut b = vec![0xAAu8; 8];
    let n = serialize(&mut b, &Value::U16(1)).unwrap();
    assert_eq!(n, 2);
    assert_eq!(&b[2..], &[0xAA; 6]);
}
