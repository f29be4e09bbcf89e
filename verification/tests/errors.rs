//! The error taxonomy: which failure comes on which input.

use ssmarshal::deserialize;
use ssmarshal::serialize;
use ssmarshal::Deserializer;
use ssmarshal::Error;
use ssmarshal::SeqReader;
use ssmarshal::Serializer;
use ssmarshal::Shape;
use ssmarshal::Value;

#[test]
fn short_buffer_is_end_of_stream() {
    // One byte short of the 5 the shape needs fails; exactly 5 succeeds.
    let v = Value::Tuple(vec![Value::U8(5), Value::U32(300)]);
    let mut short = vec![0u8; 4];
    assert!(matches!(serialize(&mut short, &v), Err(Error::EndOfStream)));
    let mut exact = vec![0u8; 5];
    assert_eq!(serialize(&mut exact, &v).unwrap(), 5);
}

#[test]
fn empty_buffer_read_is_end_of_stream() {
    let b: Vec<u8> = vec![];
    assert!(matches!(deserialize(&b, &Shape::U8), Err(Error::EndOfStream)));
}

#[test]
fn truncated_read_is_end_of_stream() {
    let b = vec![1u8, 2, 3];
    assert!(matches!(deserialize(&b, &Shape::U32), Err(Error::EndOfStream)));
}

#[test]
fn string_longer_than_buffer_is_end_of_stream() {
    // A declared byte count past the end of the buffer.
    let b = vec![200u8, 0, 0, 0, 0, 0, 0, 0, b'x'];
    assert!(matches!(deserialize(&b, &Shape::Text), Err(Error::EndOfStream)));
}

#[test]
fn ordinal_256_is_too_many_variants() {
    let v = Value::Variant(256, Box::new(Value::Unit));
    let mut b = vec![0u8; 64];
    assert!(matches!(serialize(&mut b, &v), Err(Error::TooManyVariants)));
}

#[test]
fn ordinal_255_is_accepted() {
    let v = Value::Variant(255, Box::new(Value::Unit));
    let mut b = vec![0u8; 4];
    assert_eq!(serialize(&mut b, &v).unwrap(), 1);
    assert_eq!(b[0], 255);
}

#[test]
fn bool_byte_two_is_invalid_representation() {
    let b = vec![2u8];
    assert!(matches!(deserialize(&b, &Shape::Bool), Err(Error::InvalidRepresentation)));
}

#[test]
fn option_tag_two_is_invalid_representation() {
    let b = vec![2u8, 0];
    let shape = Shape::Maybe(Box::new(Shape::U8));
    assert!(matches!(deserialize(&b, &shape), Err(Error::InvalidRepresentation)));
}

#[test]
fn unknown_ordinal_is_invalid_representation() {
    let b = vec![3u8, 0];
    let shape = Shape::Enum(vec![Shape::Unit, Shape::U8]);
    assert!(matches!(deserialize(&b, &shape), Err(Error::InvalidRepresentation)));
}

#[test]
fn invalid_utf8_string_is_invalid_representation() {
    // A lone continuation byte can never start a character.
    let b = vec![1u8, 0, 0, 0, 0, 0, 0, 0, 0x80];
    assert!(matches!(deserialize(&b, &Shape::Text), Err(Error::InvalidRepresentation)));
}

#[test]
fn overlong_char_encoding_is_invalid_representation() {
    // 0xC0 0x80 is an overlong encoding of NUL.
    let b = vec![0xC0u8, 0x80];
    assert!(matches!(deserialize(&b, &Shape::Char), Err(Error::InvalidRepresentation)));
}

#[test]
fn surrogate_char_encoding_is_invalid_representation() {
    // 0xED 0xA0 0x80 encodes the surrogate 0xD800.
    let b = vec![0xEDu8, 0xA0, 0x80];
    assert!(matches!(deserialize(&b, &Shape::Char), Err(Error::InvalidRepresentation)));
}

#[test]
fn char_cut_off_by_buffer_end_is_invalid_representation() {
    let b = vec![0xC3u8];
    assert!(matches!(deserialize(&b, &Shape::Char), Err(Error::InvalidRepresentation)));
}

#[test]
fn char_split_across_string_end_is_invalid_representation() {
    // The declared byte count cuts a two-byte character in half.
    let b = vec![1u8, 0, 0, 0, 0, 0, 0, 0, 0xC3, 0xA9];
    assert!(matches!(deserialize(&b, &Shape::Text), Err(Error::InvalidRepresentation)));
}

#[test]
fn stopping_short_of_declared_count_is_more_elements() {
    // The stream declares two elements; the caller draws one and ends.
    let b = vec![2u8, 0, 0, 0, 0, 0, 0, 0, 7, 8];
    let mut d = Deserializer::new();
    let count = d.read_u64(&b).unwrap();
    assert_eq!(count, 2);
    let mut reader = SeqReader::new(count as usize);
    let first = reader.visit(&mut d, &b, &Shape::U8).unwrap();
    assert_eq!(first, Some(Value::U8(7)));
    assert!(matches!(reader.end(), Err(Error::MoreElements)));
}

#[test]
fn drawing_past_declared_count_yields_none() {
    let b = vec![1u8, 0, 0, 0, 0, 0, 0, 0, 7];
    let mut d = Deserializer::new();
    let count = d.read_u64(&b).unwrap();
    let mut reader = SeqReader::new(count as usize);
    assert_eq!(reader.visit(&mut d, &b, &Shape::U8).unwrap(), Some(Value::U8(7)));
    assert!(reader.end().is_ok());
    assert_eq!(reader.visit(&mut d, &b, &Shape::U8).unwrap(), None);
}

#[test]
fn failed_encode_keeps_buffer_length() {
    let mut b = vec![0u8; 3];
    let v = Value::Tuple(vec![Value::U8(1), Value::U32(2)]);
    let _ = serialize(&mut b, &v);
    assert_eq!(b.len(), 3);
}

#[test]
fn write_cursor_bounds_checks() {
    let s = Serializer::new();
    let b = vec![0u8; 4];
    assert!(s.check_bounds(&b, 4).is_ok());
    assert!(matches!(s.check_bounds(&b, 5), Err(Error::EndOfStream)));
}

#[test]
fn read_cursor_bounds_checks() {
    let d = Deserializer::new();
    let b = vec![0u8; 2];
    assert!(d.check_bounds(&b, 2).is_ok());
    assert!(matches!(d.check_bounds(&b, 3), Err(Error::EndOfStream)));
}

#[test]
fn raw_slice_and_word_writes() {
    let mut s = Serializer::new();
    let mut b = vec![0u8; 16];
    s.write_usize(&mut b, 5).unwrap();
    assert_eq!(&b[..8], &[5, 0, 0, 0, 0, 0, 0, 0]);
    s.write_slice(&mut b, &[9, 8, 7]).unwrap();
    assert_eq!(&b[8..11], &[9, 8, 7]);
    assert!(matches!(s.write_slice(&mut b, &[0; 6]), Err(Error::EndOfStream)));
}

#[test]
fn descriptions_name_the_failure() {
    assert_eq!(
        Error::EndOfStream.description(),
        "end of stream reached but more data was needed"
    );
    assert_eq!(Error::InvalidRepresentation.description(), "invalid representation for a value");
    assert_eq!(
        Error::MoreElements.description(),
        "there are more elements of the sequence remaining"
    );
    assert_eq!(
        Error::TooManyVariants.description(),
        "too many variants, only up to 256 are supported"
    );
    assert_eq!(Error::NotSupported.description(), "feature not supported");
    assert_eq!(Error::ApplicationError("no size known").description(), "no size known");
    assert_eq!(Error::Custom(String::from("boom")).description(), "boom");
}
