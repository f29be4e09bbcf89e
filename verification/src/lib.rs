//! A fixed-layout binary serialization engine.
//!
//! Values are laid out flat in a caller-supplied byte buffer: little-endian
//! fixed-width integers, single-byte booleans and option/variant tags, UTF-8
//! characters, and 8-byte little-endian length prefixes for strings, byte
//! strings and dynamically sized sequences.  Fixed-size composites (tuples,
//! structs, arrays) are written field by field with no framing.  The format
//! is not self-describing: the decoder is driven by a [`Shape`] that must
//! match the shape the encoder was given.
//!
//! [`serialize`] encodes a [`Value`] into the front of a buffer and returns
//! the bytes written; [`deserialize`] reads one value of a given shape back
//! and returns the bytes consumed.  The normative byte layout is the spec
//! function [`wire`]; decoding is pinned down by [`spec_decode`]; and the
//! laws prove that the two agree: decoding inverts encoding on every
//! encodable value, byte for byte.

mod de;
mod error;
mod laws;
mod le;
mod ser;
mod text;
mod value;

pub use de::deserialize;
pub use de::spec_decode;
pub use de::spec_decode_elems;
pub use de::spec_decode_fields;
pub use de::Deserializer;
pub use de::SeqReader;
pub use error::Error;
pub use laws::lemma_encoding_deterministic;
pub use le::le_bytes_u16;
pub use le::le_bytes_u32;
pub use le::le_bytes_u64;
pub use le::u16_of_le;
pub use le::u32_of_le;
pub use le::u64_of_le;
pub use laws::lemma_round_trip;
pub use laws::lemma_static_sizing;
pub use laws::static_width;
pub use ser::serialize;
pub use ser::wrote;
pub use ser::Serializer;
pub use value::encodable;
pub use value::matches_shape;
pub use value::value_model;
pub use value::value_models;
pub use value::wire;
pub use value::wire_seq;
pub use value::Shape;
pub use value::Value;
pub use value::ValueModel;
