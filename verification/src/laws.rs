//! The laws of the wire format.
//!
//! Decoding inverts encoding for every shape and value; encoding is a pure
//! function of the value, so it is deterministic; and a shape with no
//! dynamic parts always occupies its fixed byte width.

use vstd::prelude::*;
use vstd::utf8::encode_scalar;
use vstd::utf8::encode_utf8;

use crate::de::spec_decode;
use crate::de::spec_decode_elems;
use crate::de::spec_decode_fields;
use crate::error::Error;
use crate::le::lemma_le_u16_roundtrip;
use crate::le::lemma_le_u32_roundtrip;
use crate::le::lemma_le_u64_roundtrip;
use crate::text::lemma_encode_utf8_single;
use crate::text::lemma_first_scalar_extend;
use crate::value::encodable;
use crate::value::matches_shape;
use crate::value::wire;
use crate::value::wire_seq;
use crate::value::Shape;
use crate::value::ValueModel;

verus! {

/// Round trip: a buffer that carries the wire bytes of an encodable value
/// at `pos` decodes, under the value's shape, to exactly that value, and
/// the bytes consumed are exactly the bytes written.  Together with the
/// contracts of `serialize` and `deserialize` this says
/// `deserialize(serialize(v)) == v`.
pub proof fn lemma_round_trip(m: ValueModel, s: Shape, b: Seq<u8>, pos: int)
    requires
        matches_shape(m, s),
        encodable(m),
        0 <= pos,
        pos + wire(m).len() <= b.len(),
        b.subrange(pos, pos + wire(m).len()) == wire(m),
    ensures
        spec_decode(s, b, pos) == Ok::<(ValueModel, int), Error>((m, pos + wire(m).len())),
    decreases m, 0int, 0int,
{
    let w = wire(m);
    assert(forall|k: int| 0 <= k < w.len() ==> b[pos + k] == #[trigger] w[k]) by {
        assert(forall|k: int|
            0 <= k < w.len() ==> b.subrange(pos, pos + wire(m).len())[k] == #[trigger] w[k]);
    }
    match m {
        ValueModel::Unit => {},
        ValueModel::Bool(x) => {
            assert(b[pos + 0] == w[0]);
        },
        ValueModel::U8(x) => {
            assert(b[pos + 0] == w[0]);
        },
        ValueModel::U16(x) => {
            assert(b[pos + 0] == w[0]);
            assert(b[pos + 1] == w[1]);
            lemma_le_u16_roundtrip(x);
        },
        ValueModel::U32(x) => {
            assert(b[pos + 0] == w[0]);
            assert(b[pos + 1] == w[1]);
            assert(b[pos + 2] == w[2]);
            assert(b[pos + 3] == w[3]);
            lemma_le_u32_roundtrip(x);
        },
        ValueModel::U64(x) => {
            assert(b[pos + 0] == w[0]);
            assert(b[pos + 1] == w[1]);
            assert(b[pos + 2] == w[2]);
            assert(b[pos + 3] == w[3]);
            assert(b[pos + 4] == w[4]);
            assert(b[pos + 5] == w[5]);
            assert(b[pos + 6] == w[6]);
            assert(b[pos + 7] == w[7]);
            lemma_le_u64_roundtrip(x);
        },
        ValueModel::I8(x) => {
            assert(b[pos + 0] == w[0]);
            assert((x as u8) as i8 == x) by (bit_vector);
        },
        ValueModel::I16(x) => {
            assert(b[pos + 0] == w[0]);
            assert(b[pos + 1] == w[1]);
            lemma_le_u16_roundtrip(x as u16);
            assert((x as u16) as i16 == x) by (bit_vector);
        },
        ValueModel::I32(x) => {
            assert(b[pos + 0] == w[0]);
            assert(b[pos + 1] == w[1]);
            assert(b[pos + 2] == w[2]);
            assert(b[pos + 3] == w[3]);
            lemma_le_u32_roundtrip(x as u32);
            assert((x as u32) as i32 == x) by (bit_vector);
        },
        ValueModel::I64(x) => {
            assert(b[pos + 0] == w[0]);
            assert(b[pos + 1] == w[1]);
            assert(b[pos + 2] == w[2]);
            assert(b[pos + 3] == w[3]);
            assert(b[pos + 4] == w[4]);
            assert(b[pos + 5] == w[5]);
            assert(b[pos + 6] == w[6]);
            assert(b[pos + 7] == w[7]);
            lemma_le_u64_roundtrip(x as u64);
            assert((x as u64) as i64 == x) by (bit_vector);
        },
        ValueModel::Char(c) => {
            vstd::utf8::char_is_scalar(c);
            lemma_encode_utf8_single(c);
            vstd::utf8::encode_utf8_first_scalar(seq![c]);
            let sc = encode_scalar(c as u32);
            let rem = b.skip(pos);
            lemma_first_scalar_extend(sc, b.skip(pos + sc.len()));
            assert(rem =~= sc + b.skip(pos + sc.len()));
            vstd::utf8::char_u32_cast(c, vstd::utf8::decode_first_scalar(rem));
        },
        ValueModel::Text(cs) => {
            let bytes = encode_utf8(cs);
            assert(b[pos + 0] == w[0]);
            assert(b[pos + 1] == w[1]);
            assert(b[pos + 2] == w[2]);
            assert(b[pos + 3] == w[3]);
            assert(b[pos + 4] == w[4]);
            assert(b[pos + 5] == w[5]);
            assert(b[pos + 6] == w[6]);
            assert(b[pos + 7] == w[7]);
            lemma_le_u64_roundtrip(bytes.len() as u64);
            assert forall|k: int| 0 <= k < bytes.len() implies b.subrange(
                pos + 8,
                pos + 8 + bytes.len(),
            )[k] == bytes[k] by {
                assert(b[pos + (8 + k)] == w[8 + k]);
            }
            assert(b.subrange(pos + 8, pos + 8 + bytes.len()) =~= bytes);
            vstd::utf8::encode_utf8_valid_utf8(cs);
            vstd::utf8::encode_utf8_decode_utf8(cs);
        },
        ValueModel::Bytes(bs) => {
            assert(b[pos + 0] == w[0]);
            assert(b[pos + 1] == w[1]);
            assert(b[pos + 2] == w[2]);
            assert(b[pos + 3] == w[3]);
            assert(b[pos + 4] == w[4]);
            assert(b[pos + 5] == w[5]);
            assert(b[pos + 6] == w[6]);
            assert(b[pos + 7] == w[7]);
            lemma_le_u64_roundtrip(bs.len() as u64);
            assert forall|k: int| 0 <= k < bs.len() implies b.subrange(pos + 8, pos + 8 + bs.len())[k]
                == bs[k] by {
                assert(b[pos + (8 + k)] == w[8 + k]);
            }
            assert(b.subrange(pos + 8, pos + 8 + bs.len()) =~= bs);
        },
        ValueModel::Maybe(o) => match o {
            None => {
                assert(b[pos + 0] == w[0]);
            },
            Some(bx) => {
                let inner = wire(*bx);
                assert(b[pos + 0] == w[0]);
                assert forall|k: int| 0 <= k < inner.len() implies b.subrange(
                    pos + 1,
                    pos + 1 + inner.len(),
                )[k] == inner[k] by {
                    assert(b[pos + (1 + k)] == w[1 + k]);
                }
                assert(b.subrange(pos + 1, pos + 1 + inner.len()) =~= inner);
                lemma_round_trip(*bx, *s->Maybe_0, b, pos + 1);
            },
        },
        ValueModel::Tuple(ms) => {
            assert(b.subrange(pos, pos + wire_seq(ms).len()) =~= wire_seq(ms));
            lemma_round_trip_fields(ms, s->Tuple_0@, b, pos);
        },
        ValueModel::Sequence(ms) => {
            assert(b[pos + 0] == w[0]);
            assert(b[pos + 1] == w[1]);
            assert(b[pos + 2] == w[2]);
            assert(b[pos + 3] == w[3]);
            assert(b[pos + 4] == w[4]);
            assert(b[pos + 5] == w[5]);
            assert(b[pos + 6] == w[6]);
            assert(b[pos + 7] == w[7]);
            lemma_le_u64_roundtrip(ms.len() as u64);
            assert forall|k: int| 0 <= k < wire_seq(ms).len() implies b.subrange(
                pos + 8,
                pos + 8 + wire_seq(ms).len(),
            )[k] == wire_seq(ms)[k] by {
                assert(b[pos + (8 + k)] == w[8 + k]);
            }
            assert(b.subrange(pos + 8, pos + 8 + wire_seq(ms).len()) =~= wire_seq(ms));
            lemma_round_trip_elems(ms, *s->Sequence_0, b, pos + 8);
        },
        ValueModel::Variant(ord, payload) => {
            let inner = wire(*payload);
            assert(b[pos + 0] == w[0]);
            assert(b[pos] == (ord as u8));
            assert(b[pos] as int == ord as int);
            assert forall|k: int| 0 <= k < inner.len() implies b.subrange(
                pos + 1,
                pos + 1 + inner.len(),
            )[k] == inner[k] by {
                assert(b[pos + (1 + k)] == w[1 + k]);
            }
            assert(b.subrange(pos + 1, pos + 1 + inner.len()) =~= inner);
            lemma_round_trip(*payload, s->Enum_0@[ord as int], b, pos + 1);
        },
    }
}

/// Round trip for a row of fields, one shape each.
proof fn lemma_round_trip_fields(ms: Seq<ValueModel>, ss: Seq<Shape>, b: Seq<u8>, pos: int)
    requires
        ms.len() == ss.len(),
        forall|i: int| 0 <= i < ms.len() ==> matches_shape(#[trigger] ms[i], ss[i]),
        forall|i: int| 0 <= i < ms.len() ==> encodable(#[trigger] ms[i]),
        0 <= pos,
        pos + wire_seq(ms).len() <= b.len(),
        b.subrange(pos, pos + wire_seq(ms).len()) == wire_seq(ms),
    ensures
        spec_decode_fields(ss, b, pos) == Ok::<(Seq<ValueModel>, int), Error>(
            (ms, pos + wire_seq(ms).len()),
        ),
    decreases ms, 0int, 0int,
{
    if ms.len() == 0 {
        assert(ms =~= Seq::<ValueModel>::empty());
    } else {
        let w0 = wire(ms[0]);
        let rest = wire_seq(ms.drop_first());
        assert(wire_seq(ms) == w0 + rest);
        assert(forall|k: int|
            0 <= k < wire_seq(ms).len() ==> b[pos + k] == #[trigger] wire_seq(ms)[k]) by {
            assert(forall|k: int|
                0 <= k < wire_seq(ms).len() ==> b.subrange(pos, pos + wire_seq(ms).len())[k]
                    == #[trigger] wire_seq(ms)[k]);
        }
        assert(b.subrange(pos, pos + w0.len()) =~= w0);
        lemma_round_trip(ms[0], ss[0], b, pos);
        assert forall|k: int| 0 <= k < rest.len() implies b.subrange(
            pos + w0.len(),
            pos + w0.len() + rest.len(),
        )[k] == rest[k] by {
            assert(b[pos + (w0.len() + k)] == wire_seq(ms)[w0.len() + k]);
        }
        assert(b.subrange(pos + w0.len(), pos + w0.len() + rest.len()) =~= rest);
        assert(forall|i: int|
            0 <= i < ms.drop_first().len() ==> #[trigger] ms.drop_first()[i] == ms[i + 1]);
        lemma_round_trip_fields(ms.drop_first(), ss.drop_first(), b, pos + w0.len());
        assert(seq![ms[0]] + ms.drop_first() =~= ms);
    }
}

/// Round trip for a run of sequence elements of one shape.
proof fn lemma_round_trip_elems(ms: Seq<ValueModel>, es: Shape, b: Seq<u8>, pos: int)
    requires
        forall|i: int| 0 <= i < ms.len() ==> matches_shape(#[trigger] ms[i], es),
        forall|i: int| 0 <= i < ms.len() ==> encodable(#[trigger] ms[i]),
        0 <= pos,
        pos + wire_seq(ms).len() <= b.len(),
        b.subrange(pos, pos + wire_seq(ms).len()) == wire_seq(ms),
    ensures
        spec_decode_elems(es, ms.len() as int, b, pos) == Ok::<(Seq<ValueModel>, int), Error>(
            (ms, pos + wire_seq(ms).len()),
        ),
    decreases ms, 0int, 0int,
{
    if ms.len() == 0 {
        assert(ms =~= Seq::<ValueModel>::empty());
    } else {
        let w0 = wire(ms[0]);
        let rest = wire_seq(ms.drop_first());
        assert(wire_seq(ms) == w0 + rest);
        assert(forall|k: int|
            0 <= k < wire_seq(ms).len() ==> b[pos + k] == #[trigger] wire_seq(ms)[k]) by {
            assert(forall|k: int|
                0 <= k < wire_seq(ms).len() ==> b.subrange(pos, pos + wire_seq(ms).len())[k]
                    == #[trigger] wire_seq(ms)[k]);
        }
        assert(b.subrange(pos, pos + w0.len()) =~= w0);
        lemma_round_trip(ms[0], es, b, pos);
        assert forall|k: int| 0 <= k < rest.len() implies b.subrange(
            pos + w0.len(),
            pos + w0.len() + rest.len(),
        )[k] == rest[k] by {
            assert(b[pos + (w0.len() + k)] == wire_seq(ms)[w0.len() + k]);
        }
        assert(b.subrange(pos + w0.len(), pos + w0.len() + rest.len()) =~= rest);
        assert(forall|i: int|
            0 <= i < ms.drop_first().len() ==> #[trigger] ms.drop_first()[i] == ms[i + 1]);
        lemma_round_trip_elems(ms.drop_first(), es, b, pos + w0.len());
        assert(seq![ms[0]] + ms.drop_first() =~= ms);
    }
}

/// Determinism: the wire bytes of a value are a function of the value
/// alone, so two buffers that each carry an encoding of the same value
/// agree on those bytes.
pub proof fn lemma_encoding_deterministic(m: ValueModel, b1: Seq<u8>, b2: Seq<u8>)
    requires
        wire(m).len() <= b1.len(),
        wire(m).len() <= b2.len(),
        b1.subrange(0, wire(m).len() as int) == wire(m),
        b2.subrange(0, wire(m).len() as int) == wire(m),
    ensures
        b1.subrange(0, wire(m).len() as int) == b2.subrange(0, wire(m).len() as int),
{
}

/// How many bytes every value of the shape occupies, where that is fixed:
/// a shape with no dynamic parts (no string, byte string, character or
/// sequence, no option or enum whose cases differ in width) always encodes
/// to the same number of bytes.
pub open spec fn static_width(s: Shape) -> Option<nat>
    decreases s, 0int,
{
    match s {
        Shape::Unit => Some(0),
        Shape::Bool => Some(1),
        Shape::U8 => Some(1),
        Shape::U16 => Some(2),
        Shape::U32 => Some(4),
        Shape::U64 => Some(8),
        Shape::I8 => Some(1),
        Shape::I16 => Some(2),
        Shape::I32 => Some(4),
        Shape::I64 => Some(8),
        Shape::Char => None,
        Shape::Text => None,
        Shape::Bytes => None,
        Shape::Maybe(es) => match static_width(*es) {
            Some(w) => if w == 0 {
                Some(1)
            } else {
                None
            },
            None => None,
        },
        Shape::Tuple(ss) => static_width_fields(ss@),
        Shape::Sequence(_) => None,
        Shape::Enum(vs) => match static_width_variants(vs@) {
            Some(w) => Some((1 + w) as nat),
            None => None,
        },
    }
}

/// The summed fixed width of a row of field shapes, if every field has one.
pub open spec fn static_width_fields(ss: Seq<Shape>) -> Option<nat>
    decreases ss, 1int,
{
    if ss.len() == 0 {
        Some(0)
    } else {
        match (static_width(ss[0]), static_width_fields(ss.drop_first())) {
            (Some(a), Some(b)) => Some((a + b) as nat),
            _ => None,
        }
    }
}

/// The common fixed width of an enum's variant payloads, if they all have
/// the same one.
pub open spec fn static_width_variants(vs: Seq<Shape>) -> Option<nat>
    decreases vs, 1int,
{
    if vs.len() == 0 {
        None
    } else if vs.len() == 1 {
        static_width(vs[0])
    } else {
        match (static_width(vs[0]), static_width_variants(vs.drop_first())) {
            (Some(a), Some(b)) => if a == b {
                Some(a)
            } else {
                None
            },
            _ => None,
        }
    }
}

/// Every variant of an enum with a common fixed width has that width.
proof fn lemma_static_width_variants(vs: Seq<Shape>, i: int)
    requires
        static_width_variants(vs) is Some,
        0 <= i < vs.len(),
    ensures
        static_width(vs[i]) == static_width_variants(vs),
    decreases vs.len(),
{
    if vs.len() > 1 && i > 0 {
        lemma_static_width_variants(vs.drop_first(), i - 1);
        assert(vs.drop_first()[i - 1] == vs[i]);
    }
}

/// Static sizing: every value of a shape with a fixed width encodes to
/// exactly that many bytes.
pub proof fn lemma_static_sizing(m: ValueModel, s: Shape)
    requires
        matches_shape(m, s),
        static_width(s) is Some,
    ensures
        static_width(s) == Some(wire(m).len()),
    decreases m, 0int,
{
    match m {
        ValueModel::Maybe(o) => match o {
            None => {},
            Some(bx) => {
                lemma_static_sizing(*bx, *s->Maybe_0);
            },
        },
        ValueModel::Tuple(ms) => {
            lemma_static_sizing_fields(ms, s->Tuple_0@);
        },
        ValueModel::Variant(ord, payload) => {
            lemma_static_width_variants(s->Enum_0@, ord as int);
            lemma_static_sizing(*payload, s->Enum_0@[ord as int]);
        },
        _ => {},
    }
}

/// Static sizing for a row of fields.
proof fn lemma_static_sizing_fields(ms: Seq<ValueModel>, ss: Seq<Shape>)
    requires
        ms.len() == ss.len(),
        forall|i: int| 0 <= i < ms.len() ==> matches_shape(#[trigger] ms[i], ss[i]),
        static_width_fields(ss) is Some,
    ensures
        static_width_fields(ss) == Some(wire_seq(ms).len()),
    decreases ms, 1int,
{
    if ms.len() == 0 {
    } else {
        lemma_static_sizing(ms[0], ss[0]);
        assert(forall|i: int|
            0 <= i < ms.drop_first().len() ==> #[trigger] ms.drop_first()[i] == ms[i + 1]);
        lemma_static_sizing_fields(ms.drop_first(), ss.drop_first());
    }
}

} // verus!
