//! The shapes and values the engine can lay out on the wire.
//!
//! A [`Value`] is a composite built depth-first from scalars, options,
//! strings, byte strings, fixed tuples, dynamic sequences and tagged enum
//! variants.  A [`Shape`] is the structural description a decoder must be
//! given, since the wire format is not self-describing.  [`ValueModel`] is
//! the mathematical view of a [`Value`], and [`wire`] gives the normative
//! byte layout of every value.

use vstd::prelude::*;
use vstd::utf8::encode_utf8;

use crate::le::le_bytes_u16;
use crate::le::le_bytes_u32;
use crate::le::le_bytes_u64;

verus! {

/// A value to encode, or the result of decoding.
///
/// Signed integers share the byte layout of the unsigned integer of the same
/// width, by bit-pattern reinterpretation.  A string is carried as its
/// characters; a byte string as raw bytes.  `Tuple` stands for every
/// fixed-size composite (tuple, array, struct): the elements follow each
/// other with no framing.  `Sequence` is a dynamically sized sequence with an
/// 8-byte length prefix.  `Variant` is one case of an enum: an ordinal and a
/// payload.
#[derive(Debug, PartialEq)]
pub enum Value {
    Unit,
    Bool(bool),
    U8(u8),
    U16(u16),
    U32(u32),
    U64(u64),
    I8(i8),
    I16(i16),
    I32(i32),
    I64(i64),
    Char(char),
    Text(Vec<char>),
    Bytes(Vec<u8>),
    Maybe(Option<Box<Value>>),
    Tuple(Vec<Value>),
    Sequence(Vec<Value>),
    Variant(usize, Box<Value>),
}

/// The structural description the decoder is driven by.
///
/// `Maybe` holds the payload shape of a present option; `Tuple` the shapes
/// of the fields in declared order; `Sequence` the homogeneous element
/// shape; `Enum` the payload shape of each variant, indexed by ordinal.
#[derive(Debug, PartialEq)]
pub enum Shape {
    Unit,
    Bool,
    U8,
    U16,
    U32,
    U64,
    I8,
    I16,
    I32,
    I64,
    Char,
    Text,
    Bytes,
    Maybe(Box<Shape>),
    Tuple(Vec<Shape>),
    Sequence(Box<Shape>),
    Enum(Vec<Shape>),
}

/// The mathematical view of a [`Value`]: the same tree with mathematical
/// sequences for the vector fields.
pub enum ValueModel {
    Unit,
    Bool(bool),
    U8(u8),
    U16(u16),
    U32(u32),
    U64(u64),
    I8(i8),
    I16(i16),
    I32(i32),
    I64(i64),
    Char(char),
    Text(Seq<char>),
    Bytes(Seq<u8>),
    Maybe(Option<Box<ValueModel>>),
    Tuple(Seq<ValueModel>),
    Sequence(Seq<ValueModel>),
    Variant(usize, Box<ValueModel>),
}

/// The mathematical view of a value: the same tree with `Seq` in place of
/// `Vec`.
pub open spec fn value_model(v: Value) -> ValueModel
    decreases v,
{
    match v {
        Value::Unit => ValueModel::Unit,
        Value::Bool(b) => ValueModel::Bool(b),
        Value::U8(x) => ValueModel::U8(x),
        Value::U16(x) => ValueModel::U16(x),
        Value::U32(x) => ValueModel::U32(x),
        Value::U64(x) => ValueModel::U64(x),
        Value::I8(x) => ValueModel::I8(x),
        Value::I16(x) => ValueModel::I16(x),
        Value::I32(x) => ValueModel::I32(x),
        Value::I64(x) => ValueModel::I64(x),
        Value::Char(c) => ValueModel::Char(c),
        Value::Text(cs) => ValueModel::Text(cs@),
        Value::Bytes(bs) => ValueModel::Bytes(bs@),
        Value::Maybe(o) => match o {
            None => ValueModel::Maybe(None),
            Some(b) => ValueModel::Maybe(Some(Box::new(value_model(*b)))),
        },
        Value::Tuple(vs) => ValueModel::Tuple(value_models(vs@)),
        Value::Sequence(vs) => ValueModel::Sequence(value_models(vs@)),
        Value::Variant(ord, payload) => ValueModel::Variant(ord, Box::new(value_model(*payload))),
    }
}

/// The mathematical views of a row of values, in order.
pub open spec fn value_models(vs: Seq<Value>) -> Seq<ValueModel>
    decreases vs,
{
    if vs.len() == 0 {
        Seq::empty()
    } else {
        seq![value_model(vs[0])] + value_models(vs.drop_first())
    }
}

/// A row of views is the view of each element of the row.
pub proof fn lemma_value_models(vs: Seq<Value>)
    ensures
        value_models(vs).len() == vs.len(),
        forall|i: int| 0 <= i < vs.len() ==> value_models(vs)[i] == value_model(#[trigger] vs[i]),
    decreases vs,
{
    if vs.len() > 0 {
        lemma_value_models(vs.drop_first());
        assert forall|i: int| 0 <= i < vs.len() implies value_models(vs)[i] == value_model(
            #[trigger] vs[i],
        ) by {
            if i > 0 {
                assert(vs.drop_first()[i - 1] == vs[i]);
            }
        }
    }
}

impl View for Value {
    type V = ValueModel;

    open spec fn view(&self) -> ValueModel {
        value_model(*self)
    }
}

/// True when the value can be laid out on the wire: every enum ordinal fits
/// in the single ordinal byte, every length fits its 8-byte prefix, and a
/// sequence's element count fits in a machine word, so that a decoder on
/// the same machine can count the elements back.
pub open spec fn encodable(m: ValueModel) -> bool
    decreases m,
{
    match m {
        ValueModel::Text(cs) => encode_utf8(cs).len() <= u64::MAX,
        ValueModel::Bytes(bs) => bs.len() <= u64::MAX,
        ValueModel::Maybe(o) => match o {
            None => true,
            Some(b) => encodable(*b),
        },
        ValueModel::Tuple(ms) => forall|i: int| 0 <= i < ms.len() ==> encodable(#[trigger] ms[i]),
        ValueModel::Sequence(ms) => ms.len() <= usize::MAX && forall|i: int|
            0 <= i < ms.len() ==> encodable(#[trigger] ms[i]),
        ValueModel::Variant(ord, payload) => ord <= 255 && encodable(*payload),
        _ => true,
    }
}

/// The byte layout of a value: the normative wire format.
///
/// Little-endian fixed-width integers; booleans and option tags as a single
/// 0/1 byte; characters as their 1- to 4-byte UTF-8 encoding with no length
/// prefix; strings, byte strings and sequences with an 8-byte little-endian
/// length prefix (byte count for strings and byte strings, element count for
/// sequences); tuples with no framing; enum variants as a single ordinal
/// byte followed by the payload.
pub open spec fn wire(m: ValueModel) -> Seq<u8>
    decreases m,
{
    match m {
        ValueModel::Unit => Seq::empty(),
        ValueModel::Bool(b) => seq![if b { 1u8 } else { 0u8 }],
        ValueModel::U8(x) => seq![x],
        ValueModel::U16(x) => le_bytes_u16(x),
        ValueModel::U32(x) => le_bytes_u32(x),
        ValueModel::U64(x) => le_bytes_u64(x),
        ValueModel::I8(x) => seq![x as u8],
        ValueModel::I16(x) => le_bytes_u16(x as u16),
        ValueModel::I32(x) => le_bytes_u32(x as u32),
        ValueModel::I64(x) => le_bytes_u64(x as u64),
        ValueModel::Char(c) => vstd::utf8::encode_scalar(c as u32),
        ValueModel::Text(cs) => le_bytes_u64(encode_utf8(cs).len() as u64) + encode_utf8(cs),
        ValueModel::Bytes(bs) => le_bytes_u64(bs.len() as u64) + bs,
        ValueModel::Maybe(o) => match o {
            None => seq![0u8],
            Some(b) => seq![1u8] + wire(*b),
        },
        ValueModel::Tuple(ms) => wire_seq(ms),
        ValueModel::Sequence(ms) => le_bytes_u64(ms.len() as u64) + wire_seq(ms),
        ValueModel::Variant(ord, payload) => seq![ord as u8] + wire(*payload),
    }
}

/// The concatenated byte layouts of a row of values, in order.
pub open spec fn wire_seq(ms: Seq<ValueModel>) -> Seq<u8>
    decreases ms,
{
    if ms.len() == 0 {
        Seq::empty()
    } else {
        wire(ms[0]) + wire_seq(ms.drop_first())
    }
}

/// Appending a value to a row appends its view to the row of views.
pub proof fn lemma_value_models_push(vs: Seq<Value>, v: Value)
    ensures
        value_models(vs.push(v)) == value_models(vs).push(value_model(v)),
{
    lemma_value_models(vs.push(v));
    lemma_value_models(vs);
    let a = value_models(vs.push(v));
    let b = value_models(vs).push(value_model(v));
    assert forall|i: int| 0 <= i < a.len() implies a[i] == b[i] by {
        assert(a[i] == value_model(vs.push(v)[i]));
        if i < vs.len() {
            assert(vs.push(v)[i] == vs[i]);
            assert(b[i] == value_model(vs[i]));
        } else {
            assert(vs.push(v)[i] == v);
        }
    }
    assert(a =~= b);
}

/// The wire bytes of a row split at any element count.
pub proof fn lemma_wire_seq_split(ms: Seq<ValueModel>, i: int)
    requires
        0 <= i <= ms.len(),
    ensures
        wire_seq(ms) == wire_seq(ms.take(i)) + wire_seq(ms.skip(i)),
    decreases i,
{
    if i == 0 {
        assert(ms.take(0) =~= Seq::<ValueModel>::empty());
        assert(ms.skip(0) =~= ms);
        assert(wire_seq(ms) =~= wire_seq(ms.take(0)) + wire_seq(ms.skip(0)));
    } else {
        let d = ms.drop_first();
        lemma_wire_seq_split(d, i - 1);
        assert(ms.take(i).len() == i);
        assert(ms.take(i)[0] == ms[0]);
        assert(ms.take(i).drop_first() =~= d.take(i - 1));
        assert(d.skip(i - 1) =~= ms.skip(i));
        assert(wire_seq(ms.take(i)) == wire(ms[0]) + wire_seq(d.take(i - 1)));
        assert(wire_seq(ms) =~= wire_seq(ms.take(i)) + wire_seq(ms.skip(i)));
    }
}

/// Keeping one more element of a row appends that element's wire bytes.
pub proof fn lemma_wire_seq_snoc(ms: Seq<ValueModel>, i: int)
    requires
        0 <= i < ms.len(),
    ensures
        wire_seq(ms.take(i + 1)) == wire_seq(ms.take(i)) + wire(ms[i]),
{
    lemma_wire_seq_split(ms.take(i + 1), i);
    assert(ms.take(i + 1).take(i) =~= ms.take(i));
    let t = ms.take(i + 1).skip(i);
    assert(t.len() == 1);
    assert(t[0] == ms[i]);
    assert(t.drop_first() =~= Seq::<ValueModel>::empty());
    assert(wire_seq(t.drop_first()) =~= Seq::<u8>::empty());
    assert(wire_seq(t) == wire(t[0]) + wire_seq(t.drop_first()));
    assert(wire_seq(ms.take(i + 1)) =~= wire_seq(ms.take(i)) + wire(ms[i]));
}

/// An element's wire bytes lie inside its row's wire bytes: the bytes of
/// the elements before it plus its own never exceed the row's total.
pub proof fn lemma_wire_seq_elem_len(ms: Seq<ValueModel>, i: int)
    requires
        0 <= i < ms.len(),
    ensures
        wire_seq(ms.take(i)).len() + wire(ms[i]).len() <= wire_seq(ms).len(),
{
    lemma_wire_seq_split(ms, i);
    let s = ms.skip(i);
    assert(s.len() > 0);
    assert(s[0] == ms[i]);
    assert(wire_seq(s) == wire(s[0]) + wire_seq(s.drop_first()));
}

/// True when the value has the given shape, so that decoding the value's
/// bytes with that shape is meaningful.
pub open spec fn matches_shape(m: ValueModel, s: Shape) -> bool
    decreases m,
{
    match m {
        ValueModel::Unit => s is Unit,
        ValueModel::Bool(_) => s is Bool,
        ValueModel::U8(_) => s is U8,
        ValueModel::U16(_) => s is U16,
        ValueModel::U32(_) => s is U32,
        ValueModel::U64(_) => s is U64,
        ValueModel::I8(_) => s is I8,
        ValueModel::I16(_) => s is I16,
        ValueModel::I32(_) => s is I32,
        ValueModel::I64(_) => s is I64,
        ValueModel::Char(_) => s is Char,
        ValueModel::Text(_) => s is Text,
        ValueModel::Bytes(_) => s is Bytes,
        ValueModel::Maybe(o) => s is Maybe && match o {
            None => true,
            Some(b) => matches_shape(*b, *s->Maybe_0),
        },
        ValueModel::Tuple(ms) => s is Tuple && ms.len() == s->Tuple_0@.len() && forall|i: int|
            0 <= i < ms.len() ==> matches_shape(#[trigger] ms[i], s->Tuple_0@[i]),
        ValueModel::Sequence(ms) => s is Sequence && forall|i: int|
            0 <= i < ms.len() ==> matches_shape(#[trigger] ms[i], *s->Sequence_0),
        ValueModel::Variant(ord, payload) => s is Enum && ord < s->Enum_0@.len()
            && matches_shape(*payload, s->Enum_0@[ord as int]),
    }
}

} // verus!
