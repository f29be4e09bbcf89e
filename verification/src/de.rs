//! The decoder: a bounds-checked read cursor and the schema-driven
//! reconstruction of values.
//!
//! The wire format is not self-describing, so [`spec_decode`] and the
//! executable decoder are driven by a [`Shape`] and mirror the byte layout
//! of [`crate::value::wire`] byte for byte, validating as they go: a bool or
//! option tag must be 0 or 1, an enum ordinal must name a variant, and
//! characters and strings must be valid UTF-8.

use vstd::prelude::*;
use vstd::utf8::decode_first_scalar;
use vstd::utf8::decode_utf8;
use vstd::utf8::length_of_first_scalar;
use vstd::utf8::valid_first_scalar;
use vstd::utf8::valid_utf8;

use crate::error::Error;
use crate::text::char_from_u32;
use crate::text::lemma_first_scalar_truncate;
use crate::value::lemma_value_models_push;
use crate::value::value_models;
use crate::value::Value;
use crate::le::u16_of_le;
use crate::le::u32_of_le;
use crate::le::u64_of_le;
use crate::value::Shape;
use crate::value::ValueModel;

verus! {

/// What decoding one value of shape `s` from `b` at position `pos` must
/// yield: the value's mathematical view and the position after it, or the
/// exact error.
///
/// `EndOfStream` when the buffer ends before a required read;
/// `InvalidRepresentation` when the bytes are no valid instance of the
/// shape: a bool or option tag other than 0 or 1, an ordinal byte naming no
/// variant, or invalid UTF-8.  A declared string, byte-string or sequence
/// length that cannot fit in the remaining buffer (or, for element counts,
/// in a machine word) is `EndOfStream`.
pub open spec fn spec_decode(s: Shape, b: Seq<u8>, pos: int) -> Result<(ValueModel, int), Error>
    decreases s, 0int, 0int,
{
    match s {
        Shape::Unit => Ok((ValueModel::Unit, pos)),
        Shape::Bool => if pos + 1 <= b.len() {
            if b[pos] == 0 {
                Ok((ValueModel::Bool(false), pos + 1))
            } else if b[pos] == 1 {
                Ok((ValueModel::Bool(true), pos + 1))
            } else {
                Err(Error::InvalidRepresentation)
            }
        } else {
            Err(Error::EndOfStream)
        },
        Shape::U8 => if pos + 1 <= b.len() {
            Ok((ValueModel::U8(b[pos]), pos + 1))
        } else {
            Err(Error::EndOfStream)
        },
        Shape::U16 => if pos + 2 <= b.len() {
            Ok((ValueModel::U16(u16_of_le(b[pos], b[pos + 1])), pos + 2))
        } else {
            Err(Error::EndOfStream)
        },
        Shape::U32 => if pos + 4 <= b.len() {
            Ok((ValueModel::U32(u32_of_le(b[pos], b[pos + 1], b[pos + 2], b[pos + 3])), pos + 4))
        } else {
            Err(Error::EndOfStream)
        },
        Shape::U64 => if pos + 8 <= b.len() {
            Ok(
                (
                    ValueModel::U64(
                        u64_of_le(
                            b[pos],
                            b[pos + 1],
                            b[pos + 2],
                            b[pos + 3],
                            b[pos + 4],
                            b[pos + 5],
                            b[pos + 6],
                            b[pos + 7],
                        ),
                    ),
                    pos + 8,
                ),
            )
        } else {
            Err(Error::EndOfStream)
        },
        Shape::I8 => if pos + 1 <= b.len() {
            Ok((ValueModel::I8(b[pos] as i8), pos + 1))
        } else {
            Err(Error::EndOfStream)
        },
        Shape::I16 => if pos + 2 <= b.len() {
            Ok((ValueModel::I16(u16_of_le(b[pos], b[pos + 1]) as i16), pos + 2))
        } else {
            Err(Error::EndOfStream)
        },
        Shape::I32 => if pos + 4 <= b.len() {
            Ok(
                (
                    ValueModel::I32(u32_of_le(b[pos], b[pos + 1], b[pos + 2], b[pos + 3]) as i32),
                    pos + 4,
                ),
            )
        } else {
            Err(Error::EndOfStream)
        },
        Shape::I64 => if pos + 8 <= b.len() {
            Ok(
                (
                    ValueModel::I64(
                        u64_of_le(
                            b[pos],
                            b[pos + 1],
                            b[pos + 2],
                            b[pos + 3],
                            b[pos + 4],
                            b[pos + 5],
                            b[pos + 6],
                            b[pos + 7],
                        ) as i64,
                    ),
                    pos + 8,
                ),
            )
        } else {
            Err(Error::EndOfStream)
        },
        Shape::Char => {
            let rem = b.skip(pos);
            if valid_first_scalar(rem) {
                Ok(
                    (
                        ValueModel::Char(decode_first_scalar(rem) as char),
                        pos + length_of_first_scalar(rem),
                    ),
                )
            } else {
                Err(Error::InvalidRepresentation)
            }
        },
        Shape::Text => if pos + 8 <= b.len() {
            let n = u64_of_le(
                b[pos],
                b[pos + 1],
                b[pos + 2],
                b[pos + 3],
                b[pos + 4],
                b[pos + 5],
                b[pos + 6],
                b[pos + 7],
            ) as int;
            if pos + 8 + n <= b.len() {
                let sl = b.subrange(pos + 8, pos + 8 + n);
                if valid_utf8(sl) {
                    Ok((ValueModel::Text(decode_utf8(sl)), pos + 8 + n))
                } else {
                    Err(Error::InvalidRepresentation)
                }
            } else {
                Err(Error::EndOfStream)
            }
        } else {
            Err(Error::EndOfStream)
        },
        Shape::Bytes => if pos + 8 <= b.len() {
            let n = u64_of_le(
                b[pos],
                b[pos + 1],
                b[pos + 2],
                b[pos + 3],
                b[pos + 4],
                b[pos + 5],
                b[pos + 6],
                b[pos + 7],
            ) as int;
            if pos + 8 + n <= b.len() {
                Ok((ValueModel::Bytes(b.subrange(pos + 8, pos + 8 + n)), pos + 8 + n))
            } else {
                Err(Error::EndOfStream)
            }
        } else {
            Err(Error::EndOfStream)
        },
        Shape::Maybe(es) => if pos + 1 <= b.len() {
            if b[pos] == 0 {
                Ok((ValueModel::Maybe(None), pos + 1))
            } else if b[pos] == 1 {
                match spec_decode(*es, b, pos + 1) {
                    Ok((m, q)) => Ok((ValueModel::Maybe(Some(Box::new(m))), q)),
                    Err(e) => Err(e),
                }
            } else {
                Err(Error::InvalidRepresentation)
            }
        } else {
            Err(Error::EndOfStream)
        },
        Shape::Tuple(ss) => match spec_decode_fields(ss@, b, pos) {
            Ok((ms, q)) => Ok((ValueModel::Tuple(ms), q)),
            Err(e) => Err(e),
        },
        Shape::Sequence(es) => if pos + 8 <= b.len() {
            let n = u64_of_le(
                b[pos],
                b[pos + 1],
                b[pos + 2],
                b[pos + 3],
                b[pos + 4],
                b[pos + 5],
                b[pos + 6],
                b[pos + 7],
            );
            if n <= usize::MAX as u64 {
                match spec_decode_elems(*es, n as int, b, pos + 8) {
                    Ok((ms, q)) => Ok((ValueModel::Sequence(ms), q)),
                    Err(e) => Err(e),
                }
            } else {
                Err(Error::EndOfStream)
            }
        } else {
            Err(Error::EndOfStream)
        },
        Shape::Enum(vs) => if pos + 1 <= b.len() {
            if (b[pos] as int) < vs@.len() {
                match spec_decode(vs@[b[pos] as int], b, pos + 1) {
                    Ok((m, q)) => Ok((ValueModel::Variant(b[pos] as usize, Box::new(m)), q)),
                    Err(e) => Err(e),
                }
            } else {
                Err(Error::InvalidRepresentation)
            }
        } else {
            Err(Error::EndOfStream)
        },
    }
}

/// Decoding a row of fields, one shape each, in declared order.
pub open spec fn spec_decode_fields(ss: Seq<Shape>, b: Seq<u8>, pos: int) -> Result<
    (Seq<ValueModel>, int),
    Error,
>
    decreases ss, 0int, 0int,
{
    if ss.len() == 0 {
        Ok((Seq::empty(), pos))
    } else {
        match spec_decode(ss[0], b, pos) {
            Ok((m, q)) => match spec_decode_fields(ss.drop_first(), b, q) {
                Ok((ms, r)) => Ok((seq![m] + ms, r)),
                Err(e) => Err(e),
            },
            Err(e) => Err(e),
        }
    }
}

/// The read cursor: the number of bytes consumed so far.  Created at zero
/// for one decode call and discarded at its return.
pub struct Deserializer {
    /// The buffer position: everything before it has been consumed.
    pub idx: usize,
}

impl Deserializer {
    /// A fresh cursor at the start of the buffer.
    pub fn new() -> (d: Deserializer)
        ensures
            d.idx == 0,
    {
        Deserializer { idx: 0 }
    }

    /// Fails with `EndOfStream` unless `len` more bytes remain in the
    /// buffer, checked with overflow-safe addition.
    pub fn check_bounds(&self, buf: &[u8], len: usize) -> (r: Result<(), Error>)
        ensures
            r is Ok <==> self.idx + len <= buf@.len(),
            r is Err ==> r->Err_0 is EndOfStream,
            buf@.len() <= usize::MAX,
    {
        let cap = buf.len();
        if let Some(total) = self.idx.checked_add(len) {
            if total <= cap {
                return Ok(());
            }
        }
        Err(Error::EndOfStream)
    }

    /// Reads one byte at the cursor.
    pub fn read_u8(&mut self, buf: &[u8]) -> (r: Result<u8, Error>)
        ensures
            match r {
                Ok(x) => {
                    &&& old(self).idx + 1 <= buf@.len()
                    &&& final(self).idx == old(self).idx + 1
                    &&& x == buf@[old(self).idx as int]
                },
                Err(e) => {
                    &&& e is EndOfStream
                    &&& old(self).idx + 1 > buf@.len()
                    &&& final(self).idx == old(self).idx
                },
            },
    {
        self.check_bounds(buf, 1)?;
        let x = buf[self.idx];
        self.idx = self.idx + 1;
        Ok(x)
    }

    /// Reads a 16-bit little-endian integer at the cursor.
    pub fn read_u16(&mut self, buf: &[u8]) -> (r: Result<u16, Error>)
        ensures
            match r {
                Ok(x) => {
                    &&& old(self).idx + 2 <= buf@.len()
                    &&& final(self).idx == old(self).idx + 2
                    &&& x == u16_of_le(
                        buf@[old(self).idx as int],
                        buf@[old(self).idx + 1],
                    )
                },
                Err(e) => {
                    &&& e is EndOfStream
                    &&& old(self).idx + 2 > buf@.len()
                    &&& final(self).idx == old(self).idx
                },
            },
    {
        self.check_bounds(buf, 2)?;
        let b0 = buf[self.idx];
        let b1 = buf[self.idx + 1];
        self.idx = self.idx + 2;
        Ok((b0 as u16) | (b1 as u16) << 8)
    }

    /// Reads a 32-bit little-endian integer at the cursor.
    pub fn read_u32(&mut self, buf: &[u8]) -> (r: Result<u32, Error>)
        ensures
            match r {
                Ok(x) => {
                    &&& old(self).idx + 4 <= buf@.len()
                    &&& final(self).idx == old(self).idx + 4
                    &&& x == u32_of_le(
                        buf@[old(self).idx as int],
                        buf@[old(self).idx + 1],
                        buf@[old(self).idx + 2],
                        buf@[old(self).idx + 3],
                    )
                },
                Err(e) => {
                    &&& e is EndOfStream
                    &&& old(self).idx + 4 > buf@.len()
                    &&& final(self).idx == old(self).idx
                },
            },
    {
        self.check_bounds(buf, 4)?;
        let b0 = buf[self.idx];
        let b1 = buf[self.idx + 1];
        let b2 = buf[self.idx + 2];
        let b3 = buf[self.idx + 3];
        self.idx = self.idx + 4;
        Ok((b0 as u32) | (b1 as u32) << 8 | (b2 as u32) << 16 | (b3 as u32) << 24)
    }

    /// Reads a 64-bit little-endian integer at the cursor.
    pub fn read_u64(&mut self, buf: &[u8]) -> (r: Result<u64, Error>)
        ensures
            match r {
                Ok(x) => {
                    &&& old(self).idx + 8 <= buf@.len()
                    &&& final(self).idx == old(self).idx + 8
                    &&& x == u64_of_le(
                        buf@[old(self).idx as int],
                        buf@[old(self).idx + 1],
                        buf@[old(self).idx + 2],
                        buf@[old(self).idx + 3],
                        buf@[old(self).idx + 4],
                        buf@[old(self).idx + 5],
                        buf@[old(self).idx + 6],
                        buf@[old(self).idx + 7],
                    )
                },
                Err(e) => {
                    &&& e is EndOfStream
                    &&& old(self).idx + 8 > buf@.len()
                    &&& final(self).idx == old(self).idx
                },
            },
    {
        self.check_bounds(buf, 8)?;
        let b0 = buf[self.idx];
        let b1 = buf[self.idx + 1];
        let b2 = buf[self.idx + 2];
        let b3 = buf[self.idx + 3];
        let b4 = buf[self.idx + 4];
        let b5 = buf[self.idx + 5];
        let b6 = buf[self.idx + 6];
        let b7 = buf[self.idx + 7];
        self.idx = self.idx + 8;
        Ok(
            (b0 as u64) | (b1 as u64) << 8 | (b2 as u64) << 16 | (b3 as u64) << 24 | (b4 as u64)
                << 32 | (b5 as u64) << 40 | (b6 as u64) << 48 | (b7 as u64) << 56,
        )
    }

    /// Reads one UTF-8 encoded character at the cursor, never looking at or
    /// beyond position `end`.  An encoding that is malformed, overlong, a
    /// surrogate, or cut off by `end` is `InvalidRepresentation`.
    pub fn read_scalar(&mut self, buf: &[u8], end: usize) -> (r: Result<char, Error>)
        requires
            old(self).idx <= end <= buf@.len(),
        ensures
            match r {
                Ok(c) => {
                    &&& valid_first_scalar(buf@.subrange(old(self).idx as int, end as int))
                    &&& c as u32 == decode_first_scalar(
                        buf@.subrange(old(self).idx as int, end as int),
                    )
                    &&& final(self).idx == old(self).idx + length_of_first_scalar(
                        buf@.subrange(old(self).idx as int, end as int),
                    )
                },
                Err(e) => {
                    &&& e is InvalidRepresentation
                    &&& !valid_first_scalar(buf@.subrange(old(self).idx as int, end as int))
                    &&& final(self).idx == old(self).idx
                },
            },
    {
        let ghost rem = buf@.subrange(old(self).idx as int, end as int);
        let avail = end - self.idx;
        if avail < 1 {
            return Err(Error::InvalidRepresentation);
        }
        let b0 = buf[self.idx];
        proof {
            assert(rem[0] == b0);
        }
        if b0 < 0x80 {
            proof {
                assert(b0 & 0x7F == b0) by (bit_vector)
                    requires
                        b0 < 0x80,
                ;
            }
            self.idx = self.idx + 1;
            Ok(b0 as char)
        } else if 0xC0 <= b0 && b0 <= 0xDF {
            if avail < 2 {
                return Err(Error::InvalidRepresentation);
            }
            let b1 = buf[self.idx + 1];
            proof {
                assert(rem[1] == b1);
            }
            if !(0x80 <= b1 && b1 <= 0xBF) {
                return Err(Error::InvalidRepresentation);
            }
            let cp: u32 = (((b0 & 0x1F) as u32) << 6) | ((b1 & 0x3F) as u32);
            if cp < 0x80 {
                return Err(Error::InvalidRepresentation);
            }
            proof {
                assert(cp <= 0x7FF) by (bit_vector)
                    requires
                        cp == (((b0 & 0x1F) as u32) << 6) | ((b1 & 0x3F) as u32),
                ;
            }
            self.idx = self.idx + 2;
            Ok(char_from_u32(cp))
        } else if 0xE0 <= b0 && b0 <= 0xEF {
            if avail < 3 {
                return Err(Error::InvalidRepresentation);
            }
            let b1 = buf[self.idx + 1];
            let b2 = buf[self.idx + 2];
            proof {
                assert(rem[1] == b1);
                assert(rem[2] == b2);
            }
            if !(0x80 <= b1 && b1 <= 0xBF) || !(0x80 <= b2 && b2 <= 0xBF) {
                return Err(Error::InvalidRepresentation);
            }
            let cp: u32 = (((b0 & 0x0F) as u32) << 12) | (((b1 & 0x3F) as u32) << 6) | ((b2
                & 0x3F) as u32);
            if cp < 0x800 {
                return Err(Error::InvalidRepresentation);
            }
            if 0xD800 <= cp && cp <= 0xDFFF {
                return Err(Error::InvalidRepresentation);
            }
            proof {
                assert(cp <= 0xFFFF) by (bit_vector)
                    requires
                        cp == (((b0 & 0x0F) as u32) << 12) | (((b1 & 0x3F) as u32) << 6) | ((b2
                            & 0x3F) as u32),
                ;
            }
            self.idx = self.idx + 3;
            Ok(char_from_u32(cp))
        } else if 0xF0 <= b0 && b0 <= 0xF7 {
            if avail < 4 {
                return Err(Error::InvalidRepresentation);
            }
            let b1 = buf[self.idx + 1];
            let b2 = buf[self.idx + 2];
            let b3 = buf[self.idx + 3];
            proof {
                assert(rem[1] == b1);
                assert(rem[2] == b2);
                assert(rem[3] == b3);
            }
            if !(0x80 <= b1 && b1 <= 0xBF) || !(0x80 <= b2 && b2 <= 0xBF) || !(0x80 <= b3 && b3
                <= 0xBF) {
                return Err(Error::InvalidRepresentation);
            }
            let cp: u32 = (((b0 & 0x07) as u32) << 18) | (((b1 & 0x3F) as u32) << 12) | (((b2
                & 0x3F) as u32) << 6) | ((b3 & 0x3F) as u32);
            if cp < 0x10000 || cp > 0x10FFFF {
                return Err(Error::InvalidRepresentation);
            }
            self.idx = self.idx + 4;
            Ok(char_from_u32(cp))
        } else {
            Err(Error::InvalidRepresentation)
        }
    }
}

/// Decoding `n` sequence elements of one shape, in order.
pub open spec fn spec_decode_elems(es: Shape, n: int, b: Seq<u8>, pos: int) -> Result<
    (Seq<ValueModel>, int),
    Error,
>
    decreases es, n, 1int,
{
    if n <= 0 {
        Ok((Seq::empty(), pos))
    } else {
        match spec_decode(es, b, pos) {
            Ok((m, q)) => match spec_decode_elems(es, n - 1, b, q) {
                Ok((ms, r)) => Ok((seq![m] + ms, r)),
                Err(e) => Err(e),
            },
            Err(e) => Err(e),
        }
    }
}

impl Deserializer {
    /// Decodes one value of the given shape at the cursor, exactly as
    /// [`spec_decode`] says.
    #[verifier::loop_isolation(false)]
    pub fn decode_value(&mut self, buf: &[u8], s: &Shape) -> (r: Result<Value, Error>)
        requires
            old(self).idx <= buf@.len(),
        ensures
            final(self).idx <= buf@.len(),
            match r {
                Ok(v) => spec_decode(*s, buf@, old(self).idx as int) == Ok::<
                    (ValueModel, int),
                    Error,
                >((v@, final(self).idx as int)),
                Err(e) => spec_decode(*s, buf@, old(self).idx as int) == Err::<
                    (ValueModel, int),
                    Error,
                >(e),
            },
        decreases s, 0int, 0int,
    {
        match s {
            Shape::Unit => Ok(Value::Unit),
            Shape::Bool => match self.read_u8(buf) {
                Ok(x) => {
                    if x == 0 {
                        Ok(Value::Bool(false))
                    } else if x == 1 {
                        Ok(Value::Bool(true))
                    } else {
                        Err(Error::InvalidRepresentation)
                    }
                },
                Err(e) => Err(e),
            },
            Shape::U8 => match self.read_u8(buf) {
                Ok(x) => Ok(Value::U8(x)),
                Err(e) => Err(e),
            },
            Shape::U16 => match self.read_u16(buf) {
                Ok(x) => Ok(Value::U16(x)),
                Err(e) => Err(e),
            },
            Shape::U32 => match self.read_u32(buf) {
                Ok(x) => Ok(Value::U32(x)),
                Err(e) => Err(e),
            },
            Shape::U64 => match self.read_u64(buf) {
                Ok(x) => Ok(Value::U64(x)),
                Err(e) => Err(e),
            },
            Shape::I8 => match self.read_u8(buf) {
                Ok(x) => Ok(Value::I8(#[verifier::truncate] (x as i8))),
                Err(e) => Err(e),
            },
            Shape::I16 => match self.read_u16(buf) {
                Ok(x) => Ok(Value::I16(#[verifier::truncate] (x as i16))),
                Err(e) => Err(e),
            },
            Shape::I32 => match self.read_u32(buf) {
                Ok(x) => Ok(Value::I32(#[verifier::truncate] (x as i32))),
                Err(e) => Err(e),
            },
            Shape::I64 => match self.read_u64(buf) {
                Ok(x) => Ok(Value::I64(#[verifier::truncate] (x as i64))),
                Err(e) => Err(e),
            },
            Shape::Char => {
                let cap = buf.len();
                match self.read_scalar(buf, cap) {
                    Ok(c) => {
                        proof {
                            vstd::utf8::char_u32_cast(
                                c,
                                decode_first_scalar(buf@.skip(old(self).idx as int)),
                            );
                            assert(buf@.subrange(old(self).idx as int, cap as int) =~= buf@.skip(
                                old(self).idx as int,
                            ));
                        }
                        Ok(Value::Char(c))
                    },
                    Err(e) => {
                        proof {
                            assert(buf@.subrange(old(self).idx as int, cap as int) =~= buf@.skip(
                                old(self).idx as int,
                            ));
                        }
                        Err(e)
                    },
                }
            },
            Shape::Text => {
                let n64 = match self.read_u64(buf) {
                    Ok(x) => x,
                    Err(e) => {
                        return Err(e);
                    },
                };
                let room = buf.len() - self.idx;
                if n64 > room as u64 {
                    return Err(Error::EndOfStream);
                }
                let n = n64 as usize;
                match self.decode_text(buf, n) {
                    Ok(cs) => Ok(Value::Text(cs)),
                    Err(e) => Err(e),
                }
            },
            Shape::Bytes => {
                let n64 = match self.read_u64(buf) {
                    Ok(x) => x,
                    Err(e) => {
                        return Err(e);
                    },
                };
                let room = buf.len() - self.idx;
                if n64 > room as u64 {
                    return Err(Error::EndOfStream);
                }
                let n = n64 as usize;
                let bs = self.decode_bytes(buf, n);
                Ok(Value::Bytes(bs))
            },
            Shape::Maybe(es) => match self.read_u8(buf) {
                Ok(tag) => {
                    if tag == 0 {
                        Ok(Value::Maybe(None))
                    } else if tag == 1 {
                        match self.decode_value(buf, &**es) {
                            Ok(v) => Ok(Value::Maybe(Some(Box::new(v)))),
                            Err(e) => Err(e),
                        }
                    } else {
                        Err(Error::InvalidRepresentation)
                    }
                },
                Err(e) => Err(e),
            },
            Shape::Tuple(ss) => match self.decode_fields(buf, ss) {
                Ok(vs) => Ok(Value::Tuple(vs)),
                Err(e) => Err(e),
            },
            Shape::Sequence(es) => {
                let n64 = match self.read_u64(buf) {
                    Ok(x) => x,
                    Err(e) => {
                        return Err(e);
                    },
                };
                if n64 > usize::MAX as u64 {
                    return Err(Error::EndOfStream);
                }
                let n = n64 as usize;
                match self.decode_elems(buf, &**es, n) {
                    Ok(vs) => Ok(Value::Sequence(vs)),
                    Err(e) => Err(e),
                }
            },
            Shape::Enum(vs) => match self.read_u8(buf) {
                Ok(tag) => {
                    if (tag as usize) < vs.len() {
                        proof {
                            assert(decreases_to!(s => vs@[tag as int]));
                        }
                        match self.decode_value(buf, &vs[tag as usize]) {
                            Ok(payload) => Ok(Value::Variant(tag as usize, Box::new(payload))),
                            Err(e) => Err(e),
                        }
                    } else {
                        Err(Error::InvalidRepresentation)
                    }
                },
                Err(e) => Err(e),
            },
        }
    }

    /// Decodes a row of fields, one shape each, in declared order.
    #[verifier::loop_isolation(false)]
    fn decode_fields(&mut self, buf: &[u8], ss: &Vec<Shape>) -> (r: Result<Vec<Value>, Error>)
        requires
            old(self).idx <= buf@.len(),
        ensures
            final(self).idx <= buf@.len(),
            match r {
                Ok(vs) => spec_decode_fields(ss@, buf@, old(self).idx as int) == Ok::<
                    (Seq<ValueModel>, int),
                    Error,
                >((value_models(vs@), final(self).idx as int)),
                Err(e) => spec_decode_fields(ss@, buf@, old(self).idx as int) == Err::<
                    (Seq<ValueModel>, int),
                    Error,
                >(e),
            },
        decreases ss, 0int, 0int,
    {
        let ghost pos0 = old(self).idx as int;
        let mut vals: Vec<Value> = Vec::new();
        let n = ss.len();
        proof {
            assert(ss@.skip(0) =~= ss@);
            match spec_decode_fields(ss@, buf@, pos0) {
                Ok((ms2, q)) => {
                    assert(value_models(vals@) + ms2 =~= ms2);
                },
                Err(e) => {},
            }
        }
        for j in 0..n
            invariant
                self.idx <= buf@.len(),
                spec_decode_fields(ss@, buf@, pos0) == (match spec_decode_fields(
                    ss@.skip(j as int),
                    buf@,
                    self.idx as int,
                ) {
                    Ok((ms2, q)) => Ok::<(Seq<ValueModel>, int), Error>(
                        (value_models(vals@) + ms2, q),
                    ),
                    Err(e) => Err::<(Seq<ValueModel>, int), Error>(e),
                }),
        {
            let ghost rem = ss@.skip(j as int);
            let ghost here = self.idx as int;
            proof {
                assert(rem.len() > 0);
                assert(rem[0] == ss@[j as int]);
                assert(rem.drop_first() =~= ss@.skip(j + 1));
                assert(decreases_to!(ss => ss@[j as int]));
            }
            match self.decode_value(buf, &ss[j]) {
                Ok(v) => {
                    let ghost old_vals = vals@;
                    vals.push(v);
                    proof {
                        lemma_value_models_push(old_vals, v);
                        match spec_decode_fields(ss@.skip(j + 1), buf@, self.idx as int) {
                            Ok((ms2, q)) => {
                                assert(value_models(vals@) + ms2 =~= value_models(old_vals) + (seq![
                                    v@,
                                ] + ms2));
                            },
                            Err(e) => {},
                        }
                    }
                },
                Err(e) => {
                    return Err(e);
                },
            }
        }
        proof {
            assert(ss@.skip(n as int) =~= Seq::<Shape>::empty());
            assert(value_models(vals@) + Seq::<ValueModel>::empty() =~= value_models(vals@));
        }
        Ok(vals)
    }

    /// Decodes `n` sequence elements of one shape, in order.
    #[verifier::loop_isolation(false)]
    fn decode_elems(&mut self, buf: &[u8], es: &Shape, n: usize) -> (r: Result<Vec<Value>, Error>)
        requires
            old(self).idx <= buf@.len(),
        ensures
            final(self).idx <= buf@.len(),
            match r {
                Ok(vs) => spec_decode_elems(*es, n as int, buf@, old(self).idx as int) == Ok::<
                    (Seq<ValueModel>, int),
                    Error,
                >((value_models(vs@), final(self).idx as int)),
                Err(e) => spec_decode_elems(*es, n as int, buf@, old(self).idx as int) == Err::<
                    (Seq<ValueModel>, int),
                    Error,
                >(e),
            },
        decreases es, 0int, 1int,
    {
        let ghost pos0 = old(self).idx as int;
        let mut vals: Vec<Value> = Vec::new();
        proof {
            match spec_decode_elems(*es, n as int, buf@, pos0) {
                Ok((ms2, q)) => {
                    assert(value_models(vals@) + ms2 =~= ms2);
                },
                Err(e) => {},
            }
        }
        for j in 0..n
            invariant
                self.idx <= buf@.len(),
                spec_decode_elems(*es, n as int, buf@, pos0) == (match spec_decode_elems(
                    *es,
                    n - j,
                    buf@,
                    self.idx as int,
                ) {
                    Ok((ms2, q)) => Ok::<(Seq<ValueModel>, int), Error>(
                        (value_models(vals@) + ms2, q),
                    ),
                    Err(e) => Err::<(Seq<ValueModel>, int), Error>(e),
                }),
        {
            match self.decode_value(buf, es) {
                Ok(v) => {
                    let ghost old_vals = vals@;
                    vals.push(v);
                    proof {
                        lemma_value_models_push(old_vals, v);
                        match spec_decode_elems(*es, n - j - 1, buf@, self.idx as int) {
                            Ok((ms2, q)) => {
                                assert(value_models(vals@) + ms2 =~= value_models(old_vals) + (seq![
                                    v@,
                                ] + ms2));
                            },
                            Err(e) => {},
                        }
                    }
                },
                Err(e) => {
                    return Err(e);
                },
            }
        }
        proof {
            assert(value_models(vals@) + Seq::<ValueModel>::empty() =~= value_models(vals@));
        }
        Ok(vals)
    }

    /// Decodes a string body of exactly `n` bytes at the cursor: the bytes
    /// must be valid UTF-8 in full, else `InvalidRepresentation`.
    #[verifier::loop_isolation(false)]
    fn decode_text(&mut self, buf: &[u8], n: usize) -> (r: Result<Vec<char>, Error>)
        requires
            old(self).idx + n <= buf@.len(),
        ensures
            final(self).idx <= buf@.len(),
            ({
                let sl = buf@.subrange(old(self).idx as int, old(self).idx + n);
                match r {
                    Ok(cs) => valid_utf8(sl) && cs@ == decode_utf8(sl) && final(self).idx == old(
                        self,
                    ).idx + n,
                    Err(e) => e is InvalidRepresentation && !valid_utf8(sl),
                }
            }),
    {
        let ghost start = self.idx as int;
        let ghost sl = buf@.subrange(start, start + n);
        let cap = buf.len();
        let end = self.idx + n;
        let mut cs: Vec<char> = Vec::new();
        proof {
            assert(sl.take(0) =~= Seq::<u8>::empty());
        }
        while self.idx < end
            invariant
                start <= self.idx <= end,
                end == start + n,
                end <= buf@.len(),
                valid_utf8(sl.take(self.idx - start)),
                cs@ == decode_utf8(sl.take(self.idx - start)),
            decreases end - self.idx,
        {
            let ghost k = self.idx - start;
            let ghost rem = sl.skip(k);
            proof {
                assert(rem =~= buf@.subrange(self.idx as int, end as int));
                assert(rem =~= sl.subrange(k, sl.len() as int));
            }
            match self.read_scalar(buf, end) {
                Ok(c) => {
                    proof {
                        assert(vstd::utf8::partial_valid_utf8(sl, k));
                        vstd::utf8::partial_valid_utf8_extend(sl, k);
                        let w = length_of_first_scalar(rem);
                        assert(1 <= w <= rem.len());
                        let k2 = k + w;
                        assert(valid_utf8(sl.take(k2)));
                        assert(sl.take(k2)[k] == rem[0]);
                        vstd::utf8::is_char_boundary_iff_not_is_continuation_byte(sl.take(k2), k);
                        vstd::utf8::decode_utf8_split(sl.take(k2), k);
                        assert(sl.take(k2).subrange(0, k) =~= sl.take(k));
                        let scalar_bytes = sl.take(k2).subrange(k, k2);
                        assert(scalar_bytes =~= rem.take(w));
                        lemma_first_scalar_truncate(rem);
                        vstd::utf8::valid_utf8_split(sl.take(k2), k);
                        assert(valid_utf8(scalar_bytes));
                        assert(vstd::utf8::pop_first_scalar(scalar_bytes) =~= Seq::<u8>::empty());
                        assert(decode_utf8(scalar_bytes) == seq![
                            decode_first_scalar(scalar_bytes) as char,
                        ] + decode_utf8(vstd::utf8::pop_first_scalar(scalar_bytes)));
                        vstd::utf8::char_u32_cast(c, decode_first_scalar(rem));
                        assert(decode_utf8(scalar_bytes) =~= seq![c]);
                        assert(decode_utf8(sl.take(k2)) =~= decode_utf8(sl.take(k)).push(c));
                    }
                    cs.push(c);
                },
                Err(e) => {
                    proof {
                        assert(rem.len() > 0);
                        assert(!valid_utf8(rem));
                        vstd::utf8::partial_valid_partial_invalid_utf8(sl, k);
                        assert(sl.subrange(0, k) =~= sl.take(k));
                    }
                    return Err(e);
                },
            }
        }
        proof {
            assert(sl.take(n as int) =~= sl);
        }
        Ok(cs)
    }

    /// Copies a byte-string body of exactly `n` bytes at the cursor.
    #[verifier::loop_isolation(false)]
    fn decode_bytes(&mut self, buf: &[u8], n: usize) -> (r: Vec<u8>)
        requires
            old(self).idx + n <= buf@.len(),
        ensures
            r@ == buf@.subrange(old(self).idx as int, old(self).idx + n),
            final(self).idx == old(self).idx + n,
    {
        let ghost start = self.idx as int;
        let mut out: Vec<u8> = Vec::new();
        for j in 0..n
            invariant
                self.idx == start + j,
                self.idx + (n - j) <= buf@.len(),
                out@ == buf@.subrange(start, start + j),
        {
            let b = buf[self.idx];
            out.push(b);
            self.idx = self.idx + 1;
            proof {
                assert(out@ =~= buf@.subrange(start, start + j + 1));
            }
        }
        out
    }
}

/// An element source bounded to one dynamic sequence's declared count.
///
/// Whoever assembles a sequence value draws elements through `visit` and
/// closes with `end`; drawing past the declared count yields `None`, and
/// ending with elements still undrawn is the length mismatch
/// `MoreElements`.
pub struct SeqReader {
    /// How many declared elements have not been drawn yet.
    pub remaining: usize,
}

impl SeqReader {
    /// A source for a sequence that declared `count` elements.
    pub fn new(count: usize) -> (r: SeqReader)
        ensures
            r.remaining == count,
    {
        SeqReader { remaining: count }
    }

    /// Draws the next element by decoding it at the cursor, or reports that
    /// the declared count is exhausted.
    pub fn visit(&mut self, d: &mut Deserializer, buf: &[u8], elem: &Shape) -> (r: Result<
        Option<Value>,
        Error,
    >)
        requires
            old(d).idx <= buf@.len(),
        ensures
            final(d).idx <= buf@.len(),
            match r {
                Ok(o) => match o {
                    Some(v) => {
                        &&& old(self).remaining > 0
                        &&& final(self).remaining == old(self).remaining - 1
                        &&& spec_decode(*elem, buf@, old(d).idx as int) == Ok::<
                            (ValueModel, int),
                            Error,
                        >((v@, final(d).idx as int))
                    },
                    None => {
                        &&& old(self).remaining == 0
                        &&& final(self).remaining == 0
                        &&& final(d).idx == old(d).idx
                    },
                },
                Err(e) => {
                    &&& old(self).remaining > 0
                    &&& final(self).remaining == old(self).remaining - 1
                    &&& spec_decode(*elem, buf@, old(d).idx as int) == Err::<
                        (ValueModel, int),
                        Error,
                    >(e)
                },
            },
    {
        if self.remaining > 0 {
            self.remaining = self.remaining - 1;
            match d.decode_value(buf, elem) {
                Ok(v) => Ok(Some(v)),
                Err(e) => Err(e),
            }
        } else {
            Ok(None)
        }
    }

    /// Closes the sequence: the declared count and the elements drawn must
    /// agree, else the mismatch is `MoreElements`.
    pub fn end(&self) -> (r: Result<(), Error>)
        ensures
            r is Ok <==> self.remaining == 0,
            r is Err ==> r->Err_0 is MoreElements,
    {
        if self.remaining == 0 {
            Ok(())
        } else {
            Err(Error::MoreElements)
        }
    }
}

/// Decodes one value of the given shape from the front of the buffer and
/// returns it with the number of bytes consumed.
///
/// The buffer may hold trailing bytes beyond the value; they are not read.
/// The result is exactly what [`spec_decode`] says for the buffer and the
/// shape, errors included.
pub fn deserialize(buf: &[u8], shape: &Shape) -> (r: Result<(Value, usize), Error>)
    ensures
        match r {
            Ok((v, n)) => spec_decode(*shape, buf@, 0) == Ok::<(ValueModel, int), Error>(
                (v@, n as int),
            ),
            Err(e) => spec_decode(*shape, buf@, 0) == Err::<(ValueModel, int), Error>(e),
        },
{
    let mut cursor = Deserializer::new();
    match cursor.decode_value(buf, shape) {
        Ok(v) => Ok((v, cursor.idx)),
        Err(e) => Err(e),
    }
}

} // verus!
