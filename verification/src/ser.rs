//! The encoder: a bounds-checked write cursor and the per-shape layout
//! rules.
//!
//! The cursor tracks how many bytes have been produced; every write is
//! bounds-checked before it touches the buffer.  A failed encode is not
//! rolled back: bytes already written stay, only the buffer length is
//! guaranteed to be unchanged.

use vstd::pervasive::VecAdditionalExecFns;
use vstd::prelude::*;
use vstd::utf8::encode_scalar;
use vstd::utf8::encode_utf8;

use crate::error::Error;
use crate::le::le_bytes_u16;
use crate::le::le_bytes_u32;
use crate::le::le_bytes_u64;
use crate::text::lemma_encode_utf8_snoc;
use crate::text::lemma_encode_utf8_split;
use crate::text::utf8_width;
use crate::value::encodable;
use crate::value::lemma_value_models;
use crate::value::lemma_wire_seq_elem_len;
use crate::value::lemma_wire_seq_snoc;
use crate::value::value_model;
use crate::value::value_models;
use crate::value::wire;
use crate::value::wire_seq;
use crate::value::Value;
use crate::value::ValueModel;

verus! {

/// `post` is `pre` with `bytes` written at position `at` and nothing else
/// changed.
pub open spec fn wrote(pre: Seq<u8>, post: Seq<u8>, at: int, bytes: Seq<u8>) -> bool {
    &&& post.len() == pre.len()
    &&& forall|k: int|
        0 <= k < pre.len() && !(at <= k < at + bytes.len()) ==> #[trigger] post[k] == pre[k]
    &&& forall|k: int| 0 <= k < bytes.len() ==> post[at + k] == #[trigger] bytes[k]
}

/// Two consecutive writes amount to one write of the concatenation.
pub proof fn lemma_wrote_join(
    pre: Seq<u8>,
    mid: Seq<u8>,
    post: Seq<u8>,
    at: int,
    x: Seq<u8>,
    y: Seq<u8>,
)
    requires
        0 <= at,
        at + x.len() + y.len() <= pre.len(),
        wrote(pre, mid, at, x),
        wrote(mid, post, at + x.len(), y),
    ensures
        wrote(pre, post, at, x + y),
{
    assert forall|k: int| 0 <= k < (x + y).len() implies post[at + k] == #[trigger] (x + y)[k] by {
        if k < x.len() {
            assert(post[at + k] == mid[at + k]);
        } else {
            assert(post[(at + x.len()) + (k - x.len())] == y[k - x.len()]);
        }
    }
}

/// The write cursor: the number of bytes produced so far.  Created at zero
/// for one encode call and discarded at its return.
pub struct Serializer {
    /// The buffer position: everything before it has been written.
    pub idx: usize,
}

impl Serializer {
    /// A fresh cursor at the start of the buffer.
    pub fn new() -> (s: Serializer)
        ensures
            s.idx == 0,
    {
        Serializer { idx: 0 }
    }

    /// Fails with `EndOfStream` unless `len` more bytes fit in the buffer,
    /// checked with overflow-safe addition.
    pub fn check_bounds(&self, buf: &Vec<u8>, len: usize) -> (r: Result<(), Error>)
        ensures
            r is Ok <==> self.idx + len <= buf@.len(),
            r is Err ==> r->Err_0 is EndOfStream,
            buf@.len() <= usize::MAX,
    {
        let cap = buf.len();
        if let Some(total) = self.idx.checked_add(len) {
            if total <= cap {
                return Ok(());
            }
        }
        Err(Error::EndOfStream)
    }

    /// Writes one byte at the cursor.
    pub fn write_u8(&mut self, buf: &mut Vec<u8>, val: u8) -> (r: Result<(), Error>)
        ensures
            final(buf)@.len() == old(buf)@.len(),
            match r {
                Ok(_) => {
                    &&& old(self).idx + 1 <= old(buf)@.len()
                    &&& final(self).idx == old(self).idx + 1
                    &&& wrote(old(buf)@, final(buf)@, old(self).idx as int, seq![val])
                },
                Err(e) => {
                    &&& e is EndOfStream
                    &&& old(self).idx + 1 > old(buf)@.len()
                    &&& final(self).idx == old(self).idx
                    &&& final(buf)@ == old(buf)@
                },
            },
    {
        self.check_bounds(buf, 1)?;
        buf.set(self.idx, val);
        self.idx = self.idx + 1;
        Ok(())
    }

    /// Writes a 16-bit integer at the cursor, little-endian.
    pub fn write_u16(&mut self, buf: &mut Vec<u8>, val: u16) -> (r: Result<(), Error>)
        ensures
            final(buf)@.len() == old(buf)@.len(),
            match r {
                Ok(_) => {
                    &&& old(self).idx + 2 <= old(buf)@.len()
                    &&& final(self).idx == old(self).idx + 2
                    &&& wrote(old(buf)@, final(buf)@, old(self).idx as int, le_bytes_u16(val))
                },
                Err(e) => {
                    &&& e is EndOfStream
                    &&& old(self).idx + 2 > old(buf)@.len()
                    &&& final(self).idx == old(self).idx
                    &&& final(buf)@ == old(buf)@
                },
            },
    {
        self.check_bounds(buf, 2)?;
        proof {
            assert(val & 0xff < 256 && (val >> 8) & 0xff < 256) by (bit_vector);
        }
        buf.set(self.idx, (val & 0xff) as u8);
        buf.set(self.idx + 1, ((val >> 8) & 0xff) as u8);
        self.idx = self.idx + 2;
        Ok(())
    }

    /// Writes a 32-bit integer at the cursor, little-endian.
    pub fn write_u32(&mut self, buf: &mut Vec<u8>, val: u32) -> (r: Result<(), Error>)
        ensures
            final(buf)@.len() == old(buf)@.len(),
            match r {
                Ok(_) => {
                    &&& old(self).idx + 4 <= old(buf)@.len()
                    &&& final(self).idx == old(self).idx + 4
                    &&& wrote(old(buf)@, final(buf)@, old(self).idx as int, le_bytes_u32(val))
                },
                Err(e) => {
                    &&& e is EndOfStream
                    &&& old(self).idx + 4 > old(buf)@.len()
                    &&& final(self).idx == old(self).idx
                    &&& final(buf)@ == old(buf)@
                },
            },
    {
        self.check_bounds(buf, 4)?;
        proof {
            assert(val & 0xff < 256 && (val >> 8) & 0xff < 256 && (val >> 16) & 0xff < 256 && (val
                >> 24) & 0xff < 256) by (bit_vector);
        }
        buf.set(self.idx, (val & 0xff) as u8);
        buf.set(self.idx + 1, ((val >> 8) & 0xff) as u8);
        buf.set(self.idx + 2, ((val >> 16) & 0xff) as u8);
        buf.set(self.idx + 3, ((val >> 24) & 0xff) as u8);
        self.idx = self.idx + 4;
        Ok(())
    }

    /// Writes a 64-bit integer at the cursor, little-endian.
    pub fn write_u64(&mut self, buf: &mut Vec<u8>, val: u64) -> (r: Result<(), Error>)
        ensures
            final(buf)@.len() == old(buf)@.len(),
            match r {
                Ok(_) => {
                    &&& old(self).idx + 8 <= old(buf)@.len()
                    &&& final(self).idx == old(self).idx + 8
                    &&& wrote(old(buf)@, final(buf)@, old(self).idx as int, le_bytes_u64(val))
                },
                Err(e) => {
                    &&& e is EndOfStream
                    &&& old(self).idx + 8 > old(buf)@.len()
                    &&& final(self).idx == old(self).idx
                    &&& final(buf)@ == old(buf)@
                },
            },
    {
        self.check_bounds(buf, 8)?;
        proof {
            assert(val & 0xff < 256 && (val >> 8) & 0xff < 256 && (val >> 16) & 0xff < 256 && (val
                >> 24) & 0xff < 256 && (val >> 32) & 0xff < 256 && (val >> 40) & 0xff < 256 && (val
                >> 48) & 0xff < 256 && (val >> 56) & 0xff < 256) by (bit_vector);
        }
        buf.set(self.idx, (val & 0xff) as u8);
        buf.set(self.idx + 1, ((val >> 8) & 0xff) as u8);
        buf.set(self.idx + 2, ((val >> 16) & 0xff) as u8);
        buf.set(self.idx + 3, ((val >> 24) & 0xff) as u8);
        buf.set(self.idx + 4, ((val >> 32) & 0xff) as u8);
        buf.set(self.idx + 5, ((val >> 40) & 0xff) as u8);
        buf.set(self.idx + 6, ((val >> 48) & 0xff) as u8);
        buf.set(self.idx + 7, ((val >> 56) & 0xff) as u8);
        self.idx = self.idx + 8;
        Ok(())
    }

    /// Writes a machine-word integer at the cursor as a fixed 8-byte
    /// little-endian value, independent of the host word width.
    pub fn write_usize(&mut self, buf: &mut Vec<u8>, val: usize) -> (r: Result<(), Error>)
        ensures
            final(buf)@.len() == old(buf)@.len(),
            match r {
                Ok(_) => {
                    &&& old(self).idx + 8 <= old(buf)@.len()
                    &&& final(self).idx == old(self).idx + 8
                    &&& wrote(
                        old(buf)@,
                        final(buf)@,
                        old(self).idx as int,
                        le_bytes_u64(val as u64),
                    )
                },
                Err(e) => {
                    &&& e is EndOfStream
                    &&& old(self).idx + 8 > old(buf)@.len()
                    &&& final(self).idx == old(self).idx
                    &&& final(buf)@ == old(buf)@
                },
            },
    {
        self.write_u64(buf, val as u64)
    }

    /// Writes a run of raw bytes at the cursor, all or nothing.
    pub fn write_slice(&mut self, buf: &mut Vec<u8>, data: &[u8]) -> (r: Result<(), Error>)
        ensures
            final(buf)@.len() == old(buf)@.len(),
            match r {
                Ok(_) => {
                    &&& old(self).idx + data@.len() <= old(buf)@.len()
                    &&& final(self).idx == old(self).idx + data@.len()
                    &&& wrote(old(buf)@, final(buf)@, old(self).idx as int, data@)
                },
                Err(e) => {
                    &&& e is EndOfStream
                    &&& old(self).idx + data@.len() > old(buf)@.len()
                    &&& final(self).idx == old(self).idx
                    &&& final(buf)@ == old(buf)@
                },
            },
    {
        self.check_bounds(buf, data.len())?;
        let n = data.len();
        for j in 0..n
            invariant
                n == data@.len(),
                self.idx + n <= buf@.len(),
                buf@.len() <= usize::MAX,
                buf@.len() == old(buf)@.len(),
                self.idx == old(self).idx,
                forall|k: int|
                    0 <= k < buf@.len() && !(self.idx <= k < self.idx + j) ==> #[trigger] buf@[k]
                        == old(buf)@[k],
                forall|k: int| 0 <= k < j ==> buf@[self.idx + k] == #[trigger] data@[k],
        {
            buf.set(self.idx + j, data[j]);
        }
        self.idx = self.idx + n;
        Ok(())
    }

    /// Writes a character at the cursor as its 1- to 4-byte UTF-8 encoding,
    /// all or nothing.
    pub fn write_char(&mut self, buf: &mut Vec<u8>, c: char) -> (r: Result<(), Error>)
        ensures
            final(buf)@.len() == old(buf)@.len(),
            match r {
                Ok(_) => {
                    &&& old(self).idx + encode_scalar(c as u32).len() <= old(buf)@.len()
                    &&& final(self).idx == old(self).idx + encode_scalar(c as u32).len()
                    &&& wrote(
                        old(buf)@,
                        final(buf)@,
                        old(self).idx as int,
                        encode_scalar(c as u32),
                    )
                },
                Err(e) => {
                    &&& e is EndOfStream
                    &&& old(self).idx + encode_scalar(c as u32).len() > old(buf)@.len()
                    &&& final(self).idx == old(self).idx
                    &&& final(buf)@ == old(buf)@
                },
            },
    {
        proof {
            vstd::utf8::char_is_scalar(c);
        }
        let w = utf8_width(c);
        self.check_bounds(buf, w)?;
        let v = c as u32;
        proof {
            assert(v & 0x7F < 256 && (v >> 6) & 0x1F < 256 && v & 0x3F < 256 && (v >> 12) & 0x0F
                < 256 && (v >> 6) & 0x3F < 256 && (v >> 18) & 0x7 < 256 && (v >> 12) & 0x3F < 256)
                by (bit_vector);
        }
        if w == 1 {
            buf.set(self.idx, (v & 0x7F) as u8);
        } else if w == 2 {
            buf.set(self.idx, 0xC0u8 | (((v >> 6) & 0x1F) as u8));
            buf.set(self.idx + 1, 0x80u8 | ((v & 0x3F) as u8));
        } else if w == 3 {
            buf.set(self.idx, 0xE0u8 | (((v >> 12) & 0x0F) as u8));
            buf.set(self.idx + 1, 0x80u8 | (((v >> 6) & 0x3F) as u8));
            buf.set(self.idx + 2, 0x80u8 | ((v & 0x3F) as u8));
        } else {
            buf.set(self.idx, 0xF0u8 | (((v >> 18) & 0x7) as u8));
            buf.set(self.idx + 1, 0x80u8 | (((v >> 12) & 0x3F) as u8));
            buf.set(self.idx + 2, 0x80u8 | (((v >> 6) & 0x3F) as u8));
            buf.set(self.idx + 3, 0x80u8 | ((v & 0x3F) as u8));
        }
        self.idx = self.idx + w;
        Ok(())
    }

    /// Appends the wire bytes of one value at the cursor, depth-first in
    /// declared order.
    ///
    /// On success the cursor has advanced by exactly the value's wire
    /// length.  It fails with `TooManyVariants` only on a value that cannot
    /// be encoded (an enum ordinal above 255), and with `EndOfStream` only
    /// when the value's wire bytes do not fit in the buffer; bytes already
    /// written before a failure stay in place.
    #[verifier::loop_isolation(false)]
    pub fn encode_value(&mut self, buf: &mut Vec<u8>, v: &Value) -> (r: Result<(), Error>)
        requires
            old(self).idx <= old(buf)@.len(),
        ensures
            final(buf)@.len() == old(buf)@.len(),
            match r {
                Ok(_) => {
                    &&& encodable(v@)
                    &&& old(self).idx + wire(v@).len() <= old(buf)@.len()
                    &&& final(self).idx == old(self).idx + wire(v@).len()
                    &&& wrote(old(buf)@, final(buf)@, old(self).idx as int, wire(v@))
                },
                Err(e) => {
                    &&& (e is EndOfStream || e is TooManyVariants)
                    &&& !(encodable(v@) && old(self).idx + wire(v@).len() <= old(buf)@.len())
                    &&& (e is EndOfStream ==> old(self).idx + wire(v@).len() > old(buf)@.len())
                    &&& (e is TooManyVariants ==> !encodable(v@))
                },
            },
        decreases v,
    {
        match v {
            Value::Unit => Ok(()),
            Value::Bool(b) => self.write_u8(buf, if *b { 1 } else { 0 }),
            Value::U8(x) => self.write_u8(buf, *x),
            Value::U16(x) => self.write_u16(buf, *x),
            Value::U32(x) => self.write_u32(buf, *x),
            Value::U64(x) => self.write_u64(buf, *x),
            Value::I8(x) => self.write_u8(buf, #[verifier::truncate] (*x as u8)),
            Value::I16(x) => self.write_u16(buf, #[verifier::truncate] (*x as u16)),
            Value::I32(x) => self.write_u32(buf, #[verifier::truncate] (*x as u32)),
            Value::I64(x) => self.write_u64(buf, #[verifier::truncate] (*x as u64)),
            Value::Char(c) => self.write_char(buf, *c),
            Value::Text(cs) => self.encode_text(buf, cs),
            Value::Bytes(bs) => {
                let ghost pre = buf@;
                let ghost at = self.idx as int;
                match self.write_u64(buf, bs.len() as u64) {
                    Ok(()) => {}
                    Err(e) => {
                        return Err(e);
                    }
                }
                let ghost mid = buf@;
                match self.write_slice(buf, bs.as_slice()) {
                    Ok(()) => {
                        proof {
                            lemma_wrote_join(
                                pre,
                                mid,
                                buf@,
                                at,
                                le_bytes_u64(bs@.len() as u64),
                                bs@,
                            );
                        }
                        Ok(())
                    },
                    Err(e) => Err(e),
                }
            },
            Value::Maybe(o) => match o {
                None => self.write_u8(buf, 0),
                Some(b) => {
                    let ghost pre = buf@;
                    let ghost at = self.idx as int;
                    match self.write_u8(buf, 1) {
                        Ok(()) => {}
                        Err(e) => {
                            return Err(e);
                        }
                    }
                    let ghost mid = buf@;
                    match self.encode_value(buf, &**b) {
                        Ok(()) => {
                            proof {
                                lemma_wrote_join(
                                    pre,
                                    mid,
                                    buf@,
                                    at,
                                    seq![1u8],
                                    wire((&**b)@),
                                );
                            }
                            Ok(())
                        },
                        Err(e) => Err(e),
                    }
                },
            },
            Value::Tuple(vs) => {
                let ghost ms = value_models(vs@);
                match self.encode_list(buf, vs) {
                    Ok(()) => {
                        proof {
                            lemma_value_models(vs@);
                            assert(v@ == ValueModel::Tuple(ms));
                            assert(encodable(v@));
                        }
                        Ok(())
                    },
                    Err(e) => {
                        proof {
                            lemma_value_models(vs@);
                            assert(v@ == ValueModel::Tuple(ms));
                            if encodable(v@) {
                                assert forall|j: int| 0 <= j < vs@.len() implies encodable(
                                    #[trigger] value_models(vs@)[j],
                                ) by {
                                    assert(v@->Tuple_0 == ms);
                                    assert(encodable(v@->Tuple_0[j]));
                                }
                            }
                        }
                        Err(e)
                    },
                }
            },
            Value::Sequence(vs) => {
                let ghost pre = buf@;
                let ghost at = self.idx as int;
                let ghost ms = value_models(vs@);
                proof {
                    lemma_value_models(vs@);
                    assert(v@ == ValueModel::Sequence(ms));
                }
                match self.write_u64(buf, vs.len() as u64) {
                    Ok(()) => {}
                    Err(e) => {
                        return Err(e);
                    }
                }
                let ghost mid = buf@;
                match self.encode_list(buf, vs) {
                    Ok(()) => {
                        proof {
                            lemma_wrote_join(
                                pre,
                                mid,
                                buf@,
                                at,
                                le_bytes_u64(ms.len() as u64),
                                wire_seq(ms),
                            );
                            lemma_value_models(vs@);
                            assert(encodable(v@));
                        }
                        Ok(())
                    },
                    Err(e) => {
                        proof {
                            lemma_value_models(vs@);
                            if encodable(v@) {
                                assert forall|j: int| 0 <= j < vs@.len() implies encodable(
                                    #[trigger] value_models(vs@)[j],
                                ) by {
                                    assert(v@->Sequence_0 == ms);
                                    assert(encodable(v@->Sequence_0[j]));
                                }
                            }
                        }
                        Err(e)
                    },
                }
            },
            Value::Variant(ord, payload) => {
                if *ord > 255 {
                    return Err(Error::TooManyVariants);
                }
                let ghost pre = buf@;
                let ghost at = self.idx as int;
                let tag: u8 = *ord as u8;
                match self.write_u8(buf, tag) {
                    Ok(()) => {}
                    Err(e) => {
                        return Err(e);
                    }
                }
                let ghost mid = buf@;
                match self.encode_value(buf, &**payload) {
                    Ok(()) => {
                        proof {
                            lemma_wrote_join(pre, mid, buf@, at, seq![tag], wire((&**payload)@));
                        }
                        Ok(())
                    },
                    Err(e) => Err(e),
                }
            },
        }
    }

    /// Appends the wire bytes of each value of a row at the cursor, in
    /// declared order with no framing.
    #[verifier::loop_isolation(false)]
    fn encode_list(&mut self, buf: &mut Vec<u8>, vs: &Vec<Value>) -> (r: Result<(), Error>)
        requires
            old(self).idx <= old(buf)@.len(),
        ensures
            final(buf)@.len() == old(buf)@.len(),
            match r {
                Ok(_) => {
                    &&& forall|j: int|
                        0 <= j < vs@.len() ==> encodable(#[trigger] value_models(vs@)[j])
                    &&& old(self).idx + wire_seq(value_models(vs@)).len() <= old(buf)@.len()
                    &&& final(self).idx == old(self).idx + wire_seq(value_models(vs@)).len()
                    &&& wrote(
                        old(buf)@,
                        final(buf)@,
                        old(self).idx as int,
                        wire_seq(value_models(vs@)),
                    )
                },
                Err(e) => {
                    &&& (e is EndOfStream || e is TooManyVariants)
                    &&& !((forall|j: int|
                        0 <= j < vs@.len() ==> encodable(#[trigger] value_models(vs@)[j]))
                        && old(self).idx + wire_seq(value_models(vs@)).len() <= old(buf)@.len())
                    &&& (e is EndOfStream ==> old(self).idx + wire_seq(value_models(vs@)).len()
                        > old(buf)@.len())
                    &&& (e is TooManyVariants ==> !(forall|j: int|
                        0 <= j < vs@.len() ==> encodable(#[trigger] value_models(vs@)[j])))
                },
            },
        decreases vs,
    {
        let ghost pre = buf@;
        let ghost at = self.idx as int;
        let ghost ms = value_models(vs@);
        proof {
            lemma_value_models(vs@);
        }
        let n = vs.len();
        for i in 0..n
            invariant
                forall|j: int| 0 <= j < i ==> encodable(#[trigger] ms[j]),
                buf@.len() == pre.len(),
                self.idx <= buf@.len(),
                self.idx == at + wire_seq(ms.take(i as int)).len(),
                wrote(pre, buf@, at, wire_seq(ms.take(i as int))),
        {
            proof {
                assert(ms[i as int] == value_model(vs@[i as int]));
                assert(decreases_to!(vs => vs@[i as int]));
            }
            let ghost mid = buf@;
            match self.encode_value(buf, &vs[i]) {
                Ok(()) => {
                    proof {
                        lemma_wire_seq_snoc(ms, i as int);
                        lemma_wrote_join(
                            pre,
                            mid,
                            buf@,
                            at,
                            wire_seq(ms.take(i as int)),
                            wire(ms[i as int]),
                        );
                    }
                },
                Err(e) => {
                    proof {
                        lemma_wire_seq_elem_len(ms, i as int);
                    }
                    return Err(e);
                },
            }
        }
        proof {
            assert(ms.take(n as int) =~= ms);
        }
        Ok(())
    }

    /// Appends a string at the cursor: an 8-byte little-endian count of its
    /// UTF-8 bytes, then those bytes.
    #[verifier::loop_isolation(false)]
    fn encode_text(&mut self, buf: &mut Vec<u8>, cs: &Vec<char>) -> (r: Result<(), Error>)
        ensures
            final(buf)@.len() == old(buf)@.len(),
            match r {
                Ok(_) => {
                    &&& encodable(ValueModel::Text(cs@))
                    &&& old(self).idx + wire(ValueModel::Text(cs@)).len() <= old(buf)@.len()
                    &&& final(self).idx == old(self).idx + wire(ValueModel::Text(cs@)).len()
                    &&& wrote(
                        old(buf)@,
                        final(buf)@,
                        old(self).idx as int,
                        wire(ValueModel::Text(cs@)),
                    )
                },
                Err(e) => {
                    &&& e is EndOfStream
                    &&& old(self).idx + wire(ValueModel::Text(cs@)).len() > old(buf)@.len()
                },
            },
    {
        let ghost pre = buf@;
        let ghost at = self.idx as int;
        let n = cs.len();
        let mut need: u128 = 0;
        for i in 0..n
            invariant
                n == cs@.len(),
                need == encode_utf8(cs@.take(i as int)).len(),
                need <= 4 * (i as int),
        {
            let w = utf8_width(cs[i]);
            proof {
                lemma_encode_utf8_snoc(cs@, i as int);
            }
            need = need + (w as u128);
        }
        proof {
            assert(cs@.take(n as int) =~= cs@);
        }
        let cap = buf.len();
        if need > u64::MAX as u128 {
            return Err(Error::EndOfStream);
        }
        match self.write_u64(buf, need as u64) {
            Ok(()) => {}
            Err(e) => {
                return Err(e);
            }
        }
        let ghost prefix = le_bytes_u64(encode_utf8(cs@).len() as u64);
        for i in 0..n
            invariant
                n == cs@.len(),
                need == encode_utf8(cs@).len(),
                buf@.len() == pre.len(),
                buf@.len() <= usize::MAX,
                self.idx == at + 8 + encode_utf8(cs@.take(i as int)).len(),
                self.idx <= old(buf)@.len(),
                prefix == le_bytes_u64(encode_utf8(cs@).len() as u64),
                wrote(pre, buf@, at, prefix + encode_utf8(cs@.take(i as int))),
        {
            let ghost mid = buf@;
            match self.write_char(buf, cs[i]) {
                Ok(()) => {
                    proof {
                        lemma_encode_utf8_snoc(cs@, i as int);
                        lemma_wrote_join(
                            pre,
                            mid,
                            buf@,
                            at,
                            prefix + encode_utf8(cs@.take(i as int)),
                            encode_scalar(cs@[i as int] as u32),
                        );
                        assert(prefix + encode_utf8(cs@.take(i as int)) + encode_scalar(
                            cs@[i as int] as u32,
                        ) =~= prefix + encode_utf8(cs@.take(i + 1)));
                    }
                },
                Err(e) => {
                    proof {
                        lemma_encode_utf8_split(cs@, i as int);
                        let rest = cs@.skip(i as int);
                        assert(rest[0] == cs@[i as int]);
                        assert(encode_utf8(rest) == encode_scalar(rest[0] as u32) + encode_utf8(
                            rest.drop_first(),
                        ));
                    }
                    return Err(e);
                },
            }
        }
        proof {
            assert(cs@.take(n as int) =~= cs@);
        }
        Ok(())
    }
}

/// Encodes a value into the front of the buffer and returns the number of
/// bytes used.
///
/// On success the first `n` buffer bytes are exactly the value's wire bytes
/// and the rest of the buffer is untouched.  Encoding fails with
/// `TooManyVariants` only on a value with an enum ordinal above 255, and
/// with `EndOfStream` only when the value's wire bytes do not fit; a failed
/// encode is not rolled back, but the buffer keeps its length.
pub fn serialize(buf: &mut Vec<u8>, val: &Value) -> (r: Result<usize, Error>)
    ensures
        final(buf)@.len() == old(buf)@.len(),
        match r {
            Ok(n) => {
                &&& encodable(val@)
                &&& n == wire(val@).len()
                &&& n <= old(buf)@.len()
                &&& final(buf)@.subrange(0, n as int) == wire(val@)
                &&& final(buf)@.skip(n as int) == old(buf)@.skip(n as int)
            },
            Err(e) => {
                &&& (e is EndOfStream || e is TooManyVariants)
                &&& !(encodable(val@) && wire(val@).len() <= old(buf)@.len())
                &&& (e is EndOfStream ==> wire(val@).len() > old(buf)@.len())
                &&& (e is TooManyVariants ==> !encodable(val@))
            },
        },
{
    let mut cursor = Serializer::new();
    match cursor.encode_value(buf, val) {
        Ok(()) => {
            proof {
                assert(buf@.subrange(0, wire(val@).len() as int) =~= wire(val@));
                assert(buf@.skip(wire(val@).len() as int) =~= old(buf)@.skip(
                    wire(val@).len() as int,
                ));
            }
            Ok(cursor.idx)
        },
        Err(e) => Err(e),
    }
}

} // verus!
