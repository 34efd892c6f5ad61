//! Whole-value XDR codecs: [`Encode`] appends a value, [`Decode`] reads one
//! from the front of a buffer.

use vstd::prelude::*;
use vstd::utf8::{decode_utf8, encode_utf8, valid_utf8};
use crate::rpc::xdr::{
    append_bytes, append_u32, append_zeros, be_u32, be_u64, lemma_be_u32_roundtrip,
    lemma_be_u64_roundtrip, opaque_fixed_bytes, opaque_var_bytes, pad, pad_spec, padded,
    str_from_utf8, u32_from_be, u32_from_slice, u64_from_be, u64_from_slice, zeros,
};

verus! {

/// Why a value could not be decoded.
#[derive(Debug, Clone, Copy, PartialEq, Eq, Structural)]
pub enum DecodeError {
    /// The buffer is shorter than the value.
    NotEnoughBytes,
    /// A boolean other than 0 or 1; this is the value found.
    InvalidBool(u32),
    /// A string whose bytes are not UTF-8.
    InvalidUtf8,
}

/// A value that can be written as XDR.
pub trait Encode: Sized + View {
    /// The XDR bytes of a value.
    spec fn spec_encode(v: Self::V) -> Seq<u8>;

    /// Appends the XDR bytes of this value to `buf`.
    fn encode(&self, buf: &mut Vec<u8>)
        ensures
            final(buf)@ == old(buf)@ + Self::spec_encode(self@),
    ;
}

/// A value that can be read from XDR.
pub trait Decode: Sized + View {
    /// The value at the front of `buf`, or why there is none.
    spec fn spec_decode(buf: Seq<u8>) -> Result<Self::V, DecodeError>;

    /// Reads a value from the front of `buf`.
    fn decode(buf: &[u8]) -> (r: Result<Self, DecodeError>)
        ensures
            match r {
                Ok(v) => Self::spec_decode(buf@) == Ok::<Self::V, DecodeError>(v@),
                Err(e) => Self::spec_decode(buf@) == Err::<Self::V, DecodeError>(e),
            },
    ;
}

/// Number of zero bytes that bring `len` up to a multiple of four.
pub fn pad_len(len: usize) -> (p: usize)
    ensures
        p == pad_spec(len as int),
{
    pad(len)
}

/// The `u32` at the front of `buf`.
pub open spec fn decode_u32_spec(buf: Seq<u8>) -> Result<u32, DecodeError> {
    if buf.len() < 4 {
        Err(DecodeError::NotEnoughBytes)
    } else {
        Ok(u32_from_be(buf))
    }
}

/// The `u64` at the front of `buf`.
pub open spec fn decode_u64_spec(buf: Seq<u8>) -> Result<u64, DecodeError> {
    if buf.len() < 8 {
        Err(DecodeError::NotEnoughBytes)
    } else {
        Ok(u64_from_be(buf))
    }
}

/// The variable-length opaque item at the front of `buf`, padding included.
pub open spec fn decode_opaque_spec(buf: Seq<u8>) -> Result<Seq<u8>, DecodeError> {
    match decode_u32_spec(buf) {
        Err(e) => Err(e),
        Ok(n) => if buf.len() < 4 + padded(n as int) {
            Err(DecodeError::NotEnoughBytes)
        } else {
            Ok(buf.subrange(4, 4 + n))
        },
    }
}

impl Encode for u32 {
    open spec fn spec_encode(v: u32) -> Seq<u8> {
        be_u32(v)
    }

    fn encode(&self, buf: &mut Vec<u8>) {
        append_u32(buf, *self);
    }
}

impl Decode for u32 {
    open spec fn spec_decode(buf: Seq<u8>) -> Result<u32, DecodeError> {
        decode_u32_spec(buf)
    }

    fn decode(buf: &[u8]) -> (r: Result<Self, DecodeError>) {
        if buf.len() < 4 {
            return Err(DecodeError::NotEnoughBytes);
        }
        Ok(u32_from_slice(buf))
    }
}

impl Encode for i32 {
    open spec fn spec_encode(v: i32) -> Seq<u8> {
        be_u32(v as u32)
    }

    fn encode(&self, buf: &mut Vec<u8>) {
        append_u32(buf, *self as u32);
    }
}

impl Decode for i32 {
    open spec fn spec_decode(buf: Seq<u8>) -> Result<i32, DecodeError> {
        match decode_u32_spec(buf) {
            Ok(v) => Ok(v as i32),
            Err(e) => Err(e),
        }
    }

    fn decode(buf: &[u8]) -> (r: Result<Self, DecodeError>) {
        if buf.len() < 4 {
            return Err(DecodeError::NotEnoughBytes);
        }
        Ok(u32_from_slice(buf) as i32)
    }
}

impl Encode for u64 {
    open spec fn spec_encode(v: u64) -> Seq<u8> {
        be_u64(v)
    }

    fn encode(&self, buf: &mut Vec<u8>) {
        append_u32(buf, (*self >> 32u64) as u32);
        append_u32(buf, *self as u32);
        assert(final(buf)@ =~= old(buf)@ + be_u64(*self));
    }
}

impl Decode for u64 {
    open spec fn spec_decode(buf: Seq<u8>) -> Result<u64, DecodeError> {
        decode_u64_spec(buf)
    }

    fn decode(buf: &[u8]) -> (r: Result<Self, DecodeError>) {
        if buf.len() < 8 {
            return Err(DecodeError::NotEnoughBytes);
        }
        Ok(u64_from_slice(buf))
    }
}

impl Encode for i64 {
    open spec fn spec_encode(v: i64) -> Seq<u8> {
        be_u64(v as u64)
    }

    fn encode(&self, buf: &mut Vec<u8>) {
        let u = *self as u64;
        append_u32(buf, (u >> 32u64) as u32);
        append_u32(buf, u as u32);
        assert(final(buf)@ =~= old(buf)@ + be_u64(u));
    }
}

impl Decode for i64 {
    open spec fn spec_decode(buf: Seq<u8>) -> Result<i64, DecodeError> {
        match decode_u64_spec(buf) {
            Ok(v) => Ok(v as i64),
            Err(e) => Err(e),
        }
    }

    fn decode(buf: &[u8]) -> (r: Result<Self, DecodeError>) {
        if buf.len() < 8 {
            return Err(DecodeError::NotEnoughBytes);
        }
        Ok(u64_from_slice(buf) as i64)
    }
}

impl Encode for bool {
    open spec fn spec_encode(v: bool) -> Seq<u8> {
        be_u32(if v { 1 } else { 0 })
    }

    fn encode(&self, buf: &mut Vec<u8>) {
        append_u32(buf, if *self { 1 } else { 0 });
    }
}

impl Decode for bool {
    /// 0 is false, 1 is true, anything else is refused.
    open spec fn spec_decode(buf: Seq<u8>) -> Result<bool, DecodeError> {
        match decode_u32_spec(buf) {
            Err(e) => Err(e),
            Ok(v) => if v == 0 {
                Ok(false)
            } else if v == 1 {
                Ok(true)
            } else {
                Err(DecodeError::InvalidBool(v))
            },
        }
    }

    fn decode(buf: &[u8]) -> (r: Result<Self, DecodeError>) {
        match u32::decode(buf)? {
            0 => Ok(false),
            1 => Ok(true),
            v => Err(DecodeError::InvalidBool(v)),
        }
    }
}

impl Encode for () {
    open spec fn spec_encode(v: ()) -> Seq<u8> {
        Seq::empty()
    }

    fn encode(&self, _buf: &mut Vec<u8>) {
        assert(_buf@ =~= old(_buf)@ + Seq::<u8>::empty());
    }
}

impl Decode for () {
    open spec fn spec_decode(buf: Seq<u8>) -> Result<(), DecodeError> {
        Ok(())
    }

    fn decode(_buf: &[u8]) -> (r: Result<Self, DecodeError>) {
        Ok(())
    }
}

impl Encode for Vec<u8> {
    open spec fn spec_encode(v: Seq<u8>) -> Seq<u8> {
        opaque_var_bytes(v)
    }

    fn encode(&self, buf: &mut Vec<u8>) {
        append_u32(buf, #[verifier::truncate] (self.len() as u32));
        append_bytes(buf, self.as_slice());
        append_zeros(buf, pad_len(self.len()));
        assert(final(buf)@ =~= old(buf)@ + opaque_var_bytes(self@));
    }
}

fn decode_opaque(buf: &[u8]) -> (r: Result<&[u8], DecodeError>)
    ensures
        match r {
            Ok(v) => decode_opaque_spec(buf@) == Ok::<Seq<u8>, DecodeError>(v@),
            Err(e) => decode_opaque_spec(buf@) == Err::<Seq<u8>, DecodeError>(e),
        },
{
    let len = u32::decode(buf)? as u64;
    let pad = pad_len(len as usize) as u64;
    if (buf.len() as u64) < 4 + len + pad {
        return Err(DecodeError::NotEnoughBytes);
    }
    Ok(vstd::slice::slice_subrange(buf, 4, 4 + len as usize))
}

impl Decode for Vec<u8> {
    open spec fn spec_decode(buf: Seq<u8>) -> Result<Seq<u8>, DecodeError> {
        decode_opaque_spec(buf)
    }

    fn decode(buf: &[u8]) -> (r: Result<Self, DecodeError>) {
        let v = decode_opaque(buf)?;
        Ok(vstd::slice::slice_to_vec(v))
    }
}

impl Encode for String {
    open spec fn spec_encode(v: Seq<char>) -> Seq<u8> {
        opaque_var_bytes(encode_utf8(v))
    }

    fn encode(&self, buf: &mut Vec<u8>) {
        let bytes = self.as_str().as_bytes();
        append_u32(buf, #[verifier::truncate] (bytes.len() as u32));
        append_bytes(buf, bytes);
        append_zeros(buf, pad_len(bytes.len()));
        assert(final(buf)@ =~= old(buf)@ + opaque_var_bytes(encode_utf8(self@)));
    }
}

impl Decode for String {
    /// The opaque item at the front of `buf`, which must be UTF-8.
    open spec fn spec_decode(buf: Seq<u8>) -> Result<Seq<char>, DecodeError> {
        match decode_opaque_spec(buf) {
            Err(e) => Err(e),
            Ok(b) => if valid_utf8(b) {
                Ok(decode_utf8(b))
            } else {
                Err(DecodeError::InvalidUtf8)
            },
        }
    }

    fn decode(buf: &[u8]) -> (r: Result<Self, DecodeError>) {
        let v = decode_opaque(buf)?;
        match str_from_utf8(v) {
            Some(s) => {
                proof {
                    vstd::utf8::encode_utf8_decode_utf8(s@);
                }
                Ok(s.to_owned())
            },
            None => Err(DecodeError::InvalidUtf8),
        }
    }
}

impl Encode for [u8; 32] {
    open spec fn spec_encode(v: Seq<u8>) -> Seq<u8> {
        opaque_fixed_bytes(v)
    }

    fn encode(&self, buf: &mut Vec<u8>) {
        append_bytes(buf, self);
        append_zeros(buf, pad_len(32));
        assert(final(buf)@ =~= old(buf)@ + opaque_fixed_bytes(self@));
    }
}

impl Decode for [u8; 32] {
    /// The first 32 bytes of `buf`.
    open spec fn spec_decode(buf: Seq<u8>) -> Result<Seq<u8>, DecodeError> {
        if buf.len() < 32 {
            Err(DecodeError::NotEnoughBytes)
        } else {
            Ok(buf.take(32))
        }
    }

    fn decode(buf: &[u8]) -> (r: Result<Self, DecodeError>) {
        if buf.len() < 32 {
            return Err(DecodeError::NotEnoughBytes);
        }
        let mut arr = [0u8; 32];
        let mut i: usize = 0;
        while i < 32
            invariant
                i <= 32,
                buf@.len() >= 32,
                arr@.len() == 32,
                forall|j: int| 0 <= j < i ==> arr@[j] == buf@[j],
            decreases 32 - i,
        {
            arr[i] = buf[i];
            i = i + 1;
        }
        assert(arr@ =~= buf@.take(32));
        Ok(arr)
    }
}

proof fn lemma_front_u32(v: u32, rest: Seq<u8>)
    ensures
        decode_u32_spec(be_u32(v) + rest) == Ok::<u32, DecodeError>(v),
{
    lemma_be_u32_roundtrip(v);
    let b = be_u32(v) + rest;
    assert(b.subrange(0, 4) =~= be_u32(v));
    assert(u32_from_be(b) == u32_from_be(b.subrange(0, 4)));
}

proof fn lemma_front_u64(v: u64, rest: Seq<u8>)
    ensures
        decode_u64_spec(be_u64(v) + rest) == Ok::<u64, DecodeError>(v),
{
    lemma_be_u64_roundtrip(v);
    let b = be_u64(v) + rest;
    assert(b.subrange(0, 8) =~= be_u64(v));
    assert(b.subrange(4, 8) =~= be_u64(v).subrange(4, 8));
    assert(u32_from_be(b) == u32_from_be(be_u64(v)));
}

/// Every integer and boolean reads back as itself from what was written for
/// it, whatever follows.
pub proof fn lemma_scalars_roundtrip(a: u32, b: i32, c: u64, d: i64, e: bool, rest: Seq<u8>)
    ensures
        <u32 as Decode>::spec_decode(<u32 as Encode>::spec_encode(a) + rest) == Ok::<u32, DecodeError>(a),
        <i32 as Decode>::spec_decode(<i32 as Encode>::spec_encode(b) + rest) == Ok::<i32, DecodeError>(b),
        <u64 as Decode>::spec_decode(<u64 as Encode>::spec_encode(c) + rest) == Ok::<u64, DecodeError>(c),
        <i64 as Decode>::spec_decode(<i64 as Encode>::spec_encode(d) + rest) == Ok::<i64, DecodeError>(d),
        <bool as Decode>::spec_decode(<bool as Encode>::spec_encode(e) + rest) == Ok::<bool, DecodeError>(e),
{
    lemma_front_u32(a, rest);
    lemma_front_u32(b as u32, rest);
    assert((b as u32) as i32 == b) by (bit_vector);
    lemma_front_u64(c, rest);
    lemma_front_u64(d as u64, rest);
    assert((d as u64) as i64 == d) by (bit_vector);
    lemma_front_u32(if e { 1 } else { 0 }, rest);
}

proof fn lemma_front_opaque(v: Seq<u8>, rest: Seq<u8>)
    requires
        v.len() <= u32::MAX,
    ensures
        decode_opaque_spec(opaque_var_bytes(v) + rest) == Ok::<Seq<u8>, DecodeError>(v),
{
    let n = v.len() as u32;
    let b = opaque_var_bytes(v) + rest;
    assert(b =~= be_u32(n) + (v + zeros(pad_spec(v.len() as int)) + rest));
    lemma_front_u32(n, v + zeros(pad_spec(v.len() as int)) + rest);
    assert(b.subrange(4, 4 + n) =~= v);
}

/// Byte strings whose length fits the count, and strings whose UTF-8 does,
/// read back as themselves from what was written for them, whatever follows.
pub proof fn lemma_opaque_roundtrip(v: Seq<u8>, s: Seq<char>, rest: Seq<u8>)
    requires
        v.len() <= u32::MAX,
        encode_utf8(s).len() <= u32::MAX,
    ensures
        <Vec<u8> as Decode>::spec_decode(<Vec<u8> as Encode>::spec_encode(v) + rest) == Ok::<
            Seq<u8>,
            DecodeError,
        >(v),
        <String as Decode>::spec_decode(<String as Encode>::spec_encode(s) + rest) == Ok::<
            Seq<char>,
            DecodeError,
        >(s),
{
    lemma_front_opaque(v, rest);
    lemma_front_opaque(encode_utf8(s), rest);
    vstd::utf8::encode_utf8_valid_utf8(s);
    vstd::utf8::encode_utf8_decode_utf8(s);
}

/// A 32-byte array reads back as itself from what was written for it.
pub proof fn lemma_array_roundtrip(v: Seq<u8>, rest: Seq<u8>)
    requires
        v.len() == 32,
    ensures
        <[u8; 32] as Decode>::spec_decode(<[u8; 32] as Encode>::spec_encode(v) + rest) == Ok::<
            Seq<u8>,
            DecodeError,
        >(v),
{
    assert((opaque_fixed_bytes(v) + rest).take(32) =~= v);
}

} // verus!
