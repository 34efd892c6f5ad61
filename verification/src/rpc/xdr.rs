//! XDR primitives (RFC 1014): a cursor that reads big-endian items from a
//! byte slice, and a buffer that appends them.

use vstd::prelude::*;
use vstd::string::StringSliceAdditionalSpecFns;
use vstd::utf8::{decode_utf8, encode_utf8, valid_utf8};

verus! {

/// The RPC protocol version this server speaks.
pub const RPC_VERSION: u32 = 2;

/// Number of zero bytes that bring `len` up to a multiple of four.
pub open spec fn pad_spec(len: int) -> int {
    (4 - len % 4) % 4
}

/// `len` rounded up to a multiple of four.
pub open spec fn padded(len: int) -> int {
    len + pad_spec(len)
}

/// The four big-endian bytes of `v`.
pub open spec fn be_u32(v: u32) -> Seq<u8> {
    seq![(v >> 24u32) as u8, (v >> 16u32) as u8, (v >> 8u32) as u8, v as u8]
}

/// The big-endian value of the first four bytes of `b`.
pub open spec fn u32_from_be(b: Seq<u8>) -> u32 {
    ((b[0] as u32) << 24u32) | ((b[1] as u32) << 16u32) | ((b[2] as u32) << 8u32) | (b[3] as u32)
}

pub proof fn lemma_be_u32_roundtrip(v: u32)
    ensures
        u32_from_be(be_u32(v)) == v,
        be_u32(v).len() == 4,
{
    let b = be_u32(v);
    let b0 = (v >> 24u32) as u8;
    let b1 = (v >> 16u32) as u8;
    let b2 = (v >> 8u32) as u8;
    let b3 = v as u8;
    assert(b[0] == b0 && b[1] == b1 && b[2] == b2 && b[3] == b3);
    assert(((b0 as u32) << 24u32) | ((b1 as u32) << 16u32) | ((b2 as u32) << 8u32) | (b3 as u32)
        == v) by (bit_vector)
        requires
            b0 == (v >> 24u32) as u8,
            b1 == (v >> 16u32) as u8,
            b2 == (v >> 8u32) as u8,
            b3 == v as u8,
    ;
}

pub proof fn lemma_u32_from_be_roundtrip(b: Seq<u8>)
    requires
        b.len() == 4,
    ensures
        be_u32(u32_from_be(b)) == b,
{
    let b0 = b[0];
    let b1 = b[1];
    let b2 = b[2];
    let b3 = b[3];
    let v = u32_from_be(b);
    assert(v == ((b0 as u32) << 24u32) | ((b1 as u32) << 16u32) | ((b2 as u32) << 8u32) | (b3 as u32));
    assert((v >> 24u32) as u8 == b0 && (v >> 16u32) as u8 == b1 && (v >> 8u32) as u8 == b2
        && v as u8 == b3) by (bit_vector)
        requires
            v == ((b0 as u32) << 24u32) | ((b1 as u32) << 16u32) | ((b2 as u32) << 8u32) | (b3 as u32),
    ;
    assert(be_u32(v) =~= b);
}

/// Number of zero bytes that bring `len` up to a multiple of four.
pub(crate) fn pad(len: usize) -> (p: usize)
    ensures
        p == pad_spec(len as int),
        p < 4,
{
    (4 - (len % 4)) % 4
}

fn u32_to_be(v: u32) -> (b: [u8; 4])
    ensures
        b@ == be_u32(v),
{
    let b = [(v >> 24u32) as u8, (v >> 16u32) as u8, (v >> 8u32) as u8, v as u8];
    assert(b@ =~= be_u32(v));
    b
}

/// The big-endian `u32` in the first four bytes of `b`.
pub(crate) fn u32_from_slice(b: &[u8]) -> (r: u32)
    requires
        b@.len() >= 4,
    ensures
        r == u32_from_be(b@),
{
    ((b[0] as u32) << 24u32) | ((b[1] as u32) << 16u32) | ((b[2] as u32) << 8u32) | (b[3] as u32)
}

/// The big-endian `u64` in the first eight bytes of `b`.
pub(crate) fn u64_from_slice(b: &[u8]) -> (r: u64)
    requires
        b@.len() >= 8,
    ensures
        r == u64_from_be(b@),
{
    let hi = u32_from_slice(b);
    let lo = ((b[4] as u32) << 24u32) | ((b[5] as u32) << 16u32) | ((b[6] as u32) << 8u32) | (
    b[7] as u32);
    assert(b@.subrange(4, 8)[0] == b@[4] && b@.subrange(4, 8)[1] == b@[5]
        && b@.subrange(4, 8)[2] == b@[6] && b@.subrange(4, 8)[3] == b@[7]);
    ((hi as u64) << 32u64) | (lo as u64)
}

/// Appends the four big-endian bytes of `v` to `buf`.
pub(crate) fn append_u32(buf: &mut Vec<u8>, v: u32)
    ensures
        final(buf)@ == old(buf)@ + be_u32(v),
{
    let b = u32_to_be(v);
    append_bytes(buf, &b);
}


/// The eight big-endian bytes of `v`.
pub open spec fn be_u64(v: u64) -> Seq<u8> {
    be_u32((v >> 32u64) as u32) + be_u32(v as u32)
}

/// The big-endian value of the first eight bytes of `b`.
pub open spec fn u64_from_be(b: Seq<u8>) -> u64 {
    ((u32_from_be(b) as u64) << 32u64) | (u32_from_be(b.subrange(4, 8)) as u64)
}

pub proof fn lemma_be_u64_roundtrip(v: u64)
    ensures
        u64_from_be(be_u64(v)) == v,
        be_u64(v).len() == 8,
{
    let hi = (v >> 32u64) as u32;
    let lo = v as u32;
    lemma_be_u32_roundtrip(hi);
    lemma_be_u32_roundtrip(lo);
    let b = be_u64(v);
    assert(b.subrange(0, 4) =~= be_u32(hi));
    assert(b.subrange(4, 8) =~= be_u32(lo));
    assert(u32_from_be(b) == u32_from_be(b.subrange(0, 4)));
    assert(((hi as u64) << 32u64) | (lo as u64) == v) by (bit_vector)
        requires
            hi == (v >> 32u64) as u32,
            lo == v as u32,
    ;
}

/// `n` zero bytes.
pub open spec fn zeros(n: int) -> Seq<u8> {
    Seq::new(n as nat, |i: int| 0u8)
}

/// A variable-length opaque item: its length as a four-byte count, the bytes,
/// then zero padding up to a multiple of four.
pub open spec fn opaque_var_bytes(v: Seq<u8>) -> Seq<u8> {
    be_u32(v.len() as u32) + v + zeros(pad_spec(v.len() as int))
}

/// A fixed-length opaque item: the bytes, then zero padding.
pub open spec fn opaque_fixed_bytes(v: Seq<u8>) -> Seq<u8> {
    v + zeros(pad_spec(v.len() as int))
}

/// The concatenated big-endian encodings of `s`.
pub open spec fn be_u32_seq(s: Seq<u32>) -> Seq<u8>
    decreases s.len(),
{
    if s.len() == 0 {
        Seq::empty()
    } else {
        be_u32_seq(s.drop_last()) + be_u32(s.last())
    }
}

/// A variable-length array of `u32`: the count, then each item.
pub open spec fn u32_array_bytes(s: Seq<u32>) -> Seq<u8> {
    be_u32(s.len() as u32) + be_u32_seq(s)
}

/// Appends `s` to `buf`.
pub(crate) fn append_bytes(buf: &mut Vec<u8>, s: &[u8])
    ensures
        final(buf)@ == old(buf)@ + s@,
{
    let mut i: usize = 0;
    while i < s.len()
        invariant
            i <= s@.len(),
            buf@ == old(buf)@ + s@.subrange(0, i as int),
        decreases s@.len() - i,
    {
        buf.push(s[i]);
        i = i + 1;
        assert(s@.subrange(0, i as int) =~= s@.subrange(0, i - 1) + seq![s@[i - 1]]);
    }
    assert(s@.subrange(0, s@.len() as int) =~= s@);
}

/// Appends `n` zero bytes to `buf`.
pub(crate) fn append_zeros(buf: &mut Vec<u8>, n: usize)
    ensures
        final(buf)@ == old(buf)@ + zeros(n as int),
{
    let mut i: usize = 0;
    while i < n
        invariant
            i <= n,
            buf@ == old(buf)@ + zeros(i as int),
        decreases n - i,
    {
        buf.push(0u8);
        i = i + 1;
        assert(zeros(i as int) =~= zeros(i - 1) + seq![0u8]);
    }
}

/// A growing buffer of XDR items.
pub struct XdrEncoder {
    buf: Vec<u8>,
}

impl View for XdrEncoder {
    type V = Seq<u8>;

    closed spec fn view(&self) -> Seq<u8> {
        self.buf@
    }
}

impl XdrEncoder {
    /// An empty buffer.
    pub fn new() -> (e: Self)
        ensures
            e@ == Seq::<u8>::empty(),
    {
        XdrEncoder { buf: Vec::new() }
    }

    /// Appends `v` as four big-endian bytes.
    pub fn put_u32(&mut self, v: u32)
        ensures
            final(self)@ == old(self)@ + be_u32(v),
    {
        append_u32(&mut self.buf, v);
    }

    /// Appends `v` in two's complement as four big-endian bytes.
    pub fn put_i32(&mut self, v: i32)
        ensures
            final(self)@ == old(self)@ + be_u32(v as u32),
    {
        self.put_u32(v as u32);
    }

    /// Appends `v` as eight big-endian bytes.
    pub fn put_u64(&mut self, v: u64)
        ensures
            final(self)@ == old(self)@ + be_u64(v),
    {
        self.put_u32((v >> 32u64) as u32);
        self.put_u32(v as u32);
        assert(self.buf@ =~= old(self)@ + be_u64(v));
    }

    /// Appends `v` as the four-byte integer 1 or 0.
    pub fn put_bool(&mut self, v: bool)
        ensures
            final(self)@ == old(self)@ + be_u32(if v { 1 } else { 0 }),
    {
        self.put_u32(if v { 1 } else { 0 });
    }

    /// Appends the bytes of `v`, then zero padding to a multiple of four.
    pub fn put_opaque_fixed(&mut self, v: &[u8])
        ensures
            final(self)@ == old(self)@ + opaque_fixed_bytes(v@),
    {
        append_bytes(&mut self.buf, v);
        let p = pad(v.len());
        append_zeros(&mut self.buf, p);
        assert(self.buf@ =~= old(self)@ + opaque_fixed_bytes(v@));
    }

    /// Appends the length of `v` (taken modulo 2^32), the bytes of `v`, then
    /// zero padding to a multiple of four.
    pub fn put_opaque_var(&mut self, v: &[u8])
        ensures
            final(self)@ == old(self)@ + opaque_var_bytes(v@),
    {
        let n = #[verifier::truncate] (v.len() as u32);
        self.put_u32(n);
        append_bytes(&mut self.buf, v);
        let p = pad(v.len());
        append_zeros(&mut self.buf, p);
        assert(self.buf@ =~= old(self)@ + opaque_var_bytes(v@));
    }

    /// Appends the UTF-8 bytes of `v` as a variable-length opaque item.
    pub fn put_string(&mut self, v: &str)
        ensures
            final(self)@ == old(self)@ + opaque_var_bytes(v.spec_bytes()),
    {
        self.put_opaque_var(v.as_bytes());
    }

    /// Appends the count of `v` (modulo 2^32), then each item.
    pub fn put_u32_array(&mut self, v: &[u32])
        ensures
            final(self)@ == old(self)@ + u32_array_bytes(v@),
    {
        let n = #[verifier::truncate] (v.len() as u32);
        self.put_u32(n);
        let ghost start = self.buf@;
        let mut i: usize = 0;
        while i < v.len()
            invariant
                i <= v@.len(),
                self.buf@ == start + be_u32_seq(v@.subrange(0, i as int)),
            decreases v@.len() - i,
        {
            self.put_u32(v[i]);
            i = i + 1;
            assert(v@.subrange(0, i as int).drop_last() =~= v@.subrange(0, i - 1));
        }
        assert(v@.subrange(0, v@.len() as int) =~= v@);
        assert(self.buf@ =~= old(self)@ + u32_array_bytes(v@));
    }

    /// Appends `v` as it is.
    pub fn put_raw(&mut self, v: &[u8])
        ensures
            final(self)@ == old(self)@ + v@,
    {
        append_bytes(&mut self.buf, v);
    }

    /// The bytes written so far.
    pub fn into_bytes(self) -> (b: Vec<u8>)
        ensures
            b@ == self@,
    {
        self.buf
    }
}

impl Default for XdrEncoder {
    fn default() -> (e: Self)
        ensures
            e@ == Seq::<u8>::empty(),
    {
        Self::new()
    }
}


/// What can go wrong while reading XDR items.
#[derive(Debug, Clone, Copy, PartialEq, Eq, Structural)]
pub enum XdrError {
    /// The buffer ends before the item does.
    Eof,
    /// The bytes are there but do not form the item (a string that is not UTF-8).
    Malformed,
    /// A discriminant that names no variant.
    BadDiscriminant(u32),
    /// A call for an RPC version other than [`RPC_VERSION`].
    UnsupportedRpcVersion(u32),
    /// A reply where a call was expected.
    UnexpectedMsgType,
}

/// The `u32` at `pos` and the position after it, if the buffer holds it.
pub open spec fn read_u32_spec(bytes: Seq<u8>, pos: int) -> Option<(u32, int)> {
    if pos + 4 <= bytes.len() {
        Some((u32_from_be(bytes.subrange(pos, pos + 4)), pos + 4))
    } else {
        None
    }
}

/// The `u64` at `pos` and the position after it, if the buffer holds it.
pub open spec fn read_u64_spec(bytes: Seq<u8>, pos: int) -> Option<(u64, int)> {
    if pos + 8 <= bytes.len() {
        Some((u64_from_be(bytes.subrange(pos, pos + 8)), pos + 8))
    } else {
        None
    }
}

/// The `len` bytes at `pos` and the position after them and the zero to
/// three padding bytes that align that position, if the buffer holds the
/// bytes and their padding.
pub open spec fn read_opaque_fixed_spec(bytes: Seq<u8>, pos: int, len: int) -> Option<(Seq<u8>, int)> {
    if padded(pos + len) <= bytes.len() {
        Some((bytes.subrange(pos, pos + len), padded(pos + len)))
    } else {
        None
    }
}

/// A length-prefixed opaque item at `pos`.
pub open spec fn read_opaque_var_spec(bytes: Seq<u8>, pos: int) -> Option<(Seq<u8>, int)> {
    match read_u32_spec(bytes, pos) {
        Some((n, p)) => read_opaque_fixed_spec(bytes, p, n as int),
        None => None,
    }
}

/// Where the cursor stands after a failed read of a length-prefixed item at
/// `pos`: past the count if the count was there, else at `pos`.
pub open spec fn cursor_after_failed_var(bytes: Seq<u8>, pos: int) -> int {
    if pos + 4 <= bytes.len() {
        pos + 4
    } else {
        pos
    }
}

/// The `n` big-endian `u32` items that start at `pos`.
pub open spec fn u32_items(bytes: Seq<u8>, pos: int, n: int) -> Seq<u32> {
    Seq::new(n as nat, |i: int| u32_from_be(bytes.subrange(pos + 4 * i, pos + 4 * i + 4)))
}

/// A counted array of `u32` at `pos`, if the buffer holds all of it.
pub open spec fn read_u32_array_spec(bytes: Seq<u8>, pos: int) -> Option<(Seq<u32>, int)> {
    match read_u32_spec(bytes, pos) {
        Some((n, p)) => if p + 4 * n <= bytes.len() {
            Some((u32_items(bytes, p, n as int), p + 4 * n))
        } else {
            None
        },
        None => None,
    }
}

/// Where the cursor stands after a failed read of a counted array at `pos`:
/// past the count and every whole item that the buffer holds.
pub open spec fn cursor_after_failed_array(bytes: Seq<u8>, pos: int) -> int {
    if pos + 4 <= bytes.len() {
        pos + 4 + 4 * ((bytes.len() - (pos + 4)) / 4)
    } else {
        pos
    }
}

/// Wraps `std::str::from_utf8`, which succeeds exactly when `bytes` is valid
/// UTF-8 and then returns the same bytes viewed as a `str`.
#[verifier::external_body]
pub(crate) fn str_from_utf8<'a>(bytes: &'a [u8]) -> (r: Option<&'a str>)
    ensures
        r is Some <==> valid_utf8(bytes@),
        r matches Some(s) ==> s.spec_bytes() == bytes@,
{
    std::str::from_utf8(bytes).ok()
}

/// A cursor over a byte slice that reads XDR items in order. The cursor never
/// passes the end of the slice.
pub struct XdrDecoder<'a> {
    buf: &'a [u8],
    pos: usize,
}

impl<'a> XdrDecoder<'a> {
    #[verifier::type_invariant]
    spec fn cursor_in_bounds(self) -> bool {
        self.pos <= self.buf@.len()
    }

    /// The bytes being read.
    pub closed spec fn bytes(&self) -> Seq<u8> {
        self.buf@
    }

    /// The offset of the next item.
    pub closed spec fn cursor(&self) -> int {
        self.pos as int
    }

    /// A cursor at the start of `buf`.
    pub fn new(buf: &'a [u8]) -> (d: Self)
        ensures
            d.bytes() == buf@,
            d.cursor() == 0,
    {
        XdrDecoder { buf, pos: 0 }
    }

    /// The offset of the next item.
    pub fn pos(&self) -> (p: usize)
        ensures
            p == self.cursor(),
            p <= self.bytes().len(),
    {
        proof {
            use_type_invariant(self);
        }
        self.pos
    }

    /// The bytes from the cursor to the end.
    pub fn remaining(&self) -> (r: &'a [u8])
        ensures
            r@ == self.bytes().subrange(self.cursor(), self.bytes().len() as int),
    {
        proof {
            use_type_invariant(self);
        }
        vstd::slice::slice_subrange(self.buf, self.pos, self.buf.len())
    }

    fn align(&mut self)
        requires
            padded(old(self).cursor()) <= old(self).bytes().len(),
        ensures
            final(self).bytes() == old(self).bytes(),
            final(self).cursor() == padded(old(self).cursor()),
    {
        proof {
            use_type_invariant(&*self);
        }
        let p = pad(self.pos);
        let total = self.buf.len();
        assert(self.pos + p <= total);
        self.pos = self.pos + p;
    }

    fn need(&self, n: usize) -> (r: Result<(), XdrError>)
        ensures
            r is Ok <==> self.cursor() + n <= self.bytes().len(),
            r matches Err(e) ==> e == XdrError::Eof,
    {
        proof {
            use_type_invariant(self);
        }
        if n > self.buf.len() - self.pos {
            Err(XdrError::Eof)
        } else {
            Ok(())
        }
    }

    fn take(&mut self, n: usize) -> (r: Result<&'a [u8], XdrError>)
        ensures
            final(self).bytes() == old(self).bytes(),
            match r {
                Ok(s) => old(self).cursor() + n <= old(self).bytes().len()
                    && s@ == old(self).bytes().subrange(old(self).cursor(), old(self).cursor() + n)
                    && final(self).cursor() == old(self).cursor() + n,
                Err(e) => old(self).cursor() + n > old(self).bytes().len() && e == XdrError::Eof
                    && final(self).cursor() == old(self).cursor(),
            },
    {
        proof {
            use_type_invariant(&*self);
        }
        self.need(n)?;
        let total = self.buf.len();
        assert(self.pos + n <= total);
        let slice = vstd::slice::slice_subrange(self.buf, self.pos, self.pos + n);
        self.pos = self.pos + n;
        Ok(slice)
    }

    /// Reads a big-endian `u32`.
    pub fn read_u32(&mut self) -> (r: Result<u32, XdrError>)
        ensures
            final(self).bytes() == old(self).bytes(),
            match read_u32_spec(old(self).bytes(), old(self).cursor()) {
                Some((v, p)) => r == Ok::<u32, XdrError>(v) && final(self).cursor() == p,
                None => r == Err::<u32, XdrError>(XdrError::Eof)
                    && final(self).cursor() == old(self).cursor(),
            },
    {
        let s = self.take(4)?;
        Ok(u32_from_slice(s))
    }

    /// Reads a big-endian two's complement `i32`.
    pub fn read_i32(&mut self) -> (r: Result<i32, XdrError>)
        ensures
            final(self).bytes() == old(self).bytes(),
            match read_u32_spec(old(self).bytes(), old(self).cursor()) {
                Some((v, p)) => r == Ok::<i32, XdrError>(v as i32) && final(self).cursor() == p,
                None => r == Err::<i32, XdrError>(XdrError::Eof)
                    && final(self).cursor() == old(self).cursor(),
            },
    {
        let v = self.read_u32()?;
        Ok(v as i32)
    }

    /// Reads a big-endian `u64`.
    pub fn read_u64(&mut self) -> (r: Result<u64, XdrError>)
        ensures
            final(self).bytes() == old(self).bytes(),
            match read_u64_spec(old(self).bytes(), old(self).cursor()) {
                Some((v, p)) => r == Ok::<u64, XdrError>(v) && final(self).cursor() == p,
                None => r == Err::<u64, XdrError>(XdrError::Eof)
                    && final(self).cursor() == old(self).cursor(),
            },
    {
        let s = self.take(8)?;
        Ok(u64_from_slice(s))
    }

    /// Reads a boolean: any nonzero `u32` is true.
    pub fn read_bool(&mut self) -> (r: Result<bool, XdrError>)
        ensures
            final(self).bytes() == old(self).bytes(),
            match read_u32_spec(old(self).bytes(), old(self).cursor()) {
                Some((v, p)) => r == Ok::<bool, XdrError>(v != 0) && final(self).cursor() == p,
                None => r == Err::<bool, XdrError>(XdrError::Eof)
                    && final(self).cursor() == old(self).cursor(),
            },
    {
        Ok(self.read_u32()? != 0)
    }

    /// Reads `len` bytes and the padding after them, up to the next multiple
    /// of four.
    pub fn read_opaque_fixed(&mut self, len: usize) -> (r: Result<&'a [u8], XdrError>)
        ensures
            final(self).bytes() == old(self).bytes(),
            match read_opaque_fixed_spec(old(self).bytes(), old(self).cursor(), len as int) {
                Some((v, p)) => r matches Ok(s) && s@ == v && final(self).cursor() == p,
                None => r == Err::<&'a [u8], XdrError>(XdrError::Eof)
                    && final(self).cursor() == old(self).cursor(),
            },
    {
        proof {
            use_type_invariant(&*self);
        }
        self.need(len)?;
        let total = self.buf.len();
        assert(self.pos + len <= total);
        let end = self.pos + len;
        if pad(end) > total - end {
            return Err(XdrError::Eof);
        }
        let data = self.take(len)?;
        self.align();
        Ok(data)
    }

    /// Reads a length-prefixed opaque item.
    pub fn read_opaque_var(&mut self) -> (r: Result<&'a [u8], XdrError>)
        ensures
            final(self).bytes() == old(self).bytes(),
            match read_opaque_var_spec(old(self).bytes(), old(self).cursor()) {
                Some((v, p)) => r matches Ok(s) && s@ == v && final(self).cursor() == p,
                None => r == Err::<&'a [u8], XdrError>(XdrError::Eof)
                    && final(self).cursor() == cursor_after_failed_var(old(self).bytes(), old(self).cursor()),
            },
    {
        let len = self.read_u32()? as usize;
        self.read_opaque_fixed(len)
    }

    /// Reads a length-prefixed UTF-8 string.
    pub fn read_string(&mut self) -> (r: Result<&'a str, XdrError>)
        ensures
            final(self).bytes() == old(self).bytes(),
            match read_opaque_var_spec(old(self).bytes(), old(self).cursor()) {
                Some((v, p)) => final(self).cursor() == p && if valid_utf8(v) {
                    r matches Ok(s) && s.spec_bytes() == v && s@ == decode_utf8(v)
                } else {
                    r == Err::<&'a str, XdrError>(XdrError::Malformed)
                },
                None => r == Err::<&'a str, XdrError>(XdrError::Eof)
                    && final(self).cursor() == cursor_after_failed_var(old(self).bytes(), old(self).cursor()),
            },
    {
        let len = self.read_u32()? as usize;
        let bytes = self.read_opaque_fixed(len)?;
        match str_from_utf8(bytes) {
            Some(s) => {
                proof {
                    vstd::utf8::encode_utf8_decode_utf8(s@);
                }
                Ok(s)
            },
            None => Err(XdrError::Malformed),
        }
    }

    /// Reads a counted array of `u32`.
    pub fn read_u32_array(&mut self) -> (r: Result<Vec<u32>, XdrError>)
        ensures
            final(self).bytes() == old(self).bytes(),
            match read_u32_array_spec(old(self).bytes(), old(self).cursor()) {
                Some((v, p)) => r matches Ok(out) && out@ == v && final(self).cursor() == p,
                None => r == Err::<Vec<u32>, XdrError>(XdrError::Eof)
                    && final(self).cursor() == cursor_after_failed_array(old(self).bytes(), old(self).cursor()),
            },
    {
        let n = self.read_u32()?;
        let len = n as usize;
        let ghost start = self.pos as int;
        let ghost bytes = self.buf@;
        let mut out: Vec<u32> = Vec::new();
        let mut i: usize = 0;
        while i < len
            invariant
                i <= len,
                self.buf@ == bytes,
                bytes == old(self).bytes(),
                start == old(self).cursor() + 4,
                start + 4 * i <= bytes.len(),
                self.pos == start + 4 * i,
                read_u32_spec(bytes, old(self).cursor()) == Some((n, start)),
                len == n,
                out@ == u32_items(bytes, start, i as int),
            decreases len - i,
        {
            match self.read_u32() {
                Ok(v) => {
                    out.push(v);
                    i = i + 1;
                    assert(out@ =~= u32_items(bytes, start, i as int));
                },
                Err(e) => {
                    assert((bytes.len() - start) / 4 == i as int) by (nonlinear_arith)
                        requires
                            start + 4 * i <= bytes.len(),
                            start + 4 * i + 4 > bytes.len(),
                    ;
                    return Err(e);
                },
            }
        }
        Ok(out)
    }
}

/// Every XDR item the encoder appends, but raw bytes, fills a whole number of
/// four-byte units.
pub proof fn lemma_items_fill_units(v: Seq<u8>, w: Seq<u32>)
    ensures
        opaque_var_bytes(v).len() % 4 == 0,
        opaque_fixed_bytes(v).len() % 4 == 0,
        u32_array_bytes(w).len() == 4 + 4 * w.len(),
    decreases w.len(),
{
    lemma_be_u32_roundtrip(v.len() as u32);
    lemma_be_u32_seq_len(w);
    lemma_be_u32_roundtrip(w.len() as u32);
}

proof fn lemma_be_u32_seq_len(w: Seq<u32>)
    ensures
        be_u32_seq(w).len() == 4 * w.len(),
    decreases w.len(),
{
    if w.len() > 0 {
        lemma_be_u32_seq_len(w.drop_last());
        lemma_be_u32_roundtrip(w.last());
    }
}

proof fn lemma_be_u32_seq_items(w: Seq<u32>)
    ensures
        be_u32_seq(w).len() == 4 * w.len(),
        forall|i: int| 0 <= i < w.len() ==>
            #[trigger] u32_from_be(be_u32_seq(w).subrange(4 * i, 4 * i + 4)) == w[i],
    decreases w.len(),
{
    lemma_be_u32_seq_len(w);
    if w.len() > 0 {
        let init = w.drop_last();
        lemma_be_u32_seq_items(init);
        lemma_be_u32_roundtrip(w.last());
        let b = be_u32_seq(w);
        assert forall|i: int| 0 <= i < w.len() implies
            #[trigger] u32_from_be(be_u32_seq(w).subrange(4 * i, 4 * i + 4)) == w[i] by {
            if i < w.len() - 1 {
                assert(b.subrange(4 * i, 4 * i + 4) =~= be_u32_seq(init).subrange(4 * i, 4 * i + 4));
                assert(init[i] == w[i]);
            } else {
                assert(b.subrange(4 * i, 4 * i + 4) =~= be_u32(w.last()));
            }
        }
    }
}

/// A `u32` written between any bytes reads back as itself.
pub proof fn lemma_u32_roundtrip(pre: Seq<u8>, v: u32, post: Seq<u8>)
    ensures
        read_u32_spec(pre + be_u32(v) + post, pre.len() as int) == Some((v, pre.len() + 4int)),
{
    lemma_be_u32_roundtrip(v);
    let all = pre + be_u32(v) + post;
    assert(all.subrange(pre.len() as int, pre.len() + 4int) =~= be_u32(v));
}

/// A `u64` written between any bytes reads back as itself.
pub proof fn lemma_u64_roundtrip(pre: Seq<u8>, v: u64, post: Seq<u8>)
    ensures
        read_u64_spec(pre + be_u64(v) + post, pre.len() as int) == Some((v, pre.len() + 8int)),
{
    lemma_be_u64_roundtrip(v);
    let all = pre + be_u64(v) + post;
    assert(all.subrange(pre.len() as int, pre.len() + 8int) =~= be_u64(v));
}

/// A variable-length opaque item written at a four-byte boundary reads back as
/// itself, with the cursor past its padding, when its length fits the count.
pub proof fn lemma_opaque_var_roundtrip(pre: Seq<u8>, v: Seq<u8>, post: Seq<u8>)
    requires
        pre.len() % 4 == 0,
        v.len() <= u32::MAX,
    ensures
        read_opaque_var_spec(pre + opaque_var_bytes(v) + post, pre.len() as int)
            == Some((v, pre.len() + 4 + padded(v.len() as int))),
{
    let n = v.len() as u32;
    lemma_be_u32_roundtrip(n);
    let all = pre + opaque_var_bytes(v) + post;
    let p: int = pre.len() + 4int;
    assert(all.subrange(pre.len() as int, p) =~= be_u32(n));
    assert(all.subrange(p, p + v.len() as int) =~= v);
    assert(pad_spec(p + v.len() as int) == pad_spec(v.len() as int));
}

/// A counted array of `u32` written between any bytes reads back as itself
/// when its count fits in a `u32`.
pub proof fn lemma_u32_array_roundtrip(pre: Seq<u8>, w: Seq<u32>, post: Seq<u8>)
    requires
        w.len() <= u32::MAX,
    ensures
        read_u32_array_spec(pre + u32_array_bytes(w) + post, pre.len() as int)
            == Some((w, pre.len() + 4int + 4 * w.len())),
{
    let n = w.len() as u32;
    lemma_be_u32_roundtrip(n);
    lemma_be_u32_seq_items(w);
    let all = pre + u32_array_bytes(w) + post;
    let p: int = pre.len() + 4int;
    assert(all.subrange(pre.len() as int, p) =~= be_u32(n));
    let items = u32_items(all, p, n as int);
    assert forall|i: int| 0 <= i < w.len() implies items[i] == w[i] by {
        assert(all.subrange(p + 4 * i, p + 4 * i + 4) =~= be_u32_seq(w).subrange(4 * i, 4 * i + 4));
    }
    assert(items =~= w);
}

/// A string written as its UTF-8 bytes at a four-byte boundary reads back as
/// valid UTF-8 that decodes to the same characters.
pub proof fn lemma_string_roundtrip(pre: Seq<u8>, s: Seq<char>, post: Seq<u8>)
    requires
        pre.len() % 4 == 0,
        encode_utf8(s).len() <= u32::MAX,
    ensures
        read_opaque_var_spec(pre + opaque_var_bytes(encode_utf8(s)) + post, pre.len() as int)
            == Some((encode_utf8(s), pre.len() + 4 + padded(encode_utf8(s).len() as int))),
        valid_utf8(encode_utf8(s)),
        decode_utf8(encode_utf8(s)) == s,
{
    lemma_opaque_var_roundtrip(pre, encode_utf8(s), post);
    vstd::utf8::encode_utf8_valid_utf8(s);
    vstd::utf8::encode_utf8_decode_utf8(s);
}

} // verus!
