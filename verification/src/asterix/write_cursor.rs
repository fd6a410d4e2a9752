//! Writing big-endian values to a growing byte buffer.
use vstd::prelude::*;
use crate::asterix::error::AsterixError;
use crate::asterix::cursor::{spec_u8, spec_u16_be, spec_i16_be, spec_u24_be};

verus! {

/// The two octets of `v`, most significant first.
pub open spec fn be16_bytes(v: u16) -> Seq<u8> {
    seq![(v / 256) as u8, (v % 256) as u8]
}

/// The low three octets of `v`, most significant first.
pub open spec fn be24_bytes(v: u32) -> Seq<u8> {
    seq![((v / 65536) % 256) as u8, ((v / 256) % 256) as u8, (v % 256) as u8]
}

/// The four octets of `v`, most significant first.
pub open spec fn be32_bytes(v: u32) -> Seq<u8> {
    seq![(v / 16777216) as u8, ((v / 65536) % 256) as u8, ((v / 256) % 256) as u8, (v % 256) as u8]
}

/// The 16-bit two's complement pattern of `v`.
pub open spec fn u16_of_i16(v: i16) -> u16 {
    if v >= 0 {
        v as u16
    } else {
        (v as int + 0x10000) as u16
    }
}

/// The 32-bit two's complement pattern of `v`.
pub open spec fn u32_of_i32(v: i32) -> u32 {
    if v >= 0 {
        v as u32
    } else {
        (v as int + 0x1_0000_0000) as u32
    }
}

/// An append-only byte buffer; the counterpart of `Cursor` for writing.
pub struct WriteCursor {
    buf: Vec<u8>,
}

impl View for WriteCursor {
    type V = Seq<u8>;

    closed spec fn view(&self) -> Seq<u8> {
        self.buf@
    }
}

impl WriteCursor {
    pub fn new() -> (w: Self)
        ensures
            w@ == Seq::<u8>::empty(),
    {
        WriteCursor { buf: Vec::new() }
    }

    pub fn with_capacity(capacity: usize) -> (w: Self)
        ensures
            w@ == Seq::<u8>::empty(),
    {
        WriteCursor { buf: Vec::with_capacity(capacity) }
    }

    /// The number of octets written so far.
    pub fn position(&self) -> (r: usize)
        ensures
            r == self@.len(),
    {
        self.buf.len()
    }

    pub fn into_inner(self) -> (v: Vec<u8>)
        ensures
            v@ == self@,
    {
        self.buf
    }

    pub fn as_slice(&self) -> (s: &[u8])
        ensures
            s@ == self@,
    {
        self.buf.as_slice()
    }

    pub fn write_u8(&mut self, v: u8)
        ensures
            final(self)@ == old(self)@.push(v),
    {
        self.buf.push(v);
    }

    pub fn write_u16_be(&mut self, v: u16)
        ensures
            final(self)@ == old(self)@ + be16_bytes(v),
    {
        let hi = (v >> 8) as u8;
        let lo = v as u8;
        assert(hi == v / 256 && lo == v % 256) by (bit_vector)
            requires
                hi == (v >> 8) as u8,
                lo == v as u8,
        ;
        self.buf.push(hi);
        self.buf.push(lo);
        assert(self.buf@ =~= old(self)@ + be16_bytes(v));
    }

    pub fn write_i16_be(&mut self, v: i16)
        ensures
            final(self)@ == old(self)@ + be16_bytes(u16_of_i16(v)),
    {
        let u: u16 = if v >= 0 {
            v as u16
        } else {
            (v as i32 + 0x10000) as u16
        };
        self.write_u16_be(u);
    }

    pub fn write_u24_be(&mut self, v: u32)
        ensures
            final(self)@ == old(self)@ + be24_bytes(v),
    {
        let b0 = (v >> 16) as u8;
        let b1 = (v >> 8) as u8;
        let b2 = v as u8;
        assert(b0 == (v / 65536) % 256 && b1 == (v / 256) % 256 && b2 == v % 256) by (bit_vector)
            requires
                b0 == (v >> 16) as u8,
                b1 == (v >> 8) as u8,
                b2 == v as u8,
        ;
        self.buf.push(b0);
        self.buf.push(b1);
        self.buf.push(b2);
        assert(self.buf@ =~= old(self)@ + be24_bytes(v));
    }

    /// The low 24 bits of the two's complement pattern of `v`.
    pub fn write_i24_be(&mut self, v: i32)
        ensures
            final(self)@ == old(self)@ + be24_bytes(u32_of_i32(v)),
    {
        let u: u32 = if v >= 0 {
            v as u32
        } else {
            (v as i64 + 0x1_0000_0000) as u32
        };
        self.write_u24_be(u);
    }

    pub fn write_i32_be(&mut self, v: i32)
        ensures
            final(self)@ == old(self)@ + be32_bytes(u32_of_i32(v)),
    {
        let u: u32 = if v >= 0 {
            v as u32
        } else {
            (v as i64 + 0x1_0000_0000) as u32
        };
        let b0 = (u >> 24) as u8;
        let b1 = (u >> 16) as u8;
        let b2 = (u >> 8) as u8;
        let b3 = u as u8;
        assert(b0 == u / 16777216 && b1 == (u / 65536) % 256 && b2 == (u / 256) % 256 && b3 == u
            % 256) by (bit_vector)
            requires
                b0 == (u >> 24) as u8,
                b1 == (u >> 16) as u8,
                b2 == (u >> 8) as u8,
                b3 == u as u8,
        ;
        self.buf.push(b0);
        self.buf.push(b1);
        self.buf.push(b2);
        self.buf.push(b3);
        assert(self.buf@ =~= old(self)@ + be32_bytes(u32_of_i32(v)));
    }

    pub fn write_bytes(&mut self, bytes: &[u8])
        ensures
            final(self)@ == old(self)@ + bytes@,
    {
        self.buf.extend_from_slice(bytes);
        assert(self.buf@ =~= old(self)@ + bytes@);
    }

    /// Overwrite the two octets at `pos` with `v`, most significant first;
    /// used for a length field whose value is known only at the end.
    pub fn patch_u16_be(&mut self, pos: usize, v: u16)
        requires
            pos + 2 <= old(self)@.len(),
        ensures
            final(self)@ == old(self)@.update(pos as int, (v / 256) as u8).update(pos + 1, (v % 256) as u8),
    {
        let hi = (v >> 8) as u8;
        let lo = v as u8;
        assert(hi == v / 256 && lo == v % 256) by (bit_vector)
            requires
                hi == (v >> 8) as u8,
                lo == v as u8,
        ;
        let n = self.buf.len();
        assert(pos + 1 < n);
        self.buf.set(pos, hi);
        self.buf.set(pos + 1, lo);
    }
}

impl Default for WriteCursor {
    fn default() -> (w: Self)
        ensures
            w@ == Seq::<u8>::empty(),
    {
        Self::new()
    }
}

} // verus!

verus! {

/// An octet written after `prefix` is read back at position `prefix.len()`,
/// whatever follows it.
pub proof fn lemma_read_back_u8(prefix: Seq<u8>, v: u8, rest: Seq<u8>)
    ensures
        spec_u8(prefix.push(v) + rest, prefix.len() as int) == Ok::<(u8, int), AsterixError>((v, prefix.len() + 1 as int)),
{
    assert((prefix.push(v) + rest)[prefix.len() as int] == v);
}

/// A 16-bit value written by `write_u16_be` is read back by `read_u16_be`.
pub proof fn lemma_read_back_u16(prefix: Seq<u8>, v: u16, rest: Seq<u8>)
    ensures
        spec_u16_be(prefix + be16_bytes(v) + rest, prefix.len() as int) == Ok::<(u16, int), AsterixError>((v, prefix.len() + 2 as int)),
{
    let s = prefix + be16_bytes(v) + rest;
    let p = prefix.len() as int;
    assert(s[p] == be16_bytes(v)[0]);
    assert(s[p + 1] == be16_bytes(v)[1]);
}

/// A signed 16-bit value written by `write_i16_be` is read back by `read_i16_be`.
pub proof fn lemma_read_back_i16(prefix: Seq<u8>, v: i16, rest: Seq<u8>)
    ensures
        spec_i16_be(prefix + be16_bytes(u16_of_i16(v)) + rest, prefix.len() as int) == Ok::<(i16, int), AsterixError>(
            (v, prefix.len() + 2 as int),
        ),
{
    lemma_read_back_u16(prefix, u16_of_i16(v), rest);
}

/// A value written by `write_u24_be` is read back by `read_u24_be`, reduced to its low 24 bits.
pub proof fn lemma_read_back_u24(prefix: Seq<u8>, v: u32, rest: Seq<u8>)
    ensures
        spec_u24_be(prefix + be24_bytes(v) + rest, prefix.len() as int) == Ok::<(u32, int), AsterixError>(
            ((v % 0x100_0000) as u32, prefix.len() + 3 as int),
        ),
{
    let s = prefix + be24_bytes(v) + rest;
    let p = prefix.len() as int;
    assert(s[p] == be24_bytes(v)[0]);
    assert(s[p + 1] == be24_bytes(v)[1]);
    assert(s[p + 2] == be24_bytes(v)[2]);
}

/// After `patch_u16_be` at `pos`, the octets at `pos` read back the patched value.
pub proof fn lemma_read_back_patch(buf: Seq<u8>, pos: int, v: u16)
    requires
        0 <= pos,
        pos + 2 <= buf.len(),
    ensures
        spec_u16_be(buf.update(pos, (v / 256) as u8).update(pos + 1, (v % 256) as u8), pos) == Ok::<
            (u16, int),
            AsterixError,
        >((v, pos + 2)),
{
}

} // verus!
