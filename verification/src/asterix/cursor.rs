//! Reading big-endian values from a byte buffer.
use vstd::prelude::*;
use crate::asterix::error::AsterixError;

verus! {

/// The outcome of reading a value of type `T` at a position of a byte sequence:
/// the value and the position that follows it, or the reason it could not be read.
pub type ReadOutcome<T> = Result<(T, int), AsterixError>;

/// Whether the result `res` of a read, which left the cursor at `new_pos`,
/// is what `expected` says.
pub open spec fn read_agrees<T>(res: Result<T, AsterixError>, expected: ReadOutcome<T>, new_pos: int) -> bool {
    match expected {
        Ok((v, q)) => res == Ok::<T, AsterixError>(v) && new_pos == q,
        Err(e) => res == Err::<T, AsterixError>(e),
    }
}

/// Whether the result `res` of a read, which left the cursor at `new_pos`,
/// is what `expected` says of its view.
pub open spec fn read_agrees_view<T: View>(res: Result<T, AsterixError>, expected: ReadOutcome<T::V>, new_pos: int) -> bool {
    match (res, expected) {
        (Ok(v), Ok((ev, q))) => v@ == ev && new_pos == q,
        (Err(e), Err(ee)) => e == ee,
        _ => false,
    }
}

/// The view of a read that yields a vector of octets.
pub open spec fn bytes_view(res: Result<Vec<u8>, AsterixError>) -> Result<Seq<u8>, AsterixError> {
    match res {
        Ok(v) => Ok(v@),
        Err(e) => Err(e),
    }
}

/// The `n` octets of `s` from position `p`.
pub open spec fn spec_take(s: Seq<u8>, p: int, n: int) -> ReadOutcome<Seq<u8>> {
    if 0 <= p && 0 <= n && p + n <= s.len() {
        Ok((s.subrange(p, p + n), p + n))
    } else {
        Err(AsterixError::UnexpectedEof)
    }
}

/// One octet of `s` at position `p`.
pub open spec fn spec_u8(s: Seq<u8>, p: int) -> ReadOutcome<u8> {
    if 0 <= p && p + 1 <= s.len() {
        Ok((s[p], p + 1))
    } else {
        Err(AsterixError::UnexpectedEof)
    }
}

/// The unsigned value of two octets, most significant first.
pub open spec fn be16(hi: u8, lo: u8) -> u16 {
    (hi as int * 256 + lo as int) as u16
}

/// The unsigned value of three octets, most significant first.
pub open spec fn be24(b0: u8, b1: u8, b2: u8) -> u32 {
    (b0 as int * 65536 + b1 as int * 256 + b2 as int) as u32
}

/// The unsigned value of four octets, most significant first.
pub open spec fn be32(b0: u8, b1: u8, b2: u8, b3: u8) -> u32 {
    (b0 as int * 16777216 + b1 as int * 65536 + b2 as int * 256 + b3 as int) as u32
}

/// The two's complement reading of an 8-bit pattern.
pub open spec fn i8_of(u: u8) -> i8 {
    if u < 0x80 {
        u as i8
    } else {
        (u as int - 0x100) as i8
    }
}

/// The two's complement reading of a 32-bit pattern.
pub open spec fn i32_of(u: u32) -> i32 {
    if u < 0x8000_0000 {
        u as i32
    } else {
        (u as int - 0x1_0000_0000) as i32
    }
}

/// The two's complement reading of a 16-bit pattern.
pub open spec fn i16_of(u: u16) -> i16 {
    if u < 0x8000 {
        u as i16
    } else {
        (u as int - 0x10000) as i16
    }
}

/// A big-endian unsigned 16-bit value at position `p`.
pub open spec fn spec_u16_be(s: Seq<u8>, p: int) -> ReadOutcome<u16> {
    if 0 <= p && p + 2 <= s.len() {
        Ok((be16(s[p], s[p + 1]), p + 2))
    } else {
        Err(AsterixError::UnexpectedEof)
    }
}

/// A big-endian signed 16-bit value at position `p`.
pub open spec fn spec_i16_be(s: Seq<u8>, p: int) -> ReadOutcome<i16> {
    if 0 <= p && p + 2 <= s.len() {
        Ok((i16_of(be16(s[p], s[p + 1])), p + 2))
    } else {
        Err(AsterixError::UnexpectedEof)
    }
}

/// A big-endian unsigned 24-bit value at position `p`.
pub open spec fn spec_u24_be(s: Seq<u8>, p: int) -> ReadOutcome<u32> {
    if 0 <= p && p + 3 <= s.len() {
        Ok((be24(s[p], s[p + 1], s[p + 2]), p + 3))
    } else {
        Err(AsterixError::UnexpectedEof)
    }
}

/// The number of consecutive octets of `s`, from position `p` on, whose
/// extension bit (the least significant bit) is set.
pub open spec fn fx_run(s: Seq<u8>, p: int) -> nat
    decreases s.len() - p,
{
    if 0 <= p < s.len() && s[p] & 1 != 0 {
        1 + fx_run(s, p + 1)
    } else {
        0
    }
}

/// An FX-chained sequence of octets at position `p`: octets up to and including
/// the first one whose extension bit is clear, at most `max` of them. Reading
/// octet `max + 1` gives `too_long`; running out of input gives `UnexpectedEof`.
pub open spec fn spec_fx_octets(s: Seq<u8>, p: int, max: int, too_long: AsterixError) -> ReadOutcome<Seq<u8>> {
    let r = fx_run(s, p);
    if r + 1 <= max {
        if 0 <= p && p + r < s.len() {
            Ok((s.subrange(p, p + r + 1), p + r + 1))
        } else {
            Err(AsterixError::UnexpectedEof)
        }
    } else if 0 <= p && p + max < s.len() {
        Err(too_long)
    } else {
        Err(AsterixError::UnexpectedEof)
    }
}

/// A read position in a borrowed byte buffer.
pub struct Cursor<'a> {
    buf: &'a [u8],
    pos: usize,
}

impl<'a> Cursor<'a> {
    /// The position never passes the end of the buffer.
    #[verifier::type_invariant]
    spec fn inv(&self) -> bool {
        self.pos <= self.buf.len()
    }

    /// The octets the cursor reads from.
    pub closed spec fn data(&self) -> Seq<u8> {
        self.buf@
    }

    /// The position of the next octet to read.
    pub closed spec fn pos(&self) -> int {
        self.pos as int
    }

    pub fn new(buf: &'a [u8]) -> (c: Self)
        ensures
            c.data() == buf@,
            c.pos() == 0,
    {
        Cursor { buf, pos: 0 }
    }

    /// The number of octets left to read.
    pub fn remaining(&self) -> (r: usize)
        ensures
            self.pos() <= self.data().len(),
            r == self.data().len() - self.pos(),
    {
        proof {
            use_type_invariant(self);
        }
        self.buf.len().saturating_sub(self.pos)
    }

    /// The number of octets read so far.
    pub fn position(&self) -> (r: usize)
        ensures
            r == self.pos(),
            r <= self.data().len(),
    {
        proof {
            use_type_invariant(self);
        }
        self.pos
    }

    /// The next octet; at the end of the buffer an error, with nothing consumed.
    pub fn read_u8(&mut self) -> (res: Result<u8, AsterixError>)
        ensures
            final(self).data() == old(self).data(),
            read_agrees(res, spec_u8(old(self).data(), old(self).pos()), final(self).pos()),
            res is Err ==> final(self).pos() == old(self).pos(),
    {
        if self.remaining() < 1 {
            return Err(AsterixError::UnexpectedEof);
        }
        let v = self.buf[self.pos];
        self.pos = self.pos + 1;
        Ok(v)
    }

    /// A big-endian signed 16-bit value, read one octet at a time: when a
    /// single octet is left it is consumed before the error, so an error
    /// always leaves the cursor at the end of the buffer.
    pub fn read_i16_be(&mut self) -> (res: Result<i16, AsterixError>)
        ensures
            final(self).data() == old(self).data(),
            read_agrees(res, spec_i16_be(old(self).data(), old(self).pos()), final(self).pos()),
            res is Err ==> final(self).pos() == old(self).data().len(),
    {
        proof {
            use_type_invariant(&*self);
        }
        let hi = self.read_u8()?;
        let lo = self.read_u8()?;
        let u: u16 = (hi as u16) * 256 + (lo as u16);
        if u < 0x8000 {
            Ok(u as i16)
        } else {
            Ok((u as i32 - 0x10000) as i16)
        }
    }

    /// A big-endian unsigned 16-bit value; with fewer than two octets left an
    /// error, with nothing consumed.
    pub fn read_u16_be(&mut self) -> (res: Result<u16, AsterixError>)
        ensures
            final(self).data() == old(self).data(),
            read_agrees(res, spec_u16_be(old(self).data(), old(self).pos()), final(self).pos()),
            res is Err ==> final(self).pos() == old(self).pos(),
    {
        if self.remaining() < 2 {
            return Err(AsterixError::UnexpectedEof);
        }
        let b0 = self.buf[self.pos] as u16;
        let b1 = self.buf[self.pos + 1] as u16;
        self.pos = self.pos + 2;
        let v = (b0 << 8) | b1;
        assert(v == b0 * 256 + b1) by (bit_vector)
            requires
                v == (b0 << 8) | b1,
                b0 < 256,
                b1 < 256,
        ;
        Ok(v)
    }

    /// A big-endian unsigned 24-bit value; with fewer than three octets left an
    /// error, with nothing consumed.
    pub fn read_u24_be(&mut self) -> (res: Result<u32, AsterixError>)
        ensures
            final(self).data() == old(self).data(),
            read_agrees(res, spec_u24_be(old(self).data(), old(self).pos()), final(self).pos()),
            res is Err ==> final(self).pos() == old(self).pos(),
    {
        if self.remaining() < 3 {
            return Err(AsterixError::UnexpectedEof);
        }
        let b0 = self.buf[self.pos] as u32;
        let b1 = self.buf[self.pos + 1] as u32;
        let b2 = self.buf[self.pos + 2] as u32;
        self.pos = self.pos + 3;
        let v = (b0 << 16) | (b1 << 8) | b2;
        assert(v == b0 * 65536 + b1 * 256 + b2) by (bit_vector)
            requires
                v == (b0 << 16) | (b1 << 8) | b2,
                b0 < 256,
                b1 < 256,
                b2 < 256,
        ;
        Ok(v)
    }

    /// The next `n` octets.
    pub fn read_bytes(&mut self, n: usize) -> (res: Result<Vec<u8>, AsterixError>)
        ensures
            final(self).data() == old(self).data(),
            read_agrees(bytes_view(res), spec_take(old(self).data(), old(self).pos(), n as int), final(self).pos()),
    {
        proof {
            use_type_invariant(&*self);
        }
        if self.remaining() < n {
            return Err(AsterixError::UnexpectedEof);
        }
        let mut out: Vec<u8> = Vec::new();
        let start = self.pos;
        let mut i: usize = 0;
        while i < n
            invariant
                start + n <= self.buf.len(),
                self.pos == start,
                0 <= i <= n,
                out@ == self.buf@.subrange(start as int, start + i),
            decreases n - i,
        {
            out.push(self.buf[start + i]);
            i = i + 1;
            assert(out@ =~= self.buf@.subrange(start as int, start + i));
        }
        self.pos = start + n;
        Ok(out)
    }

    /// An FX-chained sequence of at most `max_len` octets; reading one more
    /// octet than that gives `too_long`.
    pub fn read_fx_octets(&mut self, max_len: usize, too_long: AsterixError) -> (res: Result<Vec<u8>, AsterixError>)
        requires
            max_len >= 1,
        ensures
            final(self).data() == old(self).data(),
            read_agrees(
                bytes_view(res),
                spec_fx_octets(old(self).data(), old(self).pos(), max_len as int, too_long),
                final(self).pos(),
            ),
    {
        proof {
            use_type_invariant(&*self);
        }
        let ghost s = self.buf@;
        let start = self.pos;
        let mut out: Vec<u8> = Vec::new();
        let mut oct = self.read_u8()?;
        out.push(oct);
        assert(out@ =~= s.subrange(start as int, self.pos as int));
        while oct & 1 != 0
            invariant
                self.buf@ == s,
                s == old(self).data(),
                start == old(self).pos(),
                self.pos <= s.len(),
                self.pos == start + out.len(),
                1 <= out.len() <= max_len,
                out@ == s.subrange(start as int, self.pos as int),
                oct == s[self.pos - 1],
                fx_run(s, start as int) == (self.pos - 1 - start) + fx_run(s, self.pos - 1),
            decreases s.len() - self.pos,
        {
            oct = self.read_u8()?;
            out.push(oct);
            assert(out@ =~= s.subrange(start as int, self.pos as int));
            if out.len() > max_len {
                return Err(too_long);
            }
        }
        Ok(out)
    }
}

} // verus!
