//! Bit-level reader and writer, handed out by the nibble reader and writer
//! for packed bit-field headers.
use vstd::prelude::*;
use crate::bits::{with_bit, write_bits, bits_of, bits_from, lemma_write_bits_concat, lemma_bits_of_push};
use crate::error::Error;

verus! {

/// Reader of single bits, most significant first, over a borrowed buffer.
#[derive(Clone, Copy)]
pub struct BitBuf<'i> {
    buf: &'i [u8],
    // Number of bits that may be read, counted from the buffer's start.
    len_bits: usize,
    // Next bit to read.
    pos: usize,
}

impl<'i> BitBuf<'i> {
    pub closed spec fn bytes(&self) -> Seq<u8> {
        self.buf@
    }

    /// The cursor, in bits from the buffer's start.
    pub closed spec fn pos(&self) -> int {
        self.pos as int
    }

    /// The end of the readable window, in bits.
    pub closed spec fn limit(&self) -> int {
        self.len_bits as int
    }

    pub closed spec fn wf(&self) -> bool {
        self.pos <= self.len_bits <= 8 * self.buf@.len()
    }

    /// The bits not read yet.
    pub open spec fn rest(&self) -> Seq<bool> {
        bits_from(self.bytes(), self.pos(), self.limit() - self.pos())
    }

    /// `self` is `old` moved on by `n` bits.
    pub open spec fn advanced(&self, old: &Self, n: int) -> bool {
        &&& self.wf()
        &&& self.bytes() == old.bytes()
        &&& self.limit() == old.limit()
        &&& self.pos() == old.pos() + n
    }

    /// A reader over `len_bits` bits of `buf`, starting `offset` bits in.
    pub(crate) fn new_with_offset(buf: &'i [u8], offset: usize, len_bits: usize) -> (r: Self)
        requires
            offset <= len_bits <= 8 * buf@.len(),
        ensures
            r.wf(),
            r.bytes() == buf@,
            r.pos() == offset,
            r.limit() == len_bits,
    {
        BitBuf { buf, len_bits, pos: offset }
    }

    /// How many bits are left.
    pub fn bits_left(&self) -> (r: usize)
        requires
            self.wf(),
        ensures
            r == self.limit() - self.pos(),
    {
        self.len_bits - self.pos
    }

    /// Reads one bit.
    pub fn get_bit(&mut self) -> (r: Result<bool, Error>)
        requires
            old(self).wf(),
        ensures
            match r {
                Ok(b) => old(self).pos() < old(self).limit() && b == old(self).rest()[0] && final(self).advanced(old(self), 1),
                Err(e) => e == Error::OutOfBounds && old(self).pos() == old(self).limit() && *final(self) == *old(self),
            },
    {
        if self.pos >= self.len_bits {
            return Err(Error::OutOfBounds);
        }
        let b = self.buf[self.pos / 8];
        let bit = (b >> (7 - self.pos % 8) as u8) & 1u8 == 1u8;
        self.pos = self.pos + 1;
        Ok(bit)
    }

    /// Reads `n` bits as an unsigned number, most significant first.
    pub fn get_up_to_16(&mut self, n: u8) -> (r: Result<u16, Error>)
        requires
            old(self).wf(),
            n <= 16,
        ensures
            match r {
                Ok(v) => {
                    &&& n <= old(self).limit() - old(self).pos()
                    &&& bits_of(v, n as nat) == old(self).rest().take(n as int)
                    &&& (n < 16 ==> v < (1u32 << n))
                    &&& final(self).advanced(old(self), n as int)
                },
                Err(e) => e == Error::OutOfBounds && n > old(self).limit() - old(self).pos() && *final(self) == *old(self),
            },
    {
        if self.bits_left() < n as usize {
            return Err(Error::OutOfBounds);
        }
        let ghost r0 = self.rest();
        let mut acc: u16 = 0;
        let mut lim: u32 = 1;
        let mut i: u8 = 0;
        assert(bits_of(0u16, 0) =~= r0.take(0));
        assert(1u32 == (1u32 << 0u8)) by (bit_vector);
        while i < n
            invariant
                old(self).wf(),
                r0 == old(self).rest(),
                n <= 16,
                n <= r0.len(),
                i <= n,
                self.advanced(old(self), i as int),
                bits_of(acc, i as nat) == r0.take(i as int),
                acc < lim,
                lim == (1u32 << i),
            decreases n - i,
        {
            let bit = match self.get_bit() {
                Ok(b) => b,
                Err(_) => false,
            };
            assert(bit == r0[i as int]);
            assert(lim == (1u32 << i) && i < 16 ==> 2 * lim == (1u32 << (i + 1) as u32)) by (bit_vector)
                requires i < 16;
            assert(acc < 0x8000) by {
                assert(i < 16 ==> (1u32 << i) <= 0x8000) by (bit_vector);
            }
            proof {
                lemma_bits_of_push(acc, i as nat, bit);
                assert(r0.take(i as int).push(bit) =~= r0.take(i + 1));
            }
            acc = acc * 2 + if bit { 1u16 } else { 0u16 };
            lim = lim * 2;
            i = i + 1;
        }
        Ok(acc)
    }

    /// Reads `n` bits as an unsigned number, most significant first.
    pub fn get_up_to_8(&mut self, n: u8) -> (r: Result<u8, Error>)
        requires
            old(self).wf(),
            n <= 8,
        ensures
            match r {
                Ok(v) => {
                    &&& n <= old(self).limit() - old(self).pos()
                    &&& bits_of(v as u16, n as nat) == old(self).rest().take(n as int)
                    &&& final(self).advanced(old(self), n as int)
                },
                Err(e) => e == Error::OutOfBounds && n > old(self).limit() - old(self).pos() && *final(self) == *old(self),
            },
    {
        match self.get_up_to_16(n) {
            Ok(v) => {
                assert(n <= 8 ==> (1u32 << n) <= 256) by (bit_vector);
                Ok(v as u8)
            },
            Err(e) => Err(e),
        }
    }
}

/// Writer of single bits, most significant first, over a borrowed buffer.
pub struct BitBufMut<'i> {
    buf: &'i mut [u8],
    // Number of bits that may be written, counted from the buffer's start.
    len_bits: usize,
    // Next bit to write.
    pos: usize,
}

impl<'i> BitBufMut<'i> {
    pub closed spec fn bytes(&self) -> Seq<u8> {
        self.buf@
    }

    /// The cursor, in bits from the buffer's start.
    pub closed spec fn pos(&self) -> int {
        self.pos as int
    }

    /// The end of the writable window, in bits.
    pub closed spec fn limit(&self) -> int {
        self.len_bits as int
    }

    pub closed spec fn wf(&self) -> bool {
        self.pos <= self.len_bits <= 8 * self.buf@.len()
    }

    /// `self` is `old` after writing the bits `bits` at its cursor.
    pub open spec fn wrote(&self, old: &Self, bits: Seq<bool>) -> bool {
        &&& self.wf()
        &&& self.limit() == old.limit()
        &&& self.pos() == old.pos() + bits.len()
        &&& self.bytes() == write_bits(old.bytes(), old.pos(), bits)
    }

    pub(crate) fn from_parts(buf: &'i mut [u8], len_bits: usize, pos: usize) -> (r: Self)
        requires
            pos <= len_bits <= 8 * old(buf)@.len(),
        ensures
            r.wf(),
            r.bytes() == old(buf)@,
            r.pos() == pos,
            r.limit() == len_bits,
    {
        BitBufMut { buf, len_bits, pos }
    }

    /// Whether the writer is well formed, checked at run time.
    pub(crate) fn check_wf(&self) -> (r: bool)
        ensures
            r == self.wf(),
    {
        self.pos <= self.len_bits && self.len_bits / 8 <= self.buf.len() && (self.len_bits / 8 < self.buf.len()
            || self.len_bits % 8 == 0)
    }

    pub(crate) fn into_parts(self) -> (r: (&'i mut [u8], usize, usize))
        requires
            self.wf(),
        ensures
            r.2 <= r.1 <= 8 * r.0@.len(),
            r.0@ == self.bytes(),
            r.1 == self.limit(),
            r.2 == self.pos(),
    {
        (self.buf, self.len_bits, self.pos)
    }

    /// Writes one bit.
    pub fn put_bit(&mut self, bit: bool) -> (r: Result<(), Error>)
        requires
            old(self).wf(),
        ensures
            match r {
                Ok(()) => old(self).pos() < old(self).limit() && final(self).wrote(old(self), seq![bit]),
                Err(e) => e == Error::OutOfBounds && old(self).pos() == old(self).limit() && *final(self) == *old(self),
            },
    {
        if self.pos >= self.len_bits {
            return Err(Error::OutOfBounds);
        }
        let ghost s0 = self.bytes();
        let ghost p0 = self.pos();
        let i = self.pos / 8;
        let m: u8 = 1u8 << (7 - self.pos % 8) as u8;
        let b = self.buf[i];
        self.buf[i] = if bit {
            b | m
        } else {
            b & !m
        };
        self.pos = self.pos + 1;
        proof {
            assert(self.bytes() =~= with_bit(s0, p0, bit));
            assert(seq![bit].drop_first() =~= Seq::<bool>::empty());
            assert(write_bits(s0, p0, seq![bit]) == write_bits(with_bit(s0, p0, bit), p0 + 1, Seq::<bool>::empty()));
        }
        Ok(())
    }

    /// Writes the low `n` bits of `val`, most significant first.
    pub fn put_up_to_16(&mut self, n: u8, val: u16) -> (r: Result<(), Error>)
        requires
            old(self).wf(),
            n <= 16,
        ensures
            match r {
                Ok(()) => n <= old(self).limit() - old(self).pos() && final(self).wrote(old(self), bits_of(val, n as nat)),
                Err(e) => e == Error::OutOfBounds && n > old(self).limit() - old(self).pos() && *final(self) == *old(self),
            },
    {
        if self.len_bits - self.pos < n as usize {
            return Err(Error::OutOfBounds);
        }
        let ghost s0 = self.bytes();
        let ghost p0 = self.pos();
        let ghost all = bits_of(val, n as nat);
        let mut i: u8 = 0;
        while i < n
            invariant
                self.wf(),
                self.limit() == old(self).limit(),
                p0 == old(self).pos(),
                s0 == old(self).bytes(),
                all == bits_of(val, n as nat),
                n <= 16,
                p0 + n <= self.limit(),
                i <= n,
                self.pos() == p0 + i,
                self.bytes() == write_bits(s0, p0, all.take(i as int)),
            decreases n - i,
        {
            let bit = (val >> (n - 1 - i) as u16) & 1u16 == 1u16;
            assert(bit == all[i as int]);
            let ghost before = self.bytes();
            let _ = self.put_bit(bit);
            proof {
                lemma_write_bits_concat(s0, p0, all.take(i as int), seq![bit]);
                assert(all.take(i as int) + seq![bit] =~= all.take(i + 1));
            }
            i = i + 1;
        }
        assert(all.take(n as int) =~= all);
        Ok(())
    }

    /// Writes the low `n` bits of `val`, most significant first.
    pub fn put_up_to_8(&mut self, n: u8, val: u8) -> (r: Result<(), Error>)
        requires
            old(self).wf(),
            n <= 8,
        ensures
            match r {
                Ok(()) => n <= old(self).limit() - old(self).pos() && final(self).wrote(old(self), bits_of(val as u16, n as nat)),
                Err(e) => e == Error::OutOfBounds && n > old(self).limit() - old(self).pos() && *final(self) == *old(self),
            },
    {
        self.put_up_to_16(n, val as u16)
    }

    /// Hands the buffer back, with the index of the byte the cursor is in
    /// and the number of bits already used in it.
    pub fn finish(self) -> (r: (&'i mut [u8], usize, usize))
        requires
            self.wf(),
        ensures
            r.0@ == self.bytes(),
            r.1 == self.pos() / 8,
            r.2 == self.pos() % 8,
    {
        let byte_pos = self.pos / 8;
        let bit_pos = self.pos % 8;
        (self.buf, byte_pos, bit_pos)
    }
}

} // verus!
