//! Bit-level writer with a reverse tail of `u16` values.
use vstd::prelude::*;
use crate::bits::{with_bit, write_bits, bits_of, zeros, lemma_write_bits, lemma_write_bits_concat};
use crate::error::Error;
use crate::nibble::{with_nibble, write_nibbles, lemma_write_nibbles, lemma_write_nibbles_concat};
use crate::vlu::{lemma_vlu_enc_rev, lemma_vlu_len_monotonic, Vlu16N, vlu_enc, vlu_enc_rev, vlu_len, vlu_nibbles, vlu_nibbles_rev, vlu_len_nibbles, lemma_vlu_enc_shape};

verus! {

/// The number of bits from `pos` up to the next multiple of `m`.
pub open spec fn pad_bits(pos: int, m: int) -> int {
    (m - pos % m) % m
}

pub proof fn lemma_pad_bits(p: int, m: int, k: int)
    requires
        m == 4 || m == 8,
        p >= 0,
        0 <= k <= pad_bits(p, m),
    ensures
        k == pad_bits(p, m) <==> (p + k) % m == 0,
        0 <= pad_bits(p, m) < m,
{
    let r = p % m;
    assert(p == m * (p / m) + r && 0 <= r < m) by {
        vstd::arithmetic::div_mod::lemma_fundamental_div_mod(p, m);
    }
    assert((p + k) % m == (r + k) % m) by {
        vstd::arithmetic::div_mod::lemma_mod_add_multiples_vanish(r + k, m);
        assert(p + k == m * (p / m) + (r + k));
        vstd::arithmetic::div_mod::lemma_mod_multiples_vanish(p / m, r + k, m);
    }
    if r == 0 {
        vstd::arithmetic::div_mod::lemma_mod_self_0(m);
        assert(pad_bits(p, m) == 0);
        vstd::arithmetic::div_mod::lemma_small_mod(k as nat, m as nat);
    } else {
        vstd::arithmetic::div_mod::lemma_small_mod((m - r) as nat, m as nat);
        assert(pad_bits(p, m) == m - r);
        if r + k < m {
            vstd::arithmetic::div_mod::lemma_small_mod((r + k) as nat, m as nat);
        } else {
            vstd::arithmetic::div_mod::lemma_mod_self_0(m);
        }
    }
}

/// The `u16` values stored at the tail of `s` in front of byte `s.len()`,
/// two bytes each, big-endian, in the order they were stored: the first one
/// in the last two bytes.
pub open spec fn reverse_slots(s: Seq<u8>, len_bytes: int) -> Seq<u16> {
    Seq::new(
        ((s.len() - len_bytes) / 2) as nat,
        |j: int| (s[s.len() - 2 * j - 2] as int * 256 + s[s.len() - 2 * j - 1] as int) as u16,
    )
}

/// The total length of the minimal `Vlu16N` encodings of `vals`.
pub open spec fn tail_len(vals: Seq<u16>) -> nat
    decreases vals.len(),
{
    if vals.len() == 0 {
        0
    } else {
        vlu_len(vals.last() as nat) + tail_len(vals.drop_last())
    }
}

/// The compacted reverse tail: the reversed encodings of `vals`, the last
/// stored value first.
pub open spec fn rev_tail(vals: Seq<u16>) -> Seq<u8>
    decreases vals.len(),
{
    if vals.len() == 0 {
        seq![]
    } else {
        vlu_nibbles_rev(vals.last() as nat) + rev_tail(vals.drop_last())
    }
}

/// What `finish` writes after the forward data that ends at nibble `np`:
/// a zero padding nibble where that makes the total even, then the
/// compacted reverse tail.
pub open spec fn finished_tail(vals: Seq<u16>, np: int) -> Seq<u8> {
    (if (np + tail_len(vals)) % 2 == 1 {
        seq![0u8]
    } else {
        seq![]
    }) + rev_tail(vals)
}

pub proof fn lemma_rev_tail_len(vals: Seq<u16>)
    ensures
        rev_tail(vals).len() == tail_len(vals),
        tail_len(vals) <= 6 * vals.len(),
    decreases vals.len(),
{
    if vals.len() > 0 {
        let v = vals.last() as nat;
        lemma_vlu_enc_rev(v, vlu_len(v), false);
        lemma_vlu_enc_shape(v, vlu_len(v), false);
        lemma_vlu_len_monotonic(v, u16::MAX as nat);
        reveal_with_fuel(vlu_len, 7);
        lemma_rev_tail_len(vals.drop_last());
    }
}

proof fn lemma_write_nibbles_keeps_after(s: Seq<u8>, q: int, ns: Seq<u8>, i: int)
    requires
        0 <= q,
        2 * i >= q + ns.len(),
        0 <= i < s.len(),
    ensures
        write_nibbles(s, q, ns)[i] == s[i],
        write_nibbles(s, q, ns).len() == s.len(),
    decreases ns.len(),
{
    if ns.len() > 0 {
        lemma_write_nibbles_keeps_after(with_nibble(s, q, ns[0]), q + 1, ns.drop_first(), i);
    }
}

proof fn lemma_write_bits_keeps_after(s: Seq<u8>, b: int, bits: Seq<bool>, i: int)
    requires
        0 <= b,
        8 * i >= b + bits.len(),
        0 <= i < s.len(),
    ensures
        write_bits(s, b, bits)[i] == s[i],
        write_bits(s, b, bits).len() == s.len(),
    decreases bits.len(),
{
    if bits.len() > 0 {
        lemma_write_bits_keeps_after(with_bit(s, b, bits[0]), b + 1, bits.drop_first(), i);
    }
}

/// A value that can write itself into a `BufWriter`.
pub trait SerializeShrinkWrap {
    /// Whether writing the value into `before` may give `after` and `r`.
    spec fn writes(&self, before: &BufWriter, after: &BufWriter, r: Result<(), Error>) -> bool;

    fn ser_shrink_wrap(&self, wr: &mut BufWriter) -> (r: Result<(), Error>)
        requires
            old(wr).wf(),
        ensures
            final(wr).wf(),
            self.writes(old(wr), final(wr), r),
    ;
}

/// Writer over a borrowed byte buffer at single-bit resolution.
///
/// Bits are filled most significant first. `write_u16_rev` stores values at
/// the end of the buffer, shrinking the forward window; `finish` re-encodes
/// them as a compact tail right after the forward data.
pub struct BufWriter<'i> {
    buf: &'i mut [u8],
    // Next byte to write to.
    byte_idx: usize,
    // Next bit to write to, 7 being the most significant.
    bit_idx: u8,
    // End of the forward window; shrinks when write_u16_rev() is used.
    len_bytes: usize,
}

impl<'i> BufWriter<'i> {
    /// The bytes of the buffer.
    pub closed spec fn bytes(&self) -> Seq<u8> {
        self.buf@
    }

    /// The cursor, in bits from the buffer's start.
    pub closed spec fn pos(&self) -> int {
        8 * self.byte_idx + 7 - self.bit_idx
    }

    /// The end of the forward window, in bytes.
    pub closed spec fn limit(&self) -> int {
        self.len_bytes as int
    }

    pub closed spec fn wf(&self) -> bool {
        &&& self.bit_idx <= 7
        &&& self.pos() <= 8 * self.len_bytes
        &&& self.len_bytes <= self.buf@.len()
        &&& (self.buf@.len() - self.len_bytes) % 2 == 0
        &&& 8 * self.buf@.len() <= usize::MAX
    }

    pub proof fn lemma_bounds(&self)
        requires
            self.wf(),
        ensures
            0 <= self.pos() <= 8 * self.limit(),
            self.limit() <= self.bytes().len(),
    {
    }

    /// The values stored by `write_u16_rev`, first stored first.
    pub open spec fn reversed(&self) -> Seq<u16> {
        reverse_slots(self.bytes(), self.limit())
    }

    /// `self` is `old` with the cursor moved to `pos`, the window and the
    /// stored values as they were, and the buffer now holding `bytes`.
    pub open spec fn moved(&self, old: &Self, pos: int, bytes: Seq<u8>) -> bool {
        &&& self.wf()
        &&& self.limit() == old.limit()
        &&& self.pos() == pos
        &&& self.bytes() == bytes
    }

    /// A writer over the whole of `buf`.
    pub fn new(buf: &'i mut [u8]) -> (r: Self)
        requires
            8 * old(buf)@.len() <= usize::MAX,
        ensures
            r.wf(),
            r.bytes() == old(buf)@,
            r.pos() == 0,
            r.limit() == old(buf)@.len(),
            r.reversed().len() == 0,
    {
        let len_bytes = buf.len();
        BufWriter { buf, len_bytes, byte_idx: 0, bit_idx: 7 }
    }

    /// The number of whole bytes left in the forward window.
    pub fn bytes_left(&self) -> (r: usize)
        requires
            self.wf(),
        ensures
            r == (8 * self.limit() - self.pos()) / 8,
    {
        if self.bit_idx == 7 {
            self.len_bytes - self.byte_idx
        } else {
            self.len_bytes - self.byte_idx - 1
        }
    }

    fn put_bit(&mut self, val: bool)
        requires
            old(self).wf(),
            old(self).pos() < 8 * old(self).limit(),
        ensures
            final(self).moved(old(self), old(self).pos() + 1, with_bit(old(self).bytes(), old(self).pos(), val)),
    {
        let i = self.byte_idx;
        let m: u8 = 1u8 << self.bit_idx;
        let b = self.buf[i];
        self.buf[i] = if val {
            b | m
        } else {
            b & !m
        };
        if self.bit_idx == 0 {
            self.bit_idx = 7;
            self.byte_idx = i + 1;
        } else {
            self.bit_idx = self.bit_idx - 1;
        }
    }

    /// Writes zero bits up to the next multiple of `m` bits.
    fn zero_to(&mut self, m: u8)
        requires
            old(self).wf(),
            m == 4 || m == 8,
            old(self).pos() + pad_bits(old(self).pos(), m as int) <= 8 * old(self).limit(),
        ensures
            final(self).moved(
                old(self),
                old(self).pos() + pad_bits(old(self).pos(), m as int),
                write_bits(old(self).bytes(), old(self).pos(), zeros(pad_bits(old(self).pos(), m as int) as nat)),
            ),
    {
        let ghost s0 = self.bytes();
        let ghost p0 = self.pos();
        let ghost pad = pad_bits(p0, m as int);
        let ghost mut k: int = 0;
        proof {
            lemma_pad_bits(p0, m as int, 0);
        }
        while self.pos_bits() % (m as usize) != 0
            invariant
                self.wf(),
                self.limit() == old(self).limit(),
                m == 4 || m == 8,
                p0 == old(self).pos(),
                s0 == old(self).bytes(),
                pad == pad_bits(p0, m as int),
                p0 >= 0,
                p0 + pad <= 8 * self.limit(),
                0 <= k <= pad,
                k == pad <==> (p0 + k) % (m as int) == 0,
                self.pos() == p0 + k,
                self.bytes() == write_bits(s0, p0, zeros(k as nat)),
            decreases pad - k,
        {
            proof {
                lemma_pad_bits(p0, m as int, k + 1);
            }
            proof {
                lemma_write_bits_concat(s0, p0, zeros(k as nat), seq![false]);
                assert(zeros(k as nat) + seq![false] =~= zeros((k + 1) as nat));
                assert(write_bits(self.bytes(), self.pos(), seq![false]) == write_bits(
                    with_bit(self.bytes(), self.pos(), false), self.pos() + 1, seq![false].drop_first()));
                assert(seq![false].drop_first() =~= Seq::<bool>::empty());
            }
            self.put_bit(false);
            proof {
                k = k + 1;
            }
        }
    }

    /// Writes one bit.
    pub fn write_bool(&mut self, val: bool) -> (r: Result<(), Error>)
        requires
            old(self).wf(),
        ensures
            match r {
                Ok(()) => {
                    &&& old(self).pos() < 8 * old(self).limit()
                    &&& final(self).moved(old(self), old(self).pos() + 1, with_bit(old(self).bytes(), old(self).pos(), val))
                },
                Err(e) => e == Error::OutOfBounds && old(self).pos() == 8 * old(self).limit() && *final(self) == *old(self),
            },
    {
        if self.byte_idx >= self.len_bytes {
            return Err(Error::OutOfBounds);
        }
        self.put_bit(val);
        Ok(())
    }

    /// Writes the low `n` bits of `val`, most significant first, with no
    /// realignment.
    pub fn write_up_to_16(&mut self, n: u8, val: u16) -> (r: Result<(), Error>)
        requires
            old(self).wf(),
            n <= 16,
        ensures
            match r {
                Ok(()) => {
                    &&& old(self).pos() + n <= 8 * old(self).limit()
                    &&& final(self).moved(old(self), old(self).pos() + n, write_bits(old(self).bytes(), old(self).pos(), bits_of(val, n as nat)))
                },
                Err(e) => e == Error::OutOfBounds && old(self).pos() + n > 8 * old(self).limit() && *final(self) == *old(self),
            },
    {
        if self.len_bytes * 8 - self.pos_bits() < n as usize {
            return Err(Error::OutOfBounds);
        }
        let ghost s0 = self.bytes();
        let ghost p0 = self.pos();
        let ghost all = bits_of(val, n as nat);
        let mut i: u8 = 0;
        while i < n
            invariant
                self.wf(),
                self.limit() == old(self).limit(),
                p0 == old(self).pos(),
                s0 == old(self).bytes(),
                all == bits_of(val, n as nat),
                n <= 16,
                p0 + n <= 8 * self.limit(),
                i <= n,
                self.pos() == p0 + i,
                self.bytes() == write_bits(s0, p0, all.take(i as int)),
            decreases n - i,
        {
            let bit = (val >> (n - 1 - i) as u16) & 1u16 == 1u16;
            assert(bit == all[i as int]);
            proof {
                lemma_write_bits_concat(s0, p0, all.take(i as int), seq![bit]);
                assert(all.take(i as int) + seq![bit] =~= all.take(i + 1));
                assert(seq![bit].drop_first() =~= Seq::<bool>::empty());
                assert(write_bits(self.bytes(), self.pos(), seq![bit]) == write_bits(
                    with_bit(self.bytes(), self.pos(), bit), self.pos() + 1, seq![bit].drop_first()));
            }
            self.put_bit(bit);
            i = i + 1;
        }
        assert(all.take(n as int) =~= all);
        Ok(())
    }

    /// Writes the low `n` bits of `val`, most significant first, with no
    /// realignment.
    pub fn write_up_to_8(&mut self, n: u8, val: u8) -> (r: Result<(), Error>)
        requires
            old(self).wf(),
            n <= 8,
        ensures
            match r {
                Ok(()) => {
                    &&& old(self).pos() + n <= 8 * old(self).limit()
                    &&& final(self).moved(old(self), old(self).pos() + n, write_bits(old(self).bytes(), old(self).pos(), bits_of(val as u16, n as nat)))
                },
                Err(e) => e == Error::OutOfBounds && old(self).pos() + n > 8 * old(self).limit() && *final(self) == *old(self),
            },
    {
        self.write_up_to_16(n, val as u16)
    }

    fn pos_bits(&self) -> (r: usize)
        requires
            self.wf(),
        ensures
            r == self.pos(),
    {
        self.byte_idx * 8 + 7 - self.bit_idx as usize
    }

    /// Writes the low four bits of `v` into the nibble at the cursor.
    fn put_u4(&mut self, v: u8)
        requires
            old(self).wf(),
            old(self).pos() % 4 == 0,
            old(self).pos() + 4 <= 8 * old(self).limit(),
        ensures
            final(self).moved(old(self), old(self).pos() + 4, write_nibbles(old(self).bytes(), old(self).pos() / 4, seq![v])),
    {
        let ghost s0 = self.bytes();
        let ghost q = self.pos() / 4;
        let i = self.byte_idx;
        let b = self.buf[i];
        if self.bit_idx == 7 {
            self.buf[i] = (b % 16) + (v % 16) * 16;
            self.bit_idx = 3;
        } else {
            self.buf[i] = (b / 16) * 16 + v % 16;
            self.bit_idx = 7;
            self.byte_idx = i + 1;
        }
        proof {
            assert(seq![v].drop_first() =~= Seq::<u8>::empty());
            assert(self.bytes() =~= with_nibble(s0, q, v));
            assert(write_nibbles(s0, q, seq![v]) == write_nibbles(with_nibble(s0, q, v), q + 1, Seq::<u8>::empty()));
        }
    }

    /// Writes the nibbles `vlu_enc(v, k, cont)`.
    fn put_vlu_enc(&mut self, v: u32, k: usize, cont: bool)
        requires
            old(self).wf(),
            old(self).pos() % 4 == 0,
            old(self).pos() + 4 * k <= 8 * old(self).limit(),
        ensures
            final(self).moved(old(self), old(self).pos() + 4 * k, write_nibbles(old(self).bytes(), old(self).pos() / 4, vlu_enc(v as nat, k as nat, cont))),
        decreases k,
    {
        if k == 0 {
            return;
        }
        let ghost s0 = self.bytes();
        let ghost q = self.pos() / 4;
        proof {
            lemma_vlu_enc_shape((v / 8) as nat, (k - 1) as nat, true);
        }
        self.put_vlu_enc(v / 8, k - 1, true);
        let n: u8 = if cont {
            (v % 8) as u8 + 8
        } else {
            (v % 8) as u8
        };
        self.put_u4(n);
        proof {
            let a = vlu_enc((v / 8) as nat, (k - 1) as nat, true);
            lemma_write_nibbles_concat(s0, q, a, seq![n]);
            assert(a + seq![n] =~= vlu_enc(v as nat, k as nat, cont));
        }
    }

    /// Writes the nibbles `vlu_enc_rev(v, k, first)`.
    fn put_vlu_enc_rev(&mut self, v: u16, k: usize, first: bool)
        requires
            old(self).wf(),
            old(self).pos() % 4 == 0,
            old(self).pos() + 4 * k <= 8 * old(self).limit(),
        ensures
            final(self).moved(old(self), old(self).pos() + 4 * k, write_nibbles(old(self).bytes(), old(self).pos() / 4, vlu_enc_rev(v as nat, k as nat, first))),
        decreases k,
    {
        if k == 0 {
            return;
        }
        let ghost s0 = self.bytes();
        let ghost q = self.pos() / 4;
        let n: u8 = if first {
            (v % 8) as u8
        } else {
            (v % 8) as u8 + 8
        };
        self.put_u4(n);
        self.put_vlu_enc_rev(v / 8, k - 1, false);
        proof {
            let a = vlu_enc_rev((v / 8) as nat, (k - 1) as nat, false);
            lemma_write_nibbles_concat(s0, q, seq![n], a);
            assert(seq![n] + a =~= vlu_enc_rev(v as nat, k as nat, first));
        }
    }

    /// Zeroes the rest of the current nibble, then writes the low four bits
    /// of `val` into the next one.
    pub fn write_u4(&mut self, val: u8) -> (r: Result<(), Error>)
        requires
            old(self).wf(),
        ensures
            ({
                let at = old(self).pos() + pad_bits(old(self).pos(), 4);
                let zeroed = write_bits(old(self).bytes(), old(self).pos(), zeros(pad_bits(old(self).pos(), 4) as nat));
                match r {
                    Ok(()) => at + 4 <= 8 * old(self).limit() && final(self).moved(old(self), at + 4, write_nibbles(zeroed, at / 4, seq![val])),
                    Err(e) => e == Error::OutOfBounds && at + 4 > 8 * old(self).limit() && *final(self) == *old(self),
                }
            }),
    {
        let p = self.pos_bits();
        proof {
            lemma_pad_bits(p as int, 4, 0);
        }
        let at = if p % 4 == 0 {
            p
        } else {
            p + 4 - p % 4
        };
        if at / 4 >= 2 * self.len_bytes {
            return Err(Error::OutOfBounds);
        }
        self.zero_to(4);
        self.put_u4(val);
        Ok(())
    }

    /// Zeroes the rest of the current byte, then writes `val` into the next
    /// one.
    pub fn write_u8(&mut self, val: u8) -> (r: Result<(), Error>)
        requires
            old(self).wf(),
        ensures
            ({
                let at = old(self).pos() + pad_bits(old(self).pos(), 8);
                let zeroed = write_bits(old(self).bytes(), old(self).pos(), zeros(pad_bits(old(self).pos(), 8) as nat));
                match r {
                    Ok(()) => at + 8 <= 8 * old(self).limit() && final(self).moved(old(self), at + 8, zeroed.update(at / 8, val)),
                    Err(e) => e == Error::OutOfBounds && at + 8 > 8 * old(self).limit() && *final(self) == *old(self),
                }
            }),
    {
        let p = self.pos_bits();
        proof {
            lemma_pad_bits(p as int, 8, 0);
        }
        let at = if p % 8 == 0 {
            p
        } else {
            p + 8 - p % 8
        };
        if at / 8 >= self.len_bytes {
            return Err(Error::OutOfBounds);
        }
        self.zero_to(8);
        let i = self.byte_idx;
        self.buf[i] = val;
        self.byte_idx = i + 1;
        Ok(())
    }

    /// Zeroes the rest of the current nibble, then writes `val` as a
    /// `Vlu16N` in as few nibbles as it takes.
    pub fn write_vlu16n(&mut self, val: u16) -> (r: Result<(), Error>)
        requires
            old(self).wf(),
        ensures
            ({
                let at = old(self).pos() + pad_bits(old(self).pos(), 4);
                let zeroed = write_bits(old(self).bytes(), old(self).pos(), zeros(pad_bits(old(self).pos(), 4) as nat));
                let k = vlu_len(val as nat);
                match r {
                    Ok(()) => at + 4 * k <= 8 * old(self).limit() && final(self).moved(old(self), at + 4 * k, write_nibbles(zeroed, at / 4, vlu_nibbles(val as nat))),
                    Err(e) => e == Error::OutOfBounds && at + 4 * k > 8 * old(self).limit() && *final(self) == *old(self),
                }
            }),
    {
        let k = vlu_len_nibbles(val as u32);
        let p = self.pos_bits();
        proof {
            lemma_pad_bits(p as int, 4, 0);
        }
        let at = if p % 4 == 0 {
            p
        } else {
            p + 4 - p % 4
        };
        if at / 4 + k > 2 * self.len_bytes {
            return Err(Error::OutOfBounds);
        }
        self.zero_to(4);
        self.put_vlu_enc(val as u32, k, false);
        Ok(())
    }

    /// Stores `val` big-endian in the last two bytes of the forward window,
    /// which then ends two bytes earlier.
    pub fn write_u16_rev(&mut self, val: u16) -> (r: Result<(), Error>)
        requires
            old(self).wf(),
        ensures
            match r {
                Ok(()) => {
                    let n = old(self).limit();
                    &&& old(self).pos() + 16 <= 8 * n
                    &&& final(self).wf()
                    &&& final(self).pos() == old(self).pos()
                    &&& final(self).limit() == n - 2
                    &&& final(self).bytes() == old(self).bytes().update(n - 2, (val / 256) as u8).update(n - 1, (val % 256) as u8)
                    &&& final(self).reversed() == old(self).reversed().push(val)
                },
                Err(e) => e == Error::OutOfBoundsReverse && old(self).pos() + 16 > 8 * old(self).limit() && *final(self) == *old(self),
            },
    {
        if self.bytes_left() < 2 {
            return Err(Error::OutOfBoundsReverse);
        }
        let ghost old_vals = self.reversed();
        let n = self.len_bytes;
        self.buf[n - 2] = (val / 256) as u8;
        self.buf[n - 1] = (val % 256) as u8;
        self.len_bytes = n - 2;
        assert(self.reversed() =~= old_vals.push(val));
        Ok(())
    }

    /// The value stored by the `m`-th most recent `write_u16_rev`, counting
    /// from zero.
    fn slot(&self, m: usize) -> (r: u16)
        requires
            self.wf(),
            m < self.reversed().len(),
        ensures
            r == self.reversed()[self.reversed().len() - 1 - m],
    {
        let i = self.len_bytes + 2 * m;
        self.buf[i] as u16 * 256 + self.buf[i + 1] as u16
    }

    /// The number of nibbles the stored values take as minimal `Vlu16N`s.
    fn tail_nibbles(&self) -> (r: usize)
        requires
            self.wf(),
        ensures
            r == tail_len(self.reversed()),
            r <= 6 * self.reversed().len(),
    {
        let ghost vals = self.reversed();
        let k = (self.buf.len() - self.len_bytes) / 2;
        proof {
            lemma_rev_tail_len(vals);
        }
        let mut total: usize = 0;
        let mut m: usize = 0;
        assert(vals.take(k as int) =~= vals);
        while m < k
            invariant
                self.wf(),
                vals == self.reversed(),
                k == vals.len(),
                m <= k,
                total + tail_len(vals.take(k - m)) == tail_len(vals),
                tail_len(vals) <= 6 * k,
            decreases k - m,
        {
            let v = self.slot(m);
            let len = Vlu16N(v).len_nibbles();
            proof {
                assert(vals.take(k - m).drop_last() =~= vals.take(k - m - 1));
            }
            total = total + len;
            m = m + 1;
        }
        assert(vals.take(0) =~= Seq::<u16>::empty());
        total
    }

    /// Writes the compacted reverse tail at the cursor.
    fn put_rev_tail(&mut self)
        requires
            old(self).wf(),
            old(self).pos() % 4 == 0,
            old(self).pos() / 4 + tail_len(old(self).reversed()) <= 2 * old(self).limit(),
        ensures
            final(self).moved(
                old(self),
                old(self).pos() + 4 * tail_len(old(self).reversed()),
                write_nibbles(old(self).bytes(), old(self).pos() / 4, rev_tail(old(self).reversed())),
            ),
    {
        let ghost s1 = self.bytes();
        let ghost vals = self.reversed();
        let ghost lim = self.limit();
        let ghost q = self.pos() / 4;
        let n = self.buf.len();
        let k = (n - self.len_bytes) / 2;
        proof {
            lemma_rev_tail_len(vals);
        }
        let ghost mut written: Seq<u8> = seq![];
        let mut m: usize = 0;
        assert(vals.take(k as int) =~= vals);
        while m < k
            invariant
                self.wf(),
                self.limit() == lim,
                self.buf@.len() == n,
                s1.len() == n,
                vals == reverse_slots(s1, lim),
                k == vals.len(),
                m <= k,
                2 * k == n - lim,
                self.pos() == 4 * (q + written.len()),
                written + rev_tail(vals.take(k - m)) == rev_tail(vals),
                rev_tail(vals).len() == tail_len(vals),
                q + tail_len(vals) <= 2 * lim,
                self.bytes() == write_nibbles(s1, q, written),
                forall|i: int| lim <= i < n ==> #[trigger] self.bytes()[i] == s1[i],
            decreases k - m,
        {
            assert(self.reversed() =~= vals);
            let v = self.slot(m);
            let len = Vlu16N(v).len_nibbles();
            let ghost before = self.bytes();
            let ghost enc = vlu_enc_rev(v as nat, len as nat, true);
            proof {
                assert(vals.take(k - m).drop_last() =~= vals.take(k - m - 1));
                assert(vals.take(k - m).last() == v);
                lemma_vlu_enc_rev(v as nat, len as nat, false);
                lemma_vlu_enc_shape(v as nat, len as nat, false);
                assert(rev_tail(vals.take(k - m)) == enc + rev_tail(vals.take(k - m - 1)));
                lemma_rev_tail_len(vals.take(k - m));
                assert(written + rev_tail(vals.take(k - m)) =~= (written + enc) + rev_tail(vals.take(k - m - 1)));
            }
            self.put_vlu_enc_rev(v, len, true);
            proof {
                lemma_write_nibbles_concat(s1, q, written, enc);
                lemma_write_nibbles(before, q + written.len(), enc, 0);
                assert forall|i: int| lim <= i < n implies #[trigger] self.bytes()[i] == s1[i] by {
                    lemma_write_nibbles_keeps_after(before, q + written.len(), enc, i);
                }
                written = written + enc;
            }
            m = m + 1;
        }
        proof {
            assert(vals.take(0) =~= Seq::<u16>::empty());
            assert(written =~= rev_tail(vals));
        }
    }

    /// Ends writing and returns the used prefix of the buffer.
    ///
    /// Without reverse values the current byte is zero-padded. Otherwise the
    /// current nibble is zero-padded, a zero nibble is added where the total
    /// would be odd, and each stored value follows as a reversed `Vlu16N`,
    /// the last stored first; read back to front, the tail gives the values
    /// in the order they were stored. Fails with `OutOfBoundsReverseCompact`
    /// where that does not fit in front of the stored values.
    #[verifier::rlimit(40)]
    pub fn finish(self) -> (r: Result<&'i [u8], Error>)
        requires
            self.wf(),
        ensures
            ({
                let vals = self.reversed();
                if vals.len() == 0 {
                    let at = self.pos() + pad_bits(self.pos(), 8);
                    r matches Ok(out) && out@ == write_bits(self.bytes(), self.pos(), zeros(pad_bits(self.pos(), 8) as nat)).take(at / 8)
                } else {
                    let at = self.pos() + pad_bits(self.pos(), 4);
                    let np = at / 4;
                    let t = finished_tail(vals, np);
                    let zeroed = write_bits(self.bytes(), self.pos(), zeros(pad_bits(self.pos(), 4) as nat));
                    match r {
                        Ok(out) => np + t.len() <= 2 * self.limit() && out@ == write_nibbles(zeroed, np, t).take((np + t.len()) / 2),
                        Err(e) => e == Error::OutOfBoundsReverseCompact && np + t.len() > 2 * self.limit(),
                    }
                }
            }),
    {
        let mut w = self;
        let ghost s0 = w.bytes();
        let ghost vals = w.reversed();
        let n = w.buf.len();
        let k = (n - w.len_bytes) / 2;
        if k == 0 {
            let p = w.pos_bits();
            proof {
                lemma_pad_bits(p as int, 8, 0);
            }
            w.zero_to(8);
            let end = w.byte_idx;
            let out: &'i [u8] = w.buf;
            return Ok(&out[0..end]);
        }
        let total = w.tail_nibbles();
        proof {
            lemma_rev_tail_len(vals);
        }
        let p = w.pos_bits();
        proof {
            lemma_pad_bits(p as int, 4, 0);
        }
        let at = if p % 4 == 0 {
            p
        } else {
            p + 4 - p % 4
        };
        let np = at / 4;
        let padn: usize = (np + total) % 2;
        if np + padn + total > 2 * w.len_bytes {
            return Err(Error::OutOfBoundsReverseCompact);
        }
        let ghost lim = w.limit();
        w.zero_to(4);
        let ghost zeroed = w.bytes();
        let ghost pad_seq: Seq<u8> = if padn == 1 { seq![0u8] } else { seq![] };
        if padn == 1 {
            w.put_u4(0);
        } else {
            assert(write_nibbles(zeroed, np as int, pad_seq) == zeroed);
        }
        let ghost s1 = w.bytes();
        proof {
            lemma_write_bits(s0, p as int, zeros(pad_bits(p as int, 4) as nat), 0);
            lemma_write_nibbles(zeroed, np as int, pad_seq, 0);
            assert forall|i: int| lim <= i < n implies #[trigger] s1[i] == s0[i] by {
                lemma_write_bits_keeps_after(s0, p as int, zeros(pad_bits(p as int, 4) as nat), i);
                lemma_write_nibbles_keeps_after(zeroed, np as int, pad_seq, i);
            }
            assert(w.reversed() =~= vals);
        }
        w.put_rev_tail();
        proof {
            lemma_write_nibbles_concat(zeroed, np as int, pad_seq, rev_tail(vals));
            assert(pad_seq + rev_tail(vals) == finished_tail(vals, np as int));
        }
        let end = w.byte_idx;
        let out: &'i [u8] = w.buf;
        Ok(&out[0..end])
    }

    /// The whole buffer as it stands, reverse slots included.
    pub fn as_bytes(&self) -> (r: &[u8])
        requires
            self.wf(),
        ensures
            r@ == self.bytes(),
    {
        &*self.buf
    }

    /// Writes `val` through its own serialisation.
    pub fn write<T: SerializeShrinkWrap>(&mut self, val: &T) -> (r: Result<(), Error>)
        requires
            old(self).wf(),
        ensures
            final(self).wf(),
            val.writes(old(self), final(self), r),
    {
        val.ser_shrink_wrap(self)
    }
}

} // verus!

verus! {

impl SerializeShrinkWrap for bool {
    open spec fn writes(&self, before: &BufWriter, after: &BufWriter, r: Result<(), Error>) -> bool {
        match r {
            Ok(()) => {
                &&& before.pos() < 8 * before.limit()
                &&& after.moved(before, before.pos() + 1, with_bit(before.bytes(), before.pos(), *self))
            },
            Err(e) => e == Error::OutOfBounds && before.pos() == 8 * before.limit() && *after == *before,
        }
    }

    fn ser_shrink_wrap(&self, wr: &mut BufWriter) -> (r: Result<(), Error>) {
        wr.write_bool(*self)
    }
}

impl SerializeShrinkWrap for u8 {
    open spec fn writes(&self, before: &BufWriter, after: &BufWriter, r: Result<(), Error>) -> bool {
        let at = before.pos() + pad_bits(before.pos(), 8);
        let zeroed = write_bits(before.bytes(), before.pos(), zeros(pad_bits(before.pos(), 8) as nat));
        match r {
            Ok(()) => at + 8 <= 8 * before.limit() && after.moved(before, at + 8, zeroed.update(at / 8, *self)),
            Err(e) => e == Error::OutOfBounds && at + 8 > 8 * before.limit() && *after == *before,
        }
    }

    fn ser_shrink_wrap(&self, wr: &mut BufWriter) -> (r: Result<(), Error>) {
        wr.write_u8(*self)
    }
}

impl SerializeShrinkWrap for Vlu16N {
    open spec fn writes(&self, before: &BufWriter, after: &BufWriter, r: Result<(), Error>) -> bool {
        let at = before.pos() + pad_bits(before.pos(), 4);
        let zeroed = write_bits(before.bytes(), before.pos(), zeros(pad_bits(before.pos(), 4) as nat));
        let k = vlu_len(self.0 as nat);
        match r {
            Ok(()) => at + 4 * k <= 8 * before.limit() && after.moved(
                before,
                at + 4 * k,
                write_nibbles(zeroed, at / 4, vlu_nibbles(self.0 as nat)),
            ),
            Err(e) => e == Error::OutOfBounds && at + 4 * k > 8 * before.limit() && *after == *before,
        }
    }

    fn ser_shrink_wrap(&self, wr: &mut BufWriter) -> (r: Result<(), Error>) {
        wr.write_vlu16n(self.0)
    }
}

} // verus!
