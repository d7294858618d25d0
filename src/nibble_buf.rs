//! Nibble-level reader and writer over borrowed byte buffers.
use vstd::prelude::*;
use crate::bit_buf::{BitBuf, BitBufMut};
use crate::bits::bits_from;
use crate::error::Error;
use crate::text::{decimal, digit_text, hex_grouped, hex_spaced, push_decimal};
use vstd::string::StringExecFns;
use crate::nibble::{u16_nibbles, u32_nibbles, nibbles_of, with_nibble, write_nibbles, lemma_write_nibbles, lemma_write_nibbles_concat, byte_nibbles, bytes_nibbles};
use crate::vlu::{lemma_vlu_enc_shape, vlu_enc, vlu_nibbles, vlu_len, vlu_len_nibbles, lemma_vlu_scan_ok, vlu_value, vlu_scan, vlu_extent, lemma_vlu_value_take_step};

verus! {

/// Reader that treats a byte buffer as a stream of nibbles.
///
/// The usable window may be shorter than the buffer (`limit` nibbles).
#[derive(Clone, Copy)]
pub struct NibbleBuf<'i> {
    buf: &'i [u8],
    // Number of nibbles that may be read, counted from the buffer's start.
    len_nibbles: usize,
    // Next byte to read.
    idx: usize,
    // Whether the next nibble is the high half of `buf[idx]`.
    is_at_byte_boundary: bool,
}

/// Whether two byte slices hold the same bytes.
fn bytes_equal(a: &[u8], b: &[u8]) -> (r: bool)
    ensures
        r == (a@ == b@),
{
    if a.len() != b.len() {
        return false;
    }
    let mut i: usize = 0;
    while i < a.len()
        invariant
            a@.len() == b@.len(),
            i <= a@.len(),
            forall|j: int| 0 <= j < i ==> a@[j] == b@[j],
        decreases a@.len() - i,
    {
        if a[i] != b[i] {
            assert(a@[i as int] != b@[i as int]);
            return false;
        }
        i = i + 1;
    }
    assert(a@ =~= b@);
    true
}

impl<'i> NibbleBuf<'i> {
    /// The underlying bytes.
    pub closed spec fn bytes(&self) -> Seq<u8> {
        self.buf@
    }

    /// The end of the readable window, in nibbles from the buffer's start.
    pub closed spec fn limit(&self) -> int {
        self.len_nibbles as int
    }

    /// The cursor, in nibbles from the buffer's start.
    pub closed spec fn pos(&self) -> int {
        2 * self.idx + if self.is_at_byte_boundary { 0int } else { 1int }
    }

    pub closed spec fn wf(&self) -> bool {
        &&& self.len_nibbles <= 2 * self.buf@.len()
        &&& self.pos() <= 2 * self.buf@.len()
        &&& self.pos() <= usize::MAX
    }

    /// How many nibbles are left to read.
    pub open spec fn left(&self) -> int {
        if self.pos() < self.limit() {
            self.limit() - self.pos()
        } else {
            0
        }
    }

    /// The nibbles not read yet.
    pub open spec fn rest(&self) -> Seq<u8> {
        nibbles_of(self.bytes(), self.pos(), self.left())
    }

    /// Same buffer and window, whatever the cursor.
    pub open spec fn same_window(&self, other: &Self) -> bool {
        self.bytes() == other.bytes() && self.limit() == other.limit()
    }

    /// `self` is `old` moved on by `n` nibbles.
    pub open spec fn advanced(&self, old: &Self, n: int) -> bool {
        &&& self.wf()
        &&& self.same_window(old)
        &&& self.pos() == old.pos() + n
    }

    /// A reader over the first `len_nibbles` nibbles of `buf`; fails with
    /// `OutOfBounds` where the buffer is shorter than that.
    pub fn new(buf: &'i [u8], len_nibbles: usize) -> (r: Result<Self, Error>)
        requires
            2 * buf@.len() <= usize::MAX,
        ensures
            match r {
                Ok(rd) => {
                    &&& len_nibbles <= 2 * buf@.len()
                    &&& rd.wf()
                    &&& rd.bytes() == buf@
                    &&& rd.limit() == len_nibbles
                    &&& rd.pos() == 0
                },
                Err(e) => e == Error::OutOfBounds && len_nibbles > 2 * buf@.len(),
            },
    {
        if len_nibbles > buf.len() * 2 {
            Err(Error::OutOfBounds)
        } else {
            Ok(NibbleBuf { buf, len_nibbles, idx: 0, is_at_byte_boundary: true })
        }
    }

    /// A reader over the whole of `buf`.
    pub fn new_all(buf: &'i [u8]) -> (r: Self)
        requires
            2 * buf@.len() <= usize::MAX,
        ensures
            r.wf(),
            r.bytes() == buf@,
            r.limit() == 2 * buf@.len(),
            r.pos() == 0,
    {
        NibbleBuf { buf, len_nibbles: buf.len() * 2, idx: 0, is_at_byte_boundary: true }
    }

    /// The end of the readable window, in nibbles.
    pub(crate) fn limit_nibbles(&self) -> (r: usize)
        ensures
            r == self.limit(),
    {
        self.len_nibbles
    }

    /// Whether the reader is well formed, checked at run time.
    pub(crate) fn check_wf(&self) -> (r: bool)
        ensures
            r == self.wf(),
    {
        if self.buf.len() < self.idx {
            return false;
        }
        let room = self.buf.len() - self.idx;
        if !self.is_at_byte_boundary && room == 0 {
            return false;
        }
        if self.len_nibbles / 2 > self.buf.len() || (self.len_nibbles / 2 == self.buf.len() && self.len_nibbles % 2 == 1) {
            return false;
        }
        if self.idx > (usize::MAX - 1) / 2 {
            return false;
        }
        true
    }

    pub fn nibbles_pos(&self) -> (r: usize)
        requires
            self.wf(),
        ensures
            r == self.pos(),
    {
        if self.is_at_byte_boundary {
            self.idx * 2
        } else {
            self.idx * 2 + 1
        }
    }

    pub fn nibbles_left(&self) -> (r: usize)
        requires
            self.wf(),
        ensures
            r == self.left(),
    {
        if !self.is_at_end() {
            self.len_nibbles - self.nibbles_pos()
        } else {
            0
        }
    }

    pub fn is_at_end(&self) -> (r: bool)
        requires
            self.wf(),
        ensures
            r == (self.pos() >= self.limit()),
    {
        self.nibbles_pos() >= self.len_nibbles
    }

    pub fn is_at_byte_boundary(&self) -> (r: bool)
        requires
            self.wf(),
        ensures
            r == (self.pos() % 2 == 0),
    {
        self.is_at_byte_boundary
    }

    /// Ends the readable window at the cursor of `advanced_self`, a reader over
    /// the same bytes; fails with `OutOfBounds` for a reader over other bytes.
    pub fn shrink_to_pos_of(&mut self, advanced_self: &NibbleBuf) -> (r: Result<(), Error>)
        requires
            old(self).wf(),
            advanced_self.wf(),
        ensures
            final(self).wf(),
            final(self).bytes() == old(self).bytes(),
            final(self).pos() == old(self).pos(),
            match r {
                Ok(()) => {
                    &&& old(self).bytes() == advanced_self.bytes()
                    &&& final(self).limit() == advanced_self.pos()
                },
                Err(e) => {
                    &&& e == Error::OutOfBounds
                    &&& old(self).bytes() != advanced_self.bytes()
                    &&& final(self).limit() == old(self).limit()
                },
            },
    {
        if !bytes_equal(self.buf, advanced_self.buf) {
            return Err(Error::OutOfBounds);
        }
        self.len_nibbles = advanced_self.nibbles_pos();
        Ok(())
    }

    /// Reads one nibble.
    pub fn get_nibble(&mut self) -> (r: Result<u8, Error>)
        requires
            old(self).wf(),
        ensures
            match r {
                Ok(n) => {
                    &&& old(self).left() >= 1
                    &&& n == old(self).rest()[0]
                    &&& final(self).advanced(old(self), 1)
                },
                Err(e) => e == Error::OutOfBounds && old(self).left() == 0 && *final(self) == *old(self),
            },
    {
        if self.is_at_end() {
            return Err(Error::OutOfBounds);
        }
        let b = self.buf[self.idx];
        if self.is_at_byte_boundary {
            self.is_at_byte_boundary = false;
            Ok(b / 16)
        } else {
            self.is_at_byte_boundary = true;
            self.idx = self.idx + 1;
            Ok(b % 16)
        }
    }

    /// Reads a variable-length integer whose value may not exceed `max`;
    /// `err` is the error for one that does.
    fn get_vlu(&mut self, max: u32, err: Error) -> (r: Result<u32, Error>)
        requires
            old(self).wf(),
        ensures
            match vlu_scan(old(self).rest(), 0, max as nat, err) {
                Ok((v, n)) => r == Ok::<u32, Error>(v as u32) && final(self).advanced(old(self), n as int),
                Err(e) => r == Err::<u32, Error>(e) && *final(self) == *old(self),
            },
    {
        let ghost r0 = self.rest();
        let mut rd = *self;
        let mut acc: u64 = 0;
        let mut i: usize = 0;
        loop
            invariant
                *self == *old(self),
                r0 == old(self).rest(),
                old(self).wf(),
                rd.advanced(old(self), i as int),
                i <= r0.len(),
                acc as nat == vlu_value(r0.take(i as int)),
                acc <= max,
                vlu_scan(r0, 0, max as nat, err) == vlu_scan(r0, i as nat, max as nat, err),
            decreases r0.len() - i,
        {
            let n = match rd.get_nibble() {
                Ok(n) => n,
                Err(e) => {
                    return Err(e);
                },
            };
            assert(n == r0[i as int]);
            proof {
                lemma_vlu_value_take_step(r0, i as int);
            }
            acc = acc * 8 + (n % 8) as u64;
            if acc > max as u64 {
                return Err(err);
            }
            if n < 8 {
                *self = rd;
                return Ok(acc as u32);
            }
            i = i + 1;
        }
    }

    /// Reads a `Vlu32N`.
    pub fn get_vlu32n(&mut self) -> (r: Result<u32, Error>)
        requires
            old(self).wf(),
        ensures
            match vlu_scan(old(self).rest(), 0, u32::MAX as nat, Error::MalformedVlu32N) {
                Ok((v, n)) => r == Ok::<u32, Error>(v as u32) && final(self).advanced(old(self), n as int),
                Err(e) => r == Err::<u32, Error>(e) && *final(self) == *old(self),
            },
    {
        self.get_vlu(u32::MAX, Error::MalformedVlu32N)
    }

    /// Reads a `Vlu16N`.
    pub fn get_vlu16n(&mut self) -> (r: Result<u16, Error>)
        requires
            old(self).wf(),
        ensures
            match vlu_scan(old(self).rest(), 0, u16::MAX as nat, Error::MalformedVlu16N) {
                Ok((v, n)) => r == Ok::<u16, Error>(v as u16) && final(self).advanced(old(self), n as int),
                Err(e) => r == Err::<u16, Error>(e) && *final(self) == *old(self),
            },
    {
        proof {
            lemma_vlu_scan_ok(self.rest(), 0, u16::MAX as nat, Error::MalformedVlu16N);
        }
        match self.get_vlu(u16::MAX as u32, Error::MalformedVlu16N) {
            Ok(v) => Ok(v as u16),
            Err(e) => Err(e),
        }
    }

    /// Skips a `Vlu32N` without computing its value.
    pub fn skip_vlu32n(&mut self) -> (r: Result<(), Error>)
        requires
            old(self).wf(),
        ensures
            match vlu_extent(old(self).rest(), 0) {
                Some(n) => r == Ok::<(), Error>(()) && final(self).advanced(old(self), n as int),
                None => r == Err::<(), Error>(Error::OutOfBounds) && *final(self) == *old(self),
            },
    {
        let ghost r0 = self.rest();
        let mut rd = *self;
        let mut i: usize = 0;
        loop
            invariant
                *self == *old(self),
                r0 == old(self).rest(),
                old(self).wf(),
                rd.advanced(old(self), i as int),
                i <= r0.len(),
                vlu_extent(r0, 0) == vlu_extent(r0, i as nat),
            decreases r0.len() - i,
        {
            let n = match rd.get_nibble() {
                Ok(n) => n,
                Err(e) => {
                    return Err(e);
                },
            };
            assert(n == r0[i as int]);
            if n < 8 {
                *self = rd;
                return Ok(());
            }
            i = i + 1;
        }
    }

    /// Moves the cursor on by `nibble_count` nibbles.
    pub fn skip(&mut self, nibble_count: usize) -> (r: Result<(), Error>)
        requires
            old(self).wf(),
        ensures
            match r {
                Ok(()) => nibble_count <= old(self).left() && final(self).advanced(old(self), nibble_count as int),
                Err(e) => e == Error::OutOfBounds && nibble_count > old(self).left() && *final(self) == *old(self),
            },
    {
        if self.nibbles_left() < nibble_count {
            return Err(Error::OutOfBounds);
        }
        let p = self.nibbles_pos() + nibble_count;
        self.idx = p / 2;
        self.is_at_byte_boundary = p % 2 == 0;
        Ok(())
    }

    /// Consumes the padding nibble in front of the next byte boundary, if any.
    pub fn align_to_byte(&mut self) -> (r: Result<(), Error>)
        requires
            old(self).wf(),
        ensures
            old(self).pos() % 2 == 0 ==> r == Ok::<(), Error>(()) && *final(self) == *old(self),
            old(self).pos() % 2 == 1 ==> match r {
                Ok(()) => old(self).left() >= 1 && final(self).advanced(old(self), 1),
                Err(e) => e == Error::OutOfBounds && old(self).left() == 0 && *final(self) == *old(self),
            },
    {
        if !self.is_at_byte_boundary {
            match self.get_nibble() {
                Ok(_) => {},
                Err(e) => {
                    return Err(e);
                },
            }
        }
        Ok(())
    }

    /// Reads a byte, aligned or not.
    pub fn get_u8(&mut self) -> (r: Result<u8, Error>)
        requires
            old(self).wf(),
        ensures
            match r {
                Ok(v) => {
                    &&& old(self).left() >= 2
                    &&& byte_nibbles(v) == old(self).rest().take(2)
                    &&& final(self).advanced(old(self), 2)
                },
                Err(e) => e == Error::OutOfBounds && old(self).left() < 2 && *final(self) == *old(self),
            },
    {
        if self.nibbles_left() < 2 {
            return Err(Error::OutOfBounds);
        }
        let mut rd = *self;
        let hi = match rd.get_nibble() {
            Ok(n) => n,
            Err(e) => {
                return Err(e);
            },
        };
        let lo = match rd.get_nibble() {
            Ok(n) => n,
            Err(e) => {
                return Err(e);
            },
        };
        *self = rd;
        let v: u8 = hi * 16 + lo;
        assert(byte_nibbles(v) =~= old(self).rest().take(2));
        Ok(v)
    }

    /// Reads a big-endian `u16`.
    pub fn get_u16_be(&mut self) -> (r: Result<u16, Error>)
        requires
            old(self).wf(),
        ensures
            match r {
                Ok(v) => {
                    &&& old(self).left() >= 4
                    &&& u16_nibbles(v) == old(self).rest().take(4)
                    &&& final(self).advanced(old(self), 4)
                },
                Err(e) => e == Error::OutOfBounds && old(self).left() < 4 && *final(self) == *old(self),
            },
    {
        if self.nibbles_left() < 4 {
            return Err(Error::OutOfBounds);
        }
        let mut rd = *self;
        let hi = match rd.get_u8() {
            Ok(n) => n,
            Err(e) => {
                return Err(e);
            },
        };
        let lo = match rd.get_u8() {
            Ok(n) => n,
            Err(e) => {
                return Err(e);
            },
        };
        *self = rd;
        let v: u16 = hi as u16 * 256 + lo as u16;
        assert(u16_nibbles(v) =~= old(self).rest().take(4));
        Ok(v)
    }

    /// Reads a big-endian `u32`.
    pub fn get_u32_be(&mut self) -> (r: Result<u32, Error>)
        requires
            old(self).wf(),
        ensures
            match r {
                Ok(v) => {
                    &&& old(self).left() >= 8
                    &&& u32_nibbles(v) == old(self).rest().take(8)
                    &&& final(self).advanced(old(self), 8)
                },
                Err(e) => e == Error::OutOfBounds && old(self).left() < 8 && *final(self) == *old(self),
            },
    {
        if self.nibbles_left() < 8 {
            return Err(Error::OutOfBounds);
        }
        let mut rd = *self;
        let hi = match rd.get_u16_be() {
            Ok(n) => n,
            Err(e) => {
                return Err(e);
            },
        };
        let ghost mid = rd;
        let lo = match rd.get_u16_be() {
            Ok(n) => n,
            Err(e) => {
                return Err(e);
            },
        };
        *self = rd;
        let v: u32 = hi as u32 * 65536 + lo as u32;
        assert((v / 65536) as u16 == hi && (v % 65536) as u16 == lo);
        assert(u32_nibbles(v) == u16_nibbles(hi) + u16_nibbles(lo));
        assert(old(self).rest().take(8) =~= old(self).rest().take(4) + old(self).rest().subrange(4, 8));
        assert(old(self).rest().subrange(4, 8) =~= mid.rest().take(4));
        assert(u32_nibbles(v) =~= old(self).rest().take(8));
        Ok(v)
    }

    /// Takes `len` whole bytes as a view into the buffer; the cursor must
    /// stand on a byte boundary.
    pub fn get_slice(&mut self, len: usize) -> (r: Result<&'i [u8], Error>)
        requires
            old(self).wf(),
        ensures
            match r {
                Ok(sl) => {
                    &&& old(self).pos() % 2 == 0
                    &&& 2 * len <= old(self).left()
                    &&& sl@ == old(self).bytes().subrange(old(self).pos() / 2, old(self).pos() / 2 + len)
                    &&& final(self).advanced(old(self), 2 * len)
                },
                Err(e) => {
                    &&& *final(self) == *old(self)
                    &&& old(self).pos() % 2 == 1 ==> e == Error::UnalignedAccess
                    &&& old(self).pos() % 2 == 0 ==> e == Error::OutOfBounds && 2 * len > old(self).left()
                },
            },
    {
        if !self.is_at_byte_boundary {
            return Err(Error::UnalignedAccess);
        }
        if self.nibbles_left() / 2 < len {
            return Err(Error::OutOfBounds);
        }
        let slice = &self.buf[self.idx..self.idx + len];
        self.idx = self.idx + len;
        Ok(slice)
    }

    /// Takes the next `len_nibbles` nibbles as a reader of their own; this
    /// reader moves past them whether or not the new one is read to the end.
    pub fn get_buf_slice(&mut self, len_nibbles: usize) -> (r: Result<Self, Error>)
        requires
            old(self).wf(),
        ensures
            match r {
                Ok(sub) => {
                    &&& len_nibbles <= old(self).left()
                    &&& sub.wf()
                    &&& sub.left() == len_nibbles
                    &&& sub.rest() == old(self).rest().take(len_nibbles as int)
                    &&& final(self).advanced(old(self), len_nibbles as int)
                },
                Err(e) => e == Error::OutOfBounds && len_nibbles > old(self).left() && *final(self) == *old(self),
            },
    {
        if self.nibbles_left() < len_nibbles {
            return Err(Error::OutOfBounds);
        }
        let idx_before = self.idx;
        let is_at_byte_boundary_before = self.is_at_byte_boundary;
        let p = self.nibbles_pos() + len_nibbles;
        self.idx = p / 2;
        self.is_at_byte_boundary = p % 2 == 0;
        let len = if is_at_byte_boundary_before {
            len_nibbles
        } else {
            len_nibbles + 1
        };
        let sub = NibbleBuf {
            buf: &self.buf[idx_before..self.buf.len()],
            len_nibbles: len,
            idx: 0,
            is_at_byte_boundary: is_at_byte_boundary_before,
        };
        assert forall|i: int| 0 <= i < len_nibbles implies sub.rest()[i] == old(self).rest()[i] by {
            assert(sub.bytes()[(sub.pos() + i) / 2] == old(self).bytes()[(old(self).pos() + i) / 2]);
        }
        assert(sub.rest() =~= old(self).rest().take(len_nibbles as int));
        Ok(sub)
    }

    /// Takes the next `nibble_count` nibbles as a bit reader of their own;
    /// this reader moves past them.
    pub fn get_bit_buf(&mut self, nibble_count: usize) -> (r: Result<BitBuf<'i>, Error>)
        requires
            old(self).wf(),
            8 * old(self).bytes().len() <= usize::MAX,
        ensures
            match r {
                Ok(bb) => {
                    &&& nibble_count <= old(self).left()
                    &&& bb.wf()
                    &&& bb.rest() == bits_from(old(self).bytes(), 4 * old(self).pos(), 4 * nibble_count)
                    &&& final(self).advanced(old(self), nibble_count as int)
                },
                Err(e) => e == Error::OutOfBounds && nibble_count > old(self).left() && *final(self) == *old(self),
            },
    {
        if self.nibbles_left() < nibble_count {
            return Err(Error::OutOfBounds);
        }
        let p = self.nibbles_pos();
        assert(p + nibble_count <= 2 * self.buf@.len());
        let bb = BitBuf::new_with_offset(self.buf, 4 * p, 4 * (p + nibble_count));
        let _ = self.skip(nibble_count);
        assert(bb.rest() =~= bits_from(old(self).bytes(), 4 * old(self).pos(), 4 * nibble_count));
        Ok(bb)
    }

    /// The nibbles left in hexadecimal, after the cursor position where it
    /// is not zero: `NibbleBuf(<2< 4 3 2 1)`.
    pub fn to_string(&self) -> (r: String)
        requires
            self.wf(),
        ensures
            r@ == seq!['N', 'i', 'b', 'b', 'l', 'e', 'B', 'u', 'f', '('] + (if self.pos() > 0 {
                seq!['<'] + decimal(self.pos() as nat) + seq!['<', ' ']
            } else {
                seq![]
            }) + hex_spaced(self.rest()) + seq![')'],
    {
        let mut s = String::from_str("NibbleBuf(");
        proof {
            reveal_strlit("NibbleBuf(");
        }
        let p = self.nibbles_pos();
        if p > 0 {
            s.append("<");
            push_decimal(&mut s, p as u64);
            s.append("< ");
            proof {
                reveal_strlit("<");
                reveal_strlit("< ");
            }
        }
        let ghost s0 = s@;
        let ghost all = self.rest();
        let mut rd = *self;
        let mut i: usize = 0;
        while !rd.is_at_end()
            invariant
                rd.wf(),
                rd.advanced(self, i as int),
                all == self.rest(),
                self.wf(),
                i <= all.len(),
                s@ == s0 + hex_spaced(all.take(i as int)),
            decreases all.len() - i,
        {
            let n = match rd.get_nibble() {
                Ok(n) => n,
                Err(_) => 0,
            };
            assert(n == all[i as int]);
            if i > 0 {
                s.append(" ");
                proof {
                    reveal_strlit(" ");
                }
            }
            s.append(digit_text(n));
            proof {
                assert(all.take(i + 1).drop_last() =~= all.take(i as int));
                assert(s@ =~= s0 + hex_spaced(all.take(i + 1)));
            }
            i = i + 1;
        }
        assert(all.take(i as int) =~= all);
        s.append(")");
        proof {
            reveal_strlit(")");
        }
        s
    }

    /// An iterator over the nibbles not read yet.
    pub fn iter(&self) -> (r: NibbleBufIter<'i>)
        requires
            self.wf(),
        ensures
            r.reader() == *self,
    {
        NibbleBufIter { buf: *self }
    }

    /// Copies the nibbles left into an owned buffer.
    pub fn to_nibble_buf_owned(&self) -> (r: NibbleBufOwned)
        requires
            self.wf(),
        ensures
            r.wf(),
            r.buf@ == self.bytes().skip(self.pos() / 2),
            r.len_nibbles == self.left() + self.pos() % 2,
            r.is_at_byte_boundary == (self.pos() % 2 == 0),
            r.view_reader_rest() == self.rest(),
    {
        let left = self.nibbles_left();
        let len_nibbles = if self.is_at_byte_boundary {
            left
        } else {
            left + 1
        };
        let tail = &self.buf[self.idx..self.buf.len()];
        let buf = vstd::slice::slice_to_vec(tail);
        let r = NibbleBufOwned { buf, len_nibbles, is_at_byte_boundary: self.is_at_byte_boundary };
        assert forall|i: int| 0 <= i < self.left() implies #[trigger] r.view_reader_rest()[i] == self.rest()[i] by {
            assert(r.buf@[(r.start() + i) / 2] == self.bytes()[(self.pos() + i) / 2]);
        }
        assert(r.view_reader_rest() =~= self.rest());
        r
    }
}

} // verus!

verus! {

impl<'i> PartialEq for NibbleBuf<'i> {
    /// Two readers are equal where the nibbles left in them are.
    fn eq(&self, other: &Self) -> (r: bool) {
        if !self.check_wf() || !other.check_wf() {
            return false;
        }
        if self.nibbles_left() != other.nibbles_left() {
            assert(self.rest().len() != other.rest().len());
            return false;
        }
        let ghost all_a = self.rest();
        let ghost all_b = other.rest();
        let mut a = *self;
        let mut b = *other;
        let mut i: usize = 0;
        while !a.is_at_end()
            invariant
                a.wf(),
                b.wf(),
                self.wf(),
                other.wf(),
                all_a == self.rest(),
                all_b == other.rest(),
                all_a.len() == all_b.len(),
                a.advanced(self, i as int),
                b.advanced(other, i as int),
                i <= all_a.len(),
                forall|j: int| 0 <= j < i ==> all_a[j] == all_b[j],
            decreases all_a.len() - i,
        {
            let x = match a.get_nibble() {
                Ok(n) => n,
                Err(_) => 0,
            };
            let y = match b.get_nibble() {
                Ok(n) => n,
                Err(_) => 0,
            };
            assert(x == all_a[i as int] && y == all_b[i as int]);
            if x != y {
                assert(all_a[i as int] != all_b[i as int]);
                return false;
            }
            i = i + 1;
        }
        assert(all_a =~= all_b);
        true
    }
}

impl<'i> vstd::std_specs::cmp::PartialEqSpecImpl for NibbleBuf<'i> {
    open spec fn obeys_eq_spec() -> bool {
        true
    }

    open spec fn eq_spec(&self, other: &Self) -> bool {
        self.wf() && other.wf() && self.rest() == other.rest()
    }
}

impl<'i> Eq for NibbleBuf<'i> {
}

/// An owned copy of a stretch of nibbles.
#[derive(Clone)]
pub struct NibbleBufOwned {
    pub buf: Vec<u8>,
    pub len_nibbles: usize,
    pub is_at_byte_boundary: bool,
}

impl NibbleBufOwned {
    pub open spec fn wf(&self) -> bool {
        &&& self.len_nibbles <= 2 * self.buf@.len()
        &&& self.is_at_byte_boundary || self.len_nibbles >= 1
    }

    /// The nibble the stretch starts at: the second half of the first byte
    /// where it does not start on a byte boundary.
    pub open spec fn start(&self) -> int {
        if self.is_at_byte_boundary {
            0
        } else {
            1
        }
    }

    /// The nibbles of the stretch.
    pub open spec fn view_reader_rest(&self) -> Seq<u8> {
        nibbles_of(self.buf@, self.start(), self.len_nibbles - self.start())
    }

    /// An empty buffer.
    pub fn new() -> (r: NibbleBufOwned)
        ensures
            r.wf(),
            r.buf@.len() == 0,
            r.view_reader_rest().len() == 0,
    {
        NibbleBufOwned { buf: Vec::new(), len_nibbles: 0, is_at_byte_boundary: true }
    }

    /// All the nibbles of `buf`.
    pub fn from_vec(buf: Vec<u8>) -> (r: Self)
        requires
            2 * buf@.len() <= usize::MAX,
        ensures
            r.wf(),
            r.buf@ == buf@,
            r.view_reader_rest() == bytes_nibbles(buf@),
    {
        let len_nibbles = buf.len() * 2;
        let r = NibbleBufOwned { buf, len_nibbles, is_at_byte_boundary: true };
        assert(r.view_reader_rest() =~= bytes_nibbles(r.buf@));
        r
    }

    /// A reader over the stretch.
    pub fn to_nibble_buf_ref(&self) -> (r: NibbleBuf<'_>)
        requires
            self.wf(),
        ensures
            r.wf(),
            r.rest() == self.view_reader_rest(),
    {
        let r = NibbleBuf {
            buf: self.buf.as_slice(),
            len_nibbles: self.len_nibbles,
            idx: 0,
            is_at_byte_boundary: self.is_at_byte_boundary,
        };
        assert(r.rest() =~= self.view_reader_rest());
        r
    }

    /// The bytes, the partial ones included.
    pub fn inner(self) -> (r: Vec<u8>)
        ensures
            r@ == self.buf@,
    {
        self.buf
    }
}

impl Default for NibbleBufOwned {
    fn default() -> (r: Self)
        ensures
            r.wf(),
            r.view_reader_rest().len() == 0,
    {
        Self::new()
    }
}

/// Iterator over the nibbles left in a reader.
pub struct NibbleBufIter<'i> {
    buf: NibbleBuf<'i>,
}

impl<'i> NibbleBufIter<'i> {
    /// The reader that the iterator advances.
    pub closed spec fn reader(&self) -> NibbleBuf<'i> {
        self.buf
    }

    /// The next nibble, or `None` at the end of the window.
    pub fn next(&mut self) -> (r: Option<u8>)
        requires
            old(self).reader().wf(),
        ensures
            match r {
                Some(n) => {
                    &&& old(self).reader().left() >= 1
                    &&& n == old(self).reader().rest()[0]
                    &&& final(self).reader().advanced(&old(self).reader(), 1)
                },
                None => old(self).reader().left() == 0 && *final(self) == *old(self),
            },
    {
        match self.buf.get_nibble() {
            Ok(n) => Some(n),
            Err(_) => None,
        }
    }
}

} // verus!

verus! {

/// Writer that treats a byte buffer as a stream of nibbles.
///
/// Bytes past what was written keep their earlier contents.
pub struct NibbleBufMut<'i> {
    buf: &'i mut [u8],
    // Number of nibbles that may be written, counted from the buffer's start.
    len_nibbles: usize,
    // Next byte to write to.
    idx: usize,
    // Whether the next nibble is the high half of `buf[idx]`.
    is_at_byte_boundary: bool,
}

impl<'i> NibbleBufMut<'i> {
    /// The bytes of the buffer, written or not.
    pub closed spec fn bytes(&self) -> Seq<u8> {
        self.buf@
    }

    /// The end of the writable window, in nibbles from the buffer's start.
    pub closed spec fn limit(&self) -> int {
        self.len_nibbles as int
    }

    /// The cursor, in nibbles from the buffer's start.
    pub closed spec fn pos(&self) -> int {
        2 * self.idx + if self.is_at_byte_boundary { 0int } else { 1int }
    }

    pub closed spec fn wf(&self) -> bool {
        &&& self.len_nibbles <= 2 * self.buf@.len()
        &&& self.pos() <= self.len_nibbles
    }

    pub proof fn lemma_bounds(&self)
        requires
            self.wf(),
        ensures
            0 <= self.pos() <= self.limit() <= 2 * self.bytes().len(),
            self.limit() <= usize::MAX,
    {
    }

    /// How many nibbles can still be written.
    pub open spec fn left(&self) -> int {
        self.limit() - self.pos()
    }

    /// `self` is `old` after writing the nibbles `ns` at its cursor.
    pub open spec fn wrote(&self, old: &Self, ns: Seq<u8>) -> bool {
        &&& self.wf()
        &&& self.bytes().len() == old.bytes().len()
        &&& self.limit() == old.limit()
        &&& self.pos() == old.pos() + ns.len()
        &&& self.bytes() == write_nibbles(old.bytes(), old.pos(), ns)
    }

    /// A writer over the first `len_nibbles` nibbles of `buf`; fails with
    /// `OutOfBounds` where the buffer is shorter than that.
    pub fn new(buf: &'i mut [u8], len_nibbles: usize) -> (r: Result<Self, Error>)
        requires
            2 * old(buf)@.len() <= usize::MAX,
        ensures
            match r {
                Ok(w) => {
                    &&& len_nibbles <= 2 * old(buf)@.len()
                    &&& w.wf()
                    &&& w.bytes() == old(buf)@
                    &&& w.limit() == len_nibbles
                    &&& w.pos() == 0
                },
                Err(e) => e == Error::OutOfBounds && len_nibbles > 2 * old(buf)@.len(),
            },
    {
        if len_nibbles > buf.len() * 2 {
            Err(Error::OutOfBounds)
        } else {
            Ok(NibbleBufMut { buf, len_nibbles, idx: 0, is_at_byte_boundary: true })
        }
    }

    /// A writer over the whole of `buf`.
    pub fn new_all(buf: &'i mut [u8]) -> (r: Self)
        requires
            2 * old(buf)@.len() <= usize::MAX,
        ensures
            r.wf(),
            r.bytes() == old(buf)@,
            r.limit() == 2 * old(buf)@.len(),
            r.pos() == 0,
    {
        let len_nibbles = buf.len() * 2;
        NibbleBufMut { buf, len_nibbles, idx: 0, is_at_byte_boundary: true }
    }

    pub fn nibbles_pos(&self) -> (r: usize)
        requires
            self.wf(),
        ensures
            r == self.pos(),
    {
        if self.is_at_byte_boundary {
            self.idx * 2
        } else {
            self.idx * 2 + 1
        }
    }

    pub fn nibbles_left(&self) -> (r: usize)
        requires
            self.wf(),
        ensures
            r == self.left(),
    {
        self.len_nibbles - self.nibbles_pos()
    }

    pub fn is_at_end(&self) -> (r: bool)
        requires
            self.wf(),
        ensures
            r == (self.left() == 0),
    {
        self.nibbles_pos() >= self.len_nibbles
    }

    pub fn is_at_byte_boundary(&self) -> (r: bool)
        requires
            self.wf(),
        ensures
            r == (self.pos() % 2 == 0),
    {
        self.is_at_byte_boundary
    }

    /// Hands the buffer back, with the index of the byte the cursor is in
    /// and whether the cursor stands on a byte boundary.
    pub fn finish(self) -> (r: (&'i mut [u8], usize, bool))
        requires
            self.wf(),
        ensures
            r.0@ == self.bytes(),
            r.1 == self.pos() / 2,
            r.2 == (self.pos() % 2 == 0),
    {
        (self.buf, self.idx, self.is_at_byte_boundary)
    }

    /// Moves the cursor on by `nibble_count` nibbles, leaving them as they are.
    pub fn skip(&mut self, nibble_count: usize) -> (r: Result<(), Error>)
        requires
            old(self).wf(),
        ensures
            match r {
                Ok(()) => {
                    &&& nibble_count <= old(self).left()
                    &&& final(self).wf()
                    &&& final(self).bytes() == old(self).bytes()
                    &&& final(self).limit() == old(self).limit()
                    &&& final(self).pos() == old(self).pos() + nibble_count
                },
                Err(e) => e == Error::OutOfBounds && nibble_count > old(self).left() && *final(self) == *old(self),
            },
    {
        if self.nibbles_left() < nibble_count {
            return Err(Error::OutOfBounds);
        }
        let p = self.nibbles_pos() + nibble_count;
        self.idx = p / 2;
        self.is_at_byte_boundary = p % 2 == 0;
        Ok(())
    }

    /// Writes the low four bits of `nib`.
    pub fn put_nibble(&mut self, nib: u8) -> (r: Result<(), Error>)
        requires
            old(self).wf(),
        ensures
            match r {
                Ok(()) => old(self).left() >= 1 && final(self).wrote(old(self), seq![nib]),
                Err(e) => e == Error::OutOfBounds && old(self).left() == 0 && *final(self) == *old(self),
            },
    {
        if self.nibbles_left() == 0 {
            return Err(Error::OutOfBounds);
        }
        let ghost s0 = self.bytes();
        let ghost p0 = self.pos();
        let i = self.idx;
        let b = self.buf[i];
        if self.is_at_byte_boundary {
            self.buf[i] = (b % 16) + (nib % 16) * 16;
            self.is_at_byte_boundary = false;
        } else {
            self.buf[i] = (b / 16) * 16 + nib % 16;
            self.is_at_byte_boundary = true;
            self.idx = i + 1;
        }
        proof {
            assert(seq![nib].drop_first() =~= Seq::<u8>::empty());
            assert(self.bytes() =~= with_nibble(s0, p0, nib));
            assert(write_nibbles(s0, p0, seq![nib]) == write_nibbles(with_nibble(s0, p0, nib), p0 + 1, Seq::<u8>::empty()));
        }
        Ok(())
    }

    /// Writes the low four bits of `nib` at nibble `nibble_pos`, leaving the
    /// cursor where it is.
    pub fn replace_nibble(&mut self, nibble_pos: usize, nib: u8) -> (r: Result<(), Error>)
        requires
            old(self).wf(),
        ensures
            match r {
                Ok(()) => {
                    &&& nibble_pos < old(self).limit()
                    &&& final(self).wf()
                    &&& final(self).limit() == old(self).limit()
                    &&& final(self).pos() == old(self).pos()
                    &&& final(self).bytes() == with_nibble(old(self).bytes(), nibble_pos as int, nib)
                },
                Err(e) => e == Error::OutOfBounds && nibble_pos >= old(self).limit() && *final(self) == *old(self),
            },
    {
        if nibble_pos >= self.len_nibbles {
            return Err(Error::OutOfBounds);
        }
        let i = nibble_pos / 2;
        let b = self.buf[i];
        if nibble_pos % 2 == 0 {
            self.buf[i] = (b % 16) + (nib % 16) * 16;
        } else {
            self.buf[i] = (b / 16) * 16 + nib % 16;
        }
        Ok(())
    }

    /// Writes a zero padding nibble if the cursor is off a byte boundary.
    pub fn align_to_byte(&mut self) -> (r: Result<(), Error>)
        requires
            old(self).wf(),
        ensures
            old(self).pos() % 2 == 0 ==> r == Ok::<(), Error>(()) && *final(self) == *old(self),
            old(self).pos() % 2 == 1 ==> match r {
                Ok(()) => old(self).left() >= 1 && final(self).wrote(old(self), seq![0u8]),
                Err(e) => e == Error::OutOfBounds && old(self).left() == 0 && *final(self) == *old(self),
            },
    {
        if !self.is_at_byte_boundary {
            return self.put_nibble(0);
        }
        Ok(())
    }

    /// Writes a byte, aligned or not.
    pub fn put_u8(&mut self, val: u8) -> (r: Result<(), Error>)
        requires
            old(self).wf(),
        ensures
            match r {
                Ok(()) => old(self).left() >= 2 && final(self).wrote(old(self), byte_nibbles(val)),
                Err(e) => e == Error::OutOfBounds && old(self).left() < 2 && *final(self) == *old(self),
            },
    {
        if self.nibbles_left() < 2 {
            return Err(Error::OutOfBounds);
        }
        let ghost s0 = self.bytes();
        let ghost p0 = self.pos();
        let _ = self.put_nibble(val / 16);
        let _ = self.put_nibble(val % 16);
        proof {
            lemma_write_nibbles_concat(s0, p0, seq![val / 16], seq![val % 16]);
            assert(seq![val / 16] + seq![val % 16] =~= byte_nibbles(val));
        }
        Ok(())
    }

    /// Writes a big-endian `u16`.
    pub fn put_u16_be(&mut self, val: u16) -> (r: Result<(), Error>)
        requires
            old(self).wf(),
        ensures
            match r {
                Ok(()) => old(self).left() >= 4 && final(self).wrote(old(self), u16_nibbles(val)),
                Err(e) => e == Error::OutOfBounds && old(self).left() < 4 && *final(self) == *old(self),
            },
    {
        if self.nibbles_left() < 4 {
            return Err(Error::OutOfBounds);
        }
        let ghost s0 = self.bytes();
        let ghost p0 = self.pos();
        let _ = self.put_u8((val / 256) as u8);
        let _ = self.put_u8((val % 256) as u8);
        proof {
            lemma_write_nibbles_concat(s0, p0, byte_nibbles((val / 256) as u8), byte_nibbles((val % 256) as u8));
        }
        Ok(())
    }

    /// Writes a big-endian `u32`.
    pub fn put_u32_be(&mut self, val: u32) -> (r: Result<(), Error>)
        requires
            old(self).wf(),
        ensures
            match r {
                Ok(()) => old(self).left() >= 8 && final(self).wrote(old(self), u32_nibbles(val)),
                Err(e) => e == Error::OutOfBounds && old(self).left() < 8 && *final(self) == *old(self),
            },
    {
        if self.nibbles_left() < 8 {
            return Err(Error::OutOfBounds);
        }
        let ghost s0 = self.bytes();
        let ghost p0 = self.pos();
        let _ = self.put_u16_be((val / 65536) as u16);
        let _ = self.put_u16_be((val % 65536) as u16);
        proof {
            lemma_write_nibbles_concat(s0, p0, u16_nibbles((val / 65536) as u16), u16_nibbles((val % 65536) as u16));
        }
        Ok(())
    }

    /// Writes the nibbles `vlu_enc(v, k, cont)`.
    fn put_vlu_enc(&mut self, v: u32, k: usize, cont: bool)
        requires
            old(self).wf(),
            k <= old(self).left(),
        ensures
            final(self).wrote(old(self), vlu_enc(v as nat, k as nat, cont)),
        decreases k,
    {
        if k == 0 {
            return;
        }
        let ghost s0 = self.bytes();
        let ghost p0 = self.pos();
        proof {
            lemma_vlu_enc_shape((v / 8) as nat, (k - 1) as nat, true);
        }
        self.put_vlu_enc(v / 8, k - 1, true);
        let n: u8 = if cont {
            (v % 8) as u8 + 8
        } else {
            (v % 8) as u8
        };
        let _ = self.put_nibble(n);
        proof {
            let a = vlu_enc((v / 8) as nat, (k - 1) as nat, true);
            lemma_write_nibbles_concat(s0, p0, a, seq![n]);
            assert(a + seq![n] =~= vlu_enc(v as nat, k as nat, cont));
        }
    }

    /// Writes `val` as a `Vlu32N`, in as few nibbles as it takes.
    pub fn put_vlu32n(&mut self, val: u32) -> (r: Result<(), Error>)
        requires
            old(self).wf(),
        ensures
            match r {
                Ok(()) => old(self).left() >= vlu_len(val as nat) && final(self).wrote(old(self), vlu_nibbles(val as nat)),
                Err(e) => e == Error::OutOfBounds && old(self).left() < vlu_len(val as nat) && *final(self) == *old(self),
            },
    {
        let k = vlu_len_nibbles(val);
        if self.nibbles_left() < k {
            return Err(Error::OutOfBounds);
        }
        self.put_vlu_enc(val, k, false);
        Ok(())
    }

    /// Writes the bytes of `slice`; the cursor must stand on a byte boundary.
    pub fn put_slice(&mut self, slice: &[u8]) -> (r: Result<(), Error>)
        requires
            old(self).wf(),
        ensures
            match r {
                Ok(()) => {
                    let at = old(self).pos() / 2;
                    &&& 2 * slice@.len() <= old(self).left()
                    &&& old(self).pos() % 2 == 0
                    &&& final(self).wf()
                    &&& final(self).limit() == old(self).limit()
                    &&& final(self).pos() == old(self).pos() + 2 * slice@.len()
                    &&& final(self).bytes() == old(self).bytes().take(at) + slice@ + old(self).bytes().skip(
                        at + slice@.len(),
                    )
                },
                Err(e) => {
                    &&& *final(self) == *old(self)
                    &&& 2 * slice@.len() > old(self).left() ==> e == Error::OutOfBounds
                    &&& 2 * slice@.len() <= old(self).left() ==> e == Error::UnalignedAccess && old(self).pos()
                        % 2 == 1
                },
            },
    {
        if self.nibbles_left() / 2 < slice.len() {
            return Err(Error::OutOfBounds);
        }
        if !self.is_at_byte_boundary {
            return Err(Error::UnalignedAccess);
        }
        let ghost s0 = self.bytes();
        let at = self.idx;
        let mut i: usize = 0;
        while i < slice.len()
            invariant
                self.wf(),
                self.is_at_byte_boundary,
                self.idx == at,
                self.len_nibbles == old(self).len_nibbles,
                s0 == old(self).bytes(),
                2 * (at + slice@.len()) <= self.len_nibbles,
                self.buf@.len() == s0.len(),
                i <= slice@.len(),
                self.buf@ == s0.take(at as int) + slice@.take(i as int) + s0.skip(at + i),
            decreases slice@.len() - i,
        {
            self.buf[at + i] = slice[i];
            i = i + 1;
            assert(self.buf@ =~= s0.take(at as int) + slice@.take(i as int) + s0.skip(at + i));
        }
        assert(slice@.take(i as int) =~= slice@);
        self.idx = at + slice.len();
        Ok(())
    }

    /// Writes the nibbles left in `other`.
    pub fn put_nibble_buf(&mut self, other: &NibbleBuf) -> (r: Result<(), Error>)
        requires
            old(self).wf(),
            other.wf(),
        ensures
            match r {
                Ok(()) => other.left() <= old(self).left() && final(self).wrote(old(self), other.rest()),
                Err(e) => e == Error::OutOfBounds && other.left() > old(self).left() && *final(self) == *old(self),
            },
    {
        if self.nibbles_left() < other.nibbles_left() {
            return Err(Error::OutOfBounds);
        }
        let ghost s0 = self.bytes();
        let ghost p0 = self.pos();
        let ghost all = other.rest();
        let mut rd = *other;
        let mut i: usize = 0;
        while !rd.is_at_end()
            invariant
                self.wf(),
                rd.wf(),
                rd.advanced(other, i as int),
                other.wf(),
                all == other.rest(),
                i <= all.len(),
                self.limit() == old(self).limit(),
                self.pos() == p0 + i,
                self.limit() - p0 >= all.len(),
                self.bytes().len() == s0.len(),
                self.bytes() == write_nibbles(s0, p0, all.take(i as int)),
            decreases all.len() - i,
        {
            let n = match rd.get_nibble() {
                Ok(n) => n,
                Err(_) => 0,
            };
            assert(n == all[i as int]);
            let ghost before = self.bytes();
            let _ = self.put_nibble(n);
            proof {
                lemma_write_nibbles_concat(s0, p0, all.take(i as int), seq![n]);
                assert(all.take(i as int) + seq![n] =~= all.take(i + 1));
            }
            i = i + 1;
        }
        assert(all.take(i as int) =~= all);
        Ok(())
    }

    /// What was written in hexadecimal, a space after every eight nibbles,
    /// then the number of nibbles left where there are any:
    /// `NibbleBufMut(12>2>)`.
    pub fn to_string(&self) -> (r: String)
        requires
            self.wf(),
        ensures
            r@ == seq!['N', 'i', 'b', 'b', 'l', 'e', 'B', 'u', 'f', 'M', 'u', 't', '('] + hex_grouped(
                nibbles_of(self.bytes(), 0, self.pos()),
            ) + (if self.left() > 0 {
                seq!['>'] + decimal(self.left() as nat) + seq!['>']
            } else {
                seq![]
            }) + seq![')'],
    {
        let mut s = String::from_str("NibbleBufMut(");
        proof {
            reveal_strlit("NibbleBufMut(");
        }
        let ghost s0 = s@;
        let ghost all = nibbles_of(self.bytes(), 0, self.pos());
        let end = self.nibbles_pos();
        let mut i: usize = 0;
        while i < end
            invariant
                self.wf(),
                end == self.pos(),
                all == nibbles_of(self.bytes(), 0, self.pos()),
                i <= end,
                s@ == s0 + hex_grouped(all.take(i as int)),
            decreases end - i,
        {
            let b = self.buf[i / 2];
            let n = if i % 2 == 0 {
                b / 16
            } else {
                b % 16
            };
            assert(n == all[i as int]);
            s.append(digit_text(n));
            if i % 8 == 7 {
                s.append(" ");
                proof {
                    reveal_strlit(" ");
                }
            }
            proof {
                assert(all.take(i + 1).drop_last() =~= all.take(i as int));
                assert(s@ =~= s0 + hex_grouped(all.take(i + 1)));
            }
            i = i + 1;
        }
        assert(all.take(end as int) =~= all);
        let left = self.nibbles_left();
        if left > 0 {
            s.append(">");
            push_decimal(&mut s, left as u64);
            s.append(">");
            proof {
                reveal_strlit(">");
            }
        }
        s.append(")");
        proof {
            reveal_strlit(")");
        }
        s
    }

    /// A reader over what was written, from the buffer's start.
    pub fn to_nibble_buf(self) -> (r: NibbleBuf<'i>)
        requires
            self.wf(),
        ensures
            r.wf(),
            r.bytes() == self.bytes(),
            r.limit() == self.pos(),
            r.pos() == 0,
    {
        let len_nibbles = self.nibbles_pos();
        let buf: &'i [u8] = self.buf;
        NibbleBuf { buf, len_nibbles, idx: 0, is_at_byte_boundary: true }
    }

    /// Copies what was written, from the buffer's start, into an owned buffer.
    pub fn to_nibble_buf_owned(&self) -> (r: NibbleBufOwned)
        requires
            self.wf(),
        ensures
            r.wf(),
            r.is_at_byte_boundary,
            r.len_nibbles == self.pos(),
            r.buf@ == self.bytes().take((self.pos() + 1) / 2),
            r.view_reader_rest() == nibbles_of(self.bytes(), 0, self.pos()),
    {
        let len_nibbles = self.nibbles_pos();
        let end = if self.is_at_byte_boundary {
            self.idx
        } else {
            self.idx + 1
        };
        let part = &self.buf[0..end];
        let buf = vstd::slice::slice_to_vec(part);
        let r = NibbleBufOwned { buf, len_nibbles, is_at_byte_boundary: true };
        assert(r.view_reader_rest() =~= nibbles_of(self.bytes(), 0, self.pos()));
        r
    }

    /// The cursor, to be restored later.
    pub fn save_state(&self) -> (r: NibbleBufMutState)
        requires
            self.wf(),
        ensures
            r.pos() == self.pos(),
            r.len_bytes() == self.bytes().len(),
            r.limit() == self.limit(),
    {
        NibbleBufMutState {
            len_bytes: self.buf.len(),
            len_nibbles: self.len_nibbles,
            idx: self.idx,
            is_at_byte_boundary: self.is_at_byte_boundary,
        }
    }

    /// Moves the cursor back to a saved one; fails with `OutOfBounds` for a
    /// state saved from a writer with another buffer length or window, or
    /// whose cursor lies past this window.
    pub fn restore_state(&mut self, state: NibbleBufMutState) -> (r: Result<(), Error>)
        requires
            old(self).wf(),
        ensures
            match r {
                Ok(()) => {
                    &&& state.len_bytes() == old(self).bytes().len()
                    &&& state.limit() == old(self).limit()
                    &&& final(self).wf()
                    &&& final(self).bytes() == old(self).bytes()
                    &&& final(self).limit() == old(self).limit()
                    &&& final(self).pos() == state.pos()
                },
                Err(e) => {
                    &&& e == Error::OutOfBounds
                    &&& *final(self) == *old(self)
                    &&& (state.len_bytes() != old(self).bytes().len() || state.limit() != old(self).limit()
                        || state.pos() > old(self).limit())
                },
            },
    {
        if state.len_bytes != self.buf.len() || state.len_nibbles != self.len_nibbles {
            return Err(Error::OutOfBounds);
        }
        if state.idx > self.len_nibbles / 2 || (state.idx == self.len_nibbles / 2 && !state.is_at_byte_boundary
            && self.len_nibbles % 2 == 0) {
            return Err(Error::OutOfBounds);
        }
        self.idx = state.idx;
        self.is_at_byte_boundary = state.is_at_byte_boundary;
        Ok(())
    }

    /// Runs `f` with the cursor at `to_nibbles_pos`, then puts the cursor
    /// back where it was and returns what `f` returned. `f` may write
    /// anywhere in the window; it is up to the caller not to overwrite what
    /// was written after `to_nibbles_pos`. Fails with `OutOfBounds` where
    /// `to_nibbles_pos` lies outside the window, or where `f` left the
    /// writer over another window, which is then emptied.
    pub fn rewind<F>(&mut self, to_nibbles_pos: usize, f: F) -> (r: Result<(), Error>)
        where
            F: Fn(&mut NibbleBufMut<'i>) -> Result<(), Error>,
        requires
            old(self).wf(),
            forall|w: &mut NibbleBufMut<'i>| w.wf() ==> #[trigger] f.requires((w,)),
        ensures
            final(self).wf(),
            to_nibbles_pos >= old(self).limit() ==> r == Err::<(), Error>(Error::OutOfBounds) && *final(self) == *old(self),
            to_nibbles_pos < old(self).limit() ==> exists|w: &mut NibbleBufMut<'i>, fr: Result<(), Error>|
                #[trigger] f.ensures((w,), fr) && w.wf() && w.bytes() == old(self).bytes() && w.limit() == old(self).limit()
                    && w.pos() == to_nibbles_pos && if final(w).limit() == old(self).limit() && final(w).bytes().len()
                    == old(self).bytes().len() {
                    &&& r == fr
                    &&& final(self).bytes() == final(w).bytes()
                    &&& final(self).limit() == old(self).limit()
                    &&& final(self).pos() == old(self).pos()
                } else {
                    r == Err::<(), Error>(Error::OutOfBounds) && final(self).limit() == 0
                },
    {
        if to_nibbles_pos >= self.len_nibbles {
            return Err(Error::OutOfBounds);
        }
        let idx_before = self.idx;
        let is_at_byte_boundary_before = self.is_at_byte_boundary;
        let len_nibbles = self.len_nibbles;
        let len_bytes = self.buf.len();
        self.idx = to_nibbles_pos / 2;
        self.is_at_byte_boundary = to_nibbles_pos % 2 == 0;
        let r = f(self);
        if self.len_nibbles != len_nibbles || self.buf.len() != len_bytes {
            self.len_nibbles = 0;
            self.idx = 0;
            self.is_at_byte_boundary = true;
            return Err(Error::OutOfBounds);
        }
        self.idx = idx_before;
        self.is_at_byte_boundary = is_at_byte_boundary_before;
        r
    }
}

} // verus!

verus! {

/// A saved writer cursor.
pub struct NibbleBufMutState {
    len_bytes: usize,
    len_nibbles: usize,
    idx: usize,
    is_at_byte_boundary: bool,
}

impl NibbleBufMutState {
    /// The saved cursor, in nibbles.
    pub closed spec fn pos(&self) -> int {
        2 * self.idx + if self.is_at_byte_boundary { 0int } else { 1int }
    }

    /// The length of the buffer it was saved from.
    pub closed spec fn len_bytes(&self) -> int {
        self.len_bytes as int
    }

    /// The window of the writer it was saved from.
    pub closed spec fn limit(&self) -> int {
        self.len_nibbles as int
    }
}

} // verus!

verus! {

impl<'i> NibbleBufMut<'i> {
    /// Hands out the writer, leaving an empty one in its place.
    pub(crate) fn take_out(&mut self) -> (r: NibbleBufMut<'i>)
        ensures
            r == *old(self),
            final(self).wf(),
            final(self).limit() == 0,
    {
        let empty: &'i mut [u8] = &mut [];
        let mut other = NibbleBufMut { buf: empty, len_nibbles: 0, idx: 0, is_at_byte_boundary: true };
        core::mem::swap(self, &mut other);
        other
    }

    /// Whether the writer is well formed, checked at run time.
    pub(crate) fn check_wf(&self) -> (r: bool)
        ensures
            r == self.wf(),
    {
        if self.len_nibbles / 2 > self.buf.len() || (self.len_nibbles / 2 == self.buf.len() && self.len_nibbles % 2 == 1) {
            return false;
        }
        if self.idx > self.len_nibbles / 2 {
            return false;
        }
        if self.idx == self.len_nibbles / 2 && !self.is_at_byte_boundary && self.len_nibbles % 2 == 0 {
            return false;
        }
        true
    }

    /// A writer over `buf` with a window of `len_nibbles` and its cursor at
    /// `pos`.
    pub(crate) fn from_parts(buf: &'i mut [u8], len_nibbles: usize, pos: usize) -> (r: Self)
        requires
            pos <= len_nibbles <= 2 * old(buf)@.len(),
        ensures
            r.wf(),
            r.bytes() == old(buf)@,
            r.limit() == len_nibbles,
            r.pos() == pos,
    {
        NibbleBufMut { buf, len_nibbles, idx: pos / 2, is_at_byte_boundary: pos % 2 == 0 }
    }

    /// Turns the writer into a bit writer from the cursor on.
    pub fn to_bit_buf(self) -> (r: BitBufMut<'i>)
        requires
            self.wf(),
            4 * self.limit() <= usize::MAX,
        ensures
            r.wf(),
            r.bytes() == self.bytes(),
            r.pos() == 4 * self.pos(),
            r.limit() == 4 * self.limit(),
    {
        let pos = self.nibbles_pos();
        let len = self.len_nibbles;
        BitBufMut::from_parts(self.buf, 4 * len, 4 * pos)
    }

    /// Runs `f` with a bit writer that starts at the cursor, then continues
    /// where it stopped. Fails with what `f` fails with, and with
    /// `UnalignedAccess` where `f` stopped off a nibble boundary; the cursor
    /// then stays where it was. Fails with `OutOfBounds` where `f` left the
    /// bit writer over another window, the writer then being emptied.
    pub fn as_bit_buf<F>(&mut self, f: F) -> (r: Result<(), Error>)
        where
            F: FnOnce(&mut BitBufMut<'i>) -> Result<(), Error>,
        requires
            old(self).wf(),
            4 * old(self).limit() <= usize::MAX,
            forall|b: &mut BitBufMut<'i>| b.wf() ==> #[trigger] f.requires((b,)),
        ensures
            final(self).wf(),
            exists|b: &mut BitBufMut<'i>, fr: Result<(), Error>|
                #[trigger] f.ensures((b,), fr) && b.wf() && b.bytes() == old(self).bytes() && b.pos() == 4 * old(
                    self,
                ).pos() && b.limit() == 4 * old(self).limit() && if final(b).wf() && final(b).limit() == 4 * old(
                    self,
                ).limit() {
                    &&& final(self).limit() == old(self).limit()
                    &&& final(self).bytes() == final(b).bytes()
                    &&& fr is Err ==> r == fr && final(self).pos() == old(self).pos()
                    &&& fr is Ok && final(b).pos() % 4 != 0 ==> r == Err::<(), Error>(Error::UnalignedAccess)
                        && final(self).pos() == old(self).pos()
                    &&& fr is Ok && final(b).pos() % 4 == 0 ==> r == Ok::<(), Error>(()) && final(self).pos()
                        == final(b).pos() / 4
                } else {
                    r == Err::<(), Error>(Error::OutOfBounds) && final(self).limit() == 0
                },
    {
        let w = self.take_out();
        let pos_before = w.nibbles_pos();
        let len_nibbles = w.len_nibbles;
        let mut bb = w.to_bit_buf();
        let r = f(&mut bb);
        if !bb.check_wf() {
            return Err(Error::OutOfBounds);
        }
        let (buf, len_bits, pos) = bb.into_parts();
        if len_bits != 4 * len_nibbles {
            *self = NibbleBufMut::from_parts(buf, 0, 0);
            return Err(Error::OutOfBounds);
        }
        if r.is_err() {
            *self = NibbleBufMut::from_parts(buf, len_nibbles, pos_before);
            return r;
        }
        if pos % 4 != 0 {
            *self = NibbleBufMut::from_parts(buf, len_nibbles, pos_before);
            return Err(Error::UnalignedAccess);
        }
        *self = NibbleBufMut::from_parts(buf, len_nibbles, pos / 4);
        Ok(())
    }

    /// Moves the cursor to nibble `pos` of the window.
    pub(crate) fn set_pos(&mut self, pos: usize)
        requires
            old(self).wf(),
            pos <= old(self).limit(),
        ensures
            final(self).wf(),
            final(self).bytes() == old(self).bytes(),
            final(self).limit() == old(self).limit(),
            final(self).pos() == pos,
    {
        self.idx = pos / 2;
        self.is_at_byte_boundary = pos % 2 == 0;
    }

    /// Empties the window.
    pub(crate) fn clear(&mut self)
        ensures
            final(self).wf(),
            final(self).bytes() == old(self).bytes(),
            final(self).limit() == 0,
    {
        self.len_nibbles = 0;
        self.idx = 0;
        self.is_at_byte_boundary = true;
    }

    /// The length of the buffer, in bytes.
    pub(crate) fn buf_len(&self) -> (r: usize)
        ensures
            r == self.bytes().len(),
    {
        self.buf.len()
    }

    /// The end of the window, in nibbles.
    pub(crate) fn limit_nibbles(&self) -> (r: usize)
        ensures
            r == self.limit(),
    {
        self.len_nibbles
    }

    /// Moves the nibbles from `from` up to the cursor down to `to`, and the
    /// cursor with them.
    pub(crate) fn shift_down(&mut self, from: usize, to: usize)
        requires
            old(self).wf(),
            to <= from <= old(self).pos(),
        ensures
            final(self).wf(),
            final(self).limit() == old(self).limit(),
            final(self).pos() == old(self).pos() - (from - to),
            final(self).bytes().len() == old(self).bytes().len(),
            final(self).bytes() == write_nibbles(
                old(self).bytes(),
                to as int,
                nibbles_of(old(self).bytes(), from as int, old(self).pos() - from),
            ),
    {
        let ghost s0 = self.bytes();
        let end = self.nibbles_pos();
        let n = end - from;
        let ghost e = nibbles_of(s0, from as int, n as int);
        let mut i: usize = 0;
        while i < n
            invariant
                self.wf(),
                self.limit() == old(self).limit(),
                self.pos() == old(self).pos(),
                s0 == old(self).bytes(),
                end == old(self).pos(),
                end <= 2 * s0.len(),
                self.bytes().len() == s0.len(),
                n == end - from,
                to <= from,
                e == nibbles_of(s0, from as int, n as int),
                i <= n,
                self.bytes() == write_nibbles(s0, to as int, e.take(i as int)),
            decreases n - i,
        {
            let src = from + i;
            let b = self.buf[src / 2];
            let nib = if src % 2 == 0 {
                b / 16
            } else {
                b % 16
            };
            proof {
                crate::nibble::lemma_write_nibbles(s0, to as int, e.take(i as int), src as int);
                assert(nib == e[i as int]);
                lemma_write_nibbles_concat(s0, to as int, e.take(i as int), seq![nib]);
                assert(e.take(i as int) + seq![nib] =~= e.take(i + 1));
                crate::nibble::lemma_write_nibbles(s0, to as int, e.take(i as int), 0);
            }
            let dst = to + i;
            let d = self.buf[dst / 2];
            if dst % 2 == 0 {
                self.buf[dst / 2] = (d % 16) + (nib % 16) * 16;
            } else {
                self.buf[dst / 2] = (d / 16) * 16 + nib % 16;
            }
            proof {
                let cur = write_nibbles(s0, to as int, e.take(i as int));
                assert(self.bytes() =~= with_nibble(cur, dst as int, nib));
                assert(seq![nib].drop_first() =~= Seq::<u8>::empty());
                assert(write_nibbles(cur, dst as int, seq![nib]) == write_nibbles(with_nibble(cur, dst as int, nib), dst + 1, Seq::<u8>::empty()));
            }
            i = i + 1;
        }
        assert(e.take(n as int) =~= e);
        let p = to + n;
        self.idx = p / 2;
        self.is_at_byte_boundary = p % 2 == 0;
    }

    /// Writes `val` as a `Vlu32N` of `k` nibbles at nibble `at`, leaving the cursor
    /// where it is.
    pub(crate) fn replace_vlu_enc(&mut self, at: usize, val: u32, k: usize)
        requires
            old(self).wf(),
            at + k <= old(self).limit(),
        ensures
            final(self).wf(),
            final(self).limit() == old(self).limit(),
            final(self).pos() == old(self).pos(),
            final(self).bytes().len() == old(self).bytes().len(),
            final(self).bytes() == write_nibbles(old(self).bytes(), at as int, vlu_enc(val as nat, k as nat, false)),
    {
        let idx_before = self.idx;
        let is_at_byte_boundary_before = self.is_at_byte_boundary;
        self.idx = at / 2;
        self.is_at_byte_boundary = at % 2 == 0;
        self.put_vlu_enc(val, k, false);
        self.idx = idx_before;
        self.is_at_byte_boundary = is_at_byte_boundary_before;
    }
}

} // verus!
