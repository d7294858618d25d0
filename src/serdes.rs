//! The serialize / deserialize capabilities that compose the primitives.
use vstd::prelude::*;
use crate::error::Error;
use crate::nibble::{all_nibbles, byte_nibbles, u16_nibbles, u32_nibbles};
use crate::nibble_buf::{NibbleBuf, NibbleBufMut};
use crate::vlu::{vlu_len, vlu_nibbles, vlu_scan, lemma_vlu_decode_encode, lemma_vlu_scan_ok, Vlu32N};

verus! {

/// How many nibbles a value takes, as far as it is known before writing it.
#[derive(Clone, Copy, Debug, PartialEq, Eq, Structural)]
pub enum SerDesSize {
    /// Exactly this many.
    Sized(usize),
    /// At most this many.
    UnsizedBound(usize),
    /// Not known.
    Unsized,
}

/// Whether a value of `n` nibbles agrees with the estimate `s`.
pub open spec fn size_allows(s: SerDesSize, n: nat) -> bool {
    match s {
        SerDesSize::Sized(k) => k == n,
        SerDesSize::UnsizedBound(k) => n <= k,
        SerDesSize::Unsized => true,
    }
}

/// A value that can be written into a `NibbleBufMut`.
pub trait SerializeVlu4 {
    /// The nibbles this value is written as.
    spec fn ser_nibbles(&self) -> Seq<u8>;

    /// Whether writing the value into a writer with `left` nibbles of room
    /// is bound to succeed.
    spec fn ser_fits(&self, left: int) -> bool;

    /// Writes the value at the writer's cursor, which is left right after it.
    fn ser_vlu4(&self, nwr: &mut NibbleBufMut) -> (r: Result<(), Error>)
        requires
            old(nwr).wf(),
        ensures
            r is Ok ==> final(nwr).wrote(old(nwr), self.ser_nibbles()) && all_nibbles(self.ser_nibbles()),
            r is Err ==> final(nwr).wf() && final(nwr).limit() == old(nwr).limit() && final(nwr).pos() >= old(
                nwr,
            ).pos() && final(nwr).bytes().len() == old(nwr).bytes().len(),
            self.ser_fits(old(nwr).left()) ==> r is Ok,
    ;

    /// The number of nibbles the value takes, as far as it is known.
    fn len_nibbles(&self) -> (r: SerDesSize)
        ensures
            size_allows(r, self.ser_nibbles().len()),
    ;
}

/// A value that can be read from a `NibbleBuf`.
pub trait DeserializeVlu4<'i>: Sized {
    /// Whether reading from the nibbles `ns` gives `v` and takes the first
    /// `n` of them.
    spec fn des_ok(ns: Seq<u8>, v: Self, n: nat) -> bool;

    /// Whether reading from the nibbles `ns` fails.
    spec fn des_err(ns: Seq<u8>) -> bool;

    /// Reads a value at the reader's cursor, which is left right after it.
    fn des_vlu4(rdr: &mut NibbleBuf<'i>) -> (r: Result<Self, Error>)
        requires
            old(rdr).wf(),
        ensures
            final(rdr).wf(),
            final(rdr).same_window(old(rdr)),
            r matches Ok(v) ==> final(rdr).pos() >= old(rdr).pos() && Self::des_ok(
                old(rdr).rest(),
                v,
                (final(rdr).pos() - old(rdr).pos()) as nat,
            ),
            r is Err ==> Self::des_err(old(rdr).rest()),
    ;
}

/// A value whose encoding reads back as itself.
pub trait Vlu4Codec<'i>: SerializeVlu4 + DeserializeVlu4<'i> {
    /// The encoding of `v`, followed by anything, reads as `v` and takes
    /// exactly the encoding's nibbles.
    proof fn lemma_decode_encode(v: Self, tail: Seq<u8>)
        ensures
            !Self::des_err(v.ser_nibbles() + tail),
            forall|w: Self, n: nat|
                #[trigger] Self::des_ok(v.ser_nibbles() + tail, w, n) ==> w == v && n == v.ser_nibbles().len(),
    ;
}

impl SerializeVlu4 for u8 {
    open spec fn ser_fits(&self, left: int) -> bool {
        left >= 2
    }

    open spec fn ser_nibbles(&self) -> Seq<u8> {
        byte_nibbles(*self)
    }

    fn ser_vlu4(&self, nwr: &mut NibbleBufMut) -> (r: Result<(), Error>) {
        nwr.put_u8(*self)
    }

    fn len_nibbles(&self) -> (r: SerDesSize) {
        SerDesSize::Sized(2)
    }
}

impl<'i> DeserializeVlu4<'i> for u8 {
    open spec fn des_ok(ns: Seq<u8>, v: Self, n: nat) -> bool {
        n == 2 && ns.len() >= 2 && byte_nibbles(v) == ns.take(2)
    }

    open spec fn des_err(ns: Seq<u8>) -> bool {
        ns.len() < 2
    }

    fn des_vlu4(rdr: &mut NibbleBuf<'i>) -> (r: Result<Self, Error>) {
        rdr.get_u8()
    }
}

impl<'i> Vlu4Codec<'i> for u8 {
    proof fn lemma_decode_encode(v: Self, tail: Seq<u8>) {
        let ns = v.ser_nibbles() + tail;
        assert(ns.take(2) =~= byte_nibbles(v));
        assert forall|w: Self, n: nat| #[trigger] Self::des_ok(ns, w, n) implies w == v && n == 2 by {
            lemma_byte_nibbles_injective(w, v);
        }
    }
}

impl SerializeVlu4 for u16 {
    open spec fn ser_fits(&self, left: int) -> bool {
        left >= 4
    }

    open spec fn ser_nibbles(&self) -> Seq<u8> {
        u16_nibbles(*self)
    }

    fn ser_vlu4(&self, nwr: &mut NibbleBufMut) -> (r: Result<(), Error>) {
        nwr.put_u16_be(*self)
    }

    fn len_nibbles(&self) -> (r: SerDesSize) {
        SerDesSize::Sized(4)
    }
}

impl<'i> DeserializeVlu4<'i> for u16 {
    open spec fn des_ok(ns: Seq<u8>, v: Self, n: nat) -> bool {
        n == 4 && ns.len() >= 4 && u16_nibbles(v) == ns.take(4)
    }

    open spec fn des_err(ns: Seq<u8>) -> bool {
        ns.len() < 4
    }

    fn des_vlu4(rdr: &mut NibbleBuf<'i>) -> (r: Result<Self, Error>) {
        rdr.get_u16_be()
    }
}

proof fn lemma_u16_nibbles_injective(a: u16, b: u16)
    requires
        u16_nibbles(a) == u16_nibbles(b),
    ensures
        a == b,
{
    let (ha, hb) = ((a / 256) as u8, (b / 256) as u8);
    let (la, lb) = ((a % 256) as u8, (b % 256) as u8);
    assert(byte_nibbles(ha) =~= u16_nibbles(a).take(2));
    assert(byte_nibbles(hb) =~= u16_nibbles(b).take(2));
    assert(byte_nibbles(la) =~= u16_nibbles(a).skip(2));
    assert(byte_nibbles(lb) =~= u16_nibbles(b).skip(2));
    lemma_byte_nibbles_injective(ha, hb);
    lemma_byte_nibbles_injective(la, lb);
}

proof fn lemma_byte_nibbles_injective(a: u8, b: u8)
    requires
        byte_nibbles(a) == byte_nibbles(b),
    ensures
        a == b,
{
    assert(byte_nibbles(a)[0] == byte_nibbles(b)[0] && byte_nibbles(a)[1] == byte_nibbles(b)[1]);
}

impl<'i> Vlu4Codec<'i> for u16 {
    proof fn lemma_decode_encode(v: Self, tail: Seq<u8>) {
        let ns = v.ser_nibbles() + tail;
        assert(ns.take(4) =~= u16_nibbles(v));
        assert forall|w: Self, n: nat| #[trigger] Self::des_ok(ns, w, n) implies w == v && n == 4 by {
            lemma_u16_nibbles_injective(w, v);
        }
    }
}

impl SerializeVlu4 for u32 {
    open spec fn ser_fits(&self, left: int) -> bool {
        left >= 8
    }

    open spec fn ser_nibbles(&self) -> Seq<u8> {
        u32_nibbles(*self)
    }

    fn ser_vlu4(&self, nwr: &mut NibbleBufMut) -> (r: Result<(), Error>) {
        nwr.put_u32_be(*self)
    }

    fn len_nibbles(&self) -> (r: SerDesSize) {
        SerDesSize::Sized(8)
    }
}

impl<'i> DeserializeVlu4<'i> for u32 {
    open spec fn des_ok(ns: Seq<u8>, v: Self, n: nat) -> bool {
        n == 8 && ns.len() >= 8 && u32_nibbles(v) == ns.take(8)
    }

    open spec fn des_err(ns: Seq<u8>) -> bool {
        ns.len() < 8
    }

    fn des_vlu4(rdr: &mut NibbleBuf<'i>) -> (r: Result<Self, Error>) {
        rdr.get_u32_be()
    }
}

impl<'i> Vlu4Codec<'i> for u32 {
    proof fn lemma_decode_encode(v: Self, tail: Seq<u8>) {
        let ns = v.ser_nibbles() + tail;
        assert(ns.take(8) =~= u32_nibbles(v));
        assert forall|w: Self, n: nat| #[trigger] Self::des_ok(ns, w, n) implies w == v && n == 8 by {
            let hw = (w / 65536) as u16;
            let hv = (v / 65536) as u16;
            let lw = (w % 65536) as u16;
            let lv = (v % 65536) as u16;
            assert(u16_nibbles(hw) =~= u32_nibbles(w).take(4));
            assert(u16_nibbles(hv) =~= u32_nibbles(v).take(4));
            assert(u16_nibbles(lw) =~= u32_nibbles(w).skip(4));
            assert(u16_nibbles(lv) =~= u32_nibbles(v).skip(4));
            lemma_u16_nibbles_injective(hw, hv);
            lemma_u16_nibbles_injective(lw, lv);
        }
    }
}

impl SerializeVlu4 for Vlu32N {
    open spec fn ser_fits(&self, left: int) -> bool {
        left >= vlu_len(self.0 as nat)
    }

    open spec fn ser_nibbles(&self) -> Seq<u8> {
        vlu_nibbles(self.0 as nat)
    }

    fn ser_vlu4(&self, nwr: &mut NibbleBufMut) -> (r: Result<(), Error>) {
        proof {
            crate::vlu::lemma_vlu_enc_shape(self.0 as nat, vlu_len(self.0 as nat), false);
        }
        nwr.put_vlu32n(self.0)
    }

    fn len_nibbles(&self) -> (r: SerDesSize) {
        proof {
            crate::vlu::lemma_vlu_enc_shape(self.0 as nat, vlu_len(self.0 as nat), false);
        }
        SerDesSize::Sized(Vlu32N::len_nibbles(self))
    }
}

impl<'i> DeserializeVlu4<'i> for Vlu32N {
    open spec fn des_ok(ns: Seq<u8>, v: Self, n: nat) -> bool {
        vlu_scan(ns, 0, u32::MAX as nat, Error::MalformedVlu32N) == Ok::<(nat, nat), Error>((v.0 as nat, n))
    }

    open spec fn des_err(ns: Seq<u8>) -> bool {
        vlu_scan(ns, 0, u32::MAX as nat, Error::MalformedVlu32N) is Err
    }

    fn des_vlu4(rdr: &mut NibbleBuf<'i>) -> (r: Result<Self, Error>) {
        proof {
            lemma_vlu_scan_ok(rdr.rest(), 0, u32::MAX as nat, Error::MalformedVlu32N);
        }
        match rdr.get_vlu32n() {
            Ok(v) => Ok(Vlu32N(v)),
            Err(e) => Err(e),
        }
    }
}

impl<'i> Vlu4Codec<'i> for Vlu32N {
    proof fn lemma_decode_encode(v: Self, tail: Seq<u8>) {
        lemma_vlu_decode_encode(v.0 as nat, tail, u32::MAX as nat, Error::MalformedVlu32N);
        crate::vlu::lemma_vlu_enc_shape(v.0 as nat, vlu_len(v.0 as nat), false);
    }
}

impl<'i> NibbleBufMut<'i> {
    /// Writes any value that can serialize itself.
    pub fn put<T: SerializeVlu4>(&mut self, t: &T) -> (r: Result<(), Error>)
        requires
            old(self).wf(),
        ensures
            r is Ok ==> final(self).wrote(old(self), t.ser_nibbles()) && all_nibbles(t.ser_nibbles()),
            r is Err ==> final(self).wf() && final(self).limit() == old(self).limit() && final(self).pos() >= old(
                self,
            ).pos() && final(self).bytes().len() == old(self).bytes().len(),
            t.ser_fits(old(self).left()) ==> r is Ok,
    {
        t.ser_vlu4(self)
    }
}

impl<'i> NibbleBufMut<'i> {
    /// Writes `t` like `put`, then holds the number of nibbles written to
    /// the estimate of `t`, failing with `InvalidSizedEstimate` exactly where
    /// the estimate was `Sized(n)` and another number of nibbles was
    /// written. For impls that meet the contracts of `SerializeVlu4` this
    /// is proved never to happen (the branch is shown unreachable), so the
    /// result is that of `ser_vlu4`; the check guards code that was not
    /// verified.
    pub fn put_checked<T: SerializeVlu4>(&mut self, t: &T) -> (r: Result<(), Error>)
        requires
            old(self).wf(),
        ensures
            r is Ok ==> final(self).wrote(old(self), t.ser_nibbles()) && all_nibbles(t.ser_nibbles()),
            r is Err ==> final(self).wf() && final(self).limit() == old(self).limit() && final(self).pos() >= old(
                self,
            ).pos() && final(self).bytes().len() == old(self).bytes().len(),
            t.ser_fits(old(self).left()) ==> r is Ok,
    {
        let size = t.len_nibbles();
        let before = self.nibbles_pos();
        match t.ser_vlu4(self) {
            Ok(()) => {},
            Err(e) => {
                return Err(e);
            },
        }
        if let SerDesSize::Sized(n) = size {
            if self.nibbles_pos() - before != n {
                proof {
                    // the contracts of `len_nibbles` and `ser_vlu4` leave no way here
                    assert(false);
                }
                return Err(Error::InvalidSizedEstimate);
            }
        }
        Ok(())
    }
}

impl<'i> NibbleBuf<'i> {
    /// Reads any value that can deserialize itself.
    pub fn des_vlu4<T: DeserializeVlu4<'i>>(&mut self) -> (r: Result<T, Error>)
        requires
            old(self).wf(),
        ensures
            final(self).wf(),
            final(self).same_window(old(self)),
            r matches Ok(v) ==> final(self).pos() >= old(self).pos() && T::des_ok(
                old(self).rest(),
                v,
                (final(self).pos() - old(self).pos()) as nat,
            ),
            r is Err ==> T::des_err(old(self).rest()),
    {
        T::des_vlu4(self)
    }

    /// Reads a result code as a `Vlu32N`: for `0` reads a `T` and returns
    /// `Ok(Ok(t))`, for any other code returns `Ok(Err(f(code)))`. Fails
    /// where the code or the `T` cannot be read.
    pub fn des_vlu4_if_ok<T, F, E>(&mut self, f: F) -> (r: Result<Result<T, E>, Error>)
        where
            T: DeserializeVlu4<'i>,
            F: Fn(u32) -> E,
        requires
            old(self).wf(),
            forall|code: u32| #[trigger] f.requires((code,)),
        ensures
            final(self).wf(),
            final(self).same_window(old(self)),
            match vlu_scan(old(self).rest(), 0, u32::MAX as nat, Error::MalformedVlu32N) {
                Err(e) => r == Err::<Result<T, E>, Error>(e),
                Ok((code, n)) => if code == 0 {
                    match r {
                        Ok(Ok(t)) => final(self).pos() >= old(self).pos() + n && T::des_ok(
                            old(self).rest().skip(n as int),
                            t,
                            (final(self).pos() - old(self).pos() - n) as nat,
                        ),
                        Ok(Err(_)) => false,
                        Err(_) => T::des_err(old(self).rest().skip(n as int)),
                    }
                } else {
                    &&& final(self).pos() == old(self).pos() + n
                    &&& r matches Ok(Err(e)) && f.ensures((code as u32,), e)
                },
            },
    {
        proof {
            lemma_vlu_scan_ok(self.rest(), 0, u32::MAX as nat, Error::MalformedVlu32N);
        }
        let ghost r0 = self.rest();
        let code = match self.get_vlu32n() {
            Ok(c) => c,
            Err(e) => {
                return Err(e);
            },
        };
        proof {
            assert(self.rest() =~= r0.skip(self.pos() - old(self).pos()));
        }
        if code == 0 {
            match T::des_vlu4(self) {
                Ok(t) => Ok(Ok(t)),
                Err(e) => Err(e),
            }
        } else {
            Ok(Err(f(code)))
        }
    }
}

impl<'i> SerializeVlu4 for NibbleBuf<'i> {
    open spec fn ser_fits(&self, left: int) -> bool {
        self.wf() && self.left() <= u32::MAX && left >= vlu_len(self.left() as nat) + self.left()
    }

    open spec fn ser_nibbles(&self) -> Seq<u8> {
        vlu_nibbles(self.left() as nat) + self.rest()
    }

    /// Writes the nibbles left, prefixed by their number as a `Vlu32N`;
    /// fails with `OutOfBounds` where that number does not fit in a `u32`.
    fn ser_vlu4(&self, nwr: &mut NibbleBufMut) -> (r: Result<(), Error>) {
        if !self.check_wf() {
            return Err(Error::OutOfBounds);
        }
        let left = self.nibbles_left();
        if left > u32::MAX as usize {
            return Err(Error::OutOfBounds);
        }
        let ghost s0 = nwr.bytes();
        let ghost p0 = nwr.pos();
        match nwr.put_vlu32n(left as u32) {
            Ok(()) => {},
            Err(e) => {
                return Err(e);
            },
        }
        let r = nwr.put_nibble_buf(self);
        proof {
            crate::vlu::lemma_vlu_enc_shape(left as nat, vlu_len(left as nat), false);
            crate::nibble::lemma_write_nibbles_concat(s0, p0, vlu_nibbles(left as nat), self.rest());
        }
        r
    }

    fn len_nibbles(&self) -> (r: SerDesSize) {
        if !self.check_wf() {
            return SerDesSize::Unsized;
        }
        let left = self.nibbles_left();
        if left > u32::MAX as usize {
            return SerDesSize::Unsized;
        }
        let len_len = Vlu32N(left as u32).len_nibbles();
        proof {
            crate::vlu::lemma_vlu_enc_shape(left as nat, vlu_len(left as nat), false);
        }
        if left > usize::MAX - len_len {
            return SerDesSize::Unsized;
        }
        SerDesSize::Sized(len_len + left)
    }
}

impl<'i> DeserializeVlu4<'i> for NibbleBuf<'i> {
    /// A `Vlu32N` length, then that many nibbles, read as a reader of their own.
    open spec fn des_ok(ns: Seq<u8>, v: Self, n: nat) -> bool {
        match vlu_scan(ns, 0, u32::MAX as nat, Error::MalformedVlu32N) {
            Ok((len, m)) => {
                &&& n == m + len
                &&& n <= ns.len()
                &&& v.wf()
                &&& v.rest() == ns.subrange(m as int, n as int)
            },
            Err(_) => false,
        }
    }

    open spec fn des_err(ns: Seq<u8>) -> bool {
        match vlu_scan(ns, 0, u32::MAX as nat, Error::MalformedVlu32N) {
            Ok((len, m)) => m + len > ns.len(),
            Err(_) => true,
        }
    }

    fn des_vlu4(rdr: &mut NibbleBuf<'i>) -> (r: Result<Self, Error>) {
        proof {
            lemma_vlu_scan_ok(rdr.rest(), 0, u32::MAX as nat, Error::MalformedVlu32N);
        }
        let ghost r0 = rdr.rest();
        let ghost before = *rdr;
        let len = match rdr.get_vlu32n() {
            Ok(len) => len,
            Err(e) => {
                return Err(e);
            },
        };
        let ghost mid = *rdr;
        let r = rdr.get_buf_slice(len as usize);
        proof {
            assert(mid.rest() =~= r0.skip(mid.pos() - before.pos()));
            if r is Ok {
                assert(r0.subrange(mid.pos() - before.pos(), mid.pos() - before.pos() + len) =~= mid.rest().take(len as int));
            }
        }
        r
    }
}

} // verus!
