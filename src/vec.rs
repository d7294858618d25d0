//! Length-prefixed vectors: a `Vlu32N` element count, then the elements
//! back to back, with no per-element framing.
use vstd::prelude::*;
use core::marker::PhantomData;
use crate::error::Error;
use crate::nibble::{all_nibbles, lemma_read_back, nibbles_of, write_nibbles, bytes_nibbles, lemma_write_nibbles, lemma_write_nibbles_concat, lemma_write_nibbles_commute};
use crate::nibble_buf::{NibbleBuf, NibbleBufMut};
use crate::serdes::{DeserializeVlu4, SerializeVlu4};
use crate::vlu::{lemma_vlu_scan_ok, vlu_scan, vlu_enc, vlu_len, vlu_nibbles, vlu_len_nibbles, lemma_vlu_enc_shape};

verus! {

/// The nibbles a vector reserves for its count where `left` nibbles are
/// left: enough for the largest count that many one-nibble elements give,
/// at most what is left.
pub open spec fn reserve_for(left: int) -> int {
    let most = if left > u32::MAX { u32::MAX as int } else { left };
    if vlu_len(most as nat) > left {
        left
    } else {
        vlu_len(most as nat) as int
    }
}

/// The number of nibbles a vector's count is written in: as few as it
/// takes, or one more where the difference to the `reserved` nibbles would
/// otherwise be odd, so that the elements keep their nibble parity when
/// they move up against the count.
pub open spec fn count_len(count: nat, reserved: int) -> nat {
    if (reserved - vlu_len(count)) % 2 == 1 {
        vlu_len(count) + 1
    } else {
        vlu_len(count)
    }
}

/// The nibbles a vector's count is written as: its `Vlu32N` in
/// `count_len` nibbles, a leading zero group where one is added.
pub open spec fn count_nibbles(count: nat, reserved: int) -> Seq<u8> {
    vlu_enc(count, count_len(count, reserved), false)
}

/// The encodings of `items`, one after the other.
pub open spec fn ser_concat<T: SerializeVlu4>(items: Seq<T>) -> Seq<u8>
    decreases items.len(),
{
    if items.len() == 0 {
        seq![]
    } else {
        ser_concat(items.drop_last()) + items.last().ser_nibbles()
    }
}

/// Builds a vector in place: room for the element count is reserved in
/// front, elements are written as they come, and `finish` writes the count
/// in as few nibbles as it takes (one more, a leading zero group, where that
/// keeps the distance even), moving the elements up against it by an even
/// number of nibbles so that byte-aligned parts stay byte-aligned.
pub struct Vlu4VecBuilder<'i, T> {
    nwr: NibbleBufMut<'i>,
    // Nibble at which the count goes.
    start: usize,
    // Nibbles reserved for the count.
    reserved: usize,
    // Elements written so far.
    count: u32,
    _phantom: PhantomData<T>,
}

impl<'i, T> Vlu4VecBuilder<'i, T> {
    /// The writer the elements go into.
    pub closed spec fn writer(&self) -> NibbleBufMut<'i> {
        self.nwr
    }

    /// Where the count goes, in nibbles.
    pub closed spec fn start(&self) -> int {
        self.start as int
    }

    /// How many nibbles are reserved for the count.
    pub closed spec fn reserved(&self) -> int {
        self.reserved as int
    }

    /// How many elements were written.
    pub closed spec fn count(&self) -> nat {
        self.count as nat
    }

    pub closed spec fn wf(&self) -> bool {
        &&& self.nwr.wf()
        &&& self.start + self.reserved <= self.nwr.pos()
    }

    /// The nibbles of the elements written so far.
    pub open spec fn elems(&self) -> Seq<u8> {
        nibbles_of(
            self.writer().bytes(),
            self.start() + self.reserved(),
            self.writer().pos() - self.start() - self.reserved(),
        )
    }

    /// Starts a vector at the cursor of `nwr`, reserving room for the
    /// largest count that the rest of the window could take.
    pub fn new(nwr: NibbleBufMut<'i>) -> (r: Self)
        requires
            nwr.wf(),
        ensures
            r.wf(),
            r.count() == 0,
            r.start() == nwr.pos(),
            r.writer().bytes() == nwr.bytes(),
            r.writer().limit() == nwr.limit(),
            r.writer().bytes().len() == nwr.bytes().len(),
            r.elems().len() == 0,
            r.reserved() == reserve_for(nwr.left()),
    {
        let mut nwr = nwr;
        let start = nwr.nibbles_pos();
        let left = nwr.nibbles_left();
        let most: u32 = if left > u32::MAX as usize {
            u32::MAX
        } else {
            left as u32
        };
        let w = vlu_len_nibbles(most);
        let reserved = if w > left {
            left
        } else {
            w
        };
        let _ = nwr.skip(reserved);
        Vlu4VecBuilder { nwr, start, reserved, count: 0, _phantom: PhantomData }
    }

    /// Whether the builder is well formed, checked at run time.
    fn check_wf(&self) -> (r: bool)
        ensures
            r == self.wf(),
    {
        if !self.nwr.check_wf() {
            return false;
        }
        let pos = self.nwr.nibbles_pos();
        self.start <= pos && self.reserved <= pos - self.start
    }

    /// The writer as it stands, without writing the count.
    pub(crate) fn into_writer(self) -> (r: NibbleBufMut<'i>)
        ensures
            r == self.writer(),
    {
        self.nwr
    }

    proof fn lemma_elems_grow(&self, old_b: Seq<u8>, old_pos: int, ns: Seq<u8>)
        requires
            self.wf(),
            self.start() + self.reserved() <= old_pos,
            old_pos + ns.len() <= 2 * old_b.len(),
            self.writer().bytes() == write_nibbles(old_b, old_pos, ns),
            self.writer().pos() == old_pos + ns.len(),
            crate::nibble::all_nibbles(ns),
        ensures
            self.elems() == nibbles_of(old_b, self.start() + self.reserved(), old_pos - self.start() - self.reserved()) + ns,
    {
        let base = self.start() + self.reserved();
        let e0 = nibbles_of(old_b, base, old_pos - base);
        assert forall|i: int| 0 <= i < self.elems().len() implies #[trigger] self.elems()[i] == (e0 + ns)[i] by {
            lemma_write_nibbles(old_b, old_pos, ns, base + i);
        }
        assert(self.elems() =~= e0 + ns);
    }

    /// Writes the count over the reserved room and moves the elements up
    /// against it by an even number of nibbles, so that each keeps its
    /// position within a byte; fails with `VectorCorruption` where the count
    /// takes more nibbles than were reserved.
    pub(crate) fn finish_internal(&mut self) -> (r: Result<(), Error>)
        requires
            old(self).wf(),
        ensures
            match r {
                Ok(()) => {
                    let k = count_len(old(self).count(), old(self).reserved());
                    &&& vlu_len(old(self).count()) <= old(self).reserved()
                    &&& k <= old(self).reserved()
                    &&& (old(self).reserved() - k) % 2 == 0
                    &&& final(self).writer().wf()
                    &&& final(self).writer().limit() == old(self).writer().limit()
                    &&& final(self).writer().bytes().len() == old(self).writer().bytes().len()
                    &&& final(self).writer().pos() == old(self).start() + k + old(self).elems().len()
                    &&& final(self).writer().bytes() == write_nibbles(
                        old(self).writer().bytes(),
                        old(self).start(),
                        count_nibbles(old(self).count(), old(self).reserved()) + old(self).elems(),
                    )
                    &&& nibbles_of(final(self).writer().bytes(), old(self).start(), (k + old(self).elems().len()) as int)
                        == count_nibbles(old(self).count(), old(self).reserved()) + old(self).elems()
                },
                Err(e) => e == Error::VectorCorruption && vlu_len(old(self).count()) > old(self).reserved()
                    && *final(self) == *old(self),
            },
    {
        proof {
            self.nwr.lemma_bounds();
        }
        let min = vlu_len_nibbles(self.count);
        if min > self.reserved {
            return Err(Error::VectorCorruption);
        }
        let k = if (self.reserved - min) % 2 == 1 {
            min + 1
        } else {
            min
        };
        let ghost b0 = self.nwr.bytes();
        let ghost e = self.elems();
        let ghost c = count_nibbles(self.count as nat, self.reserved as int);
        proof {
            lemma_vlu_enc_shape(self.count as nat, k as nat, false);
        }
        self.nwr.shift_down(self.start + self.reserved, self.start + k);
        self.nwr.replace_vlu_enc(self.start, self.count, k);
        proof {
            lemma_write_nibbles_commute(b0, self.start as int, c, self.start + k, e);
            lemma_write_nibbles_concat(b0, self.start as int, c, e);
            assert(all_nibbles(c + e));
            lemma_read_back(b0, self.start as int, c + e);
        }
        Ok(())
    }

    /// Ends the vector and hands the writer back, its cursor right after the
    /// last element.
    pub fn finish(self) -> (r: Result<NibbleBufMut<'i>, Error>)
        requires
            self.wf(),
        ensures
            match r {
                Ok(w) => {
                    let k = count_len(self.count(), self.reserved());
                    &&& vlu_len(self.count()) <= self.reserved()
                    &&& k <= self.reserved()
                    &&& (self.reserved() - k) % 2 == 0
                    &&& w.wf()
                    &&& w.limit() == self.writer().limit()
                    &&& w.pos() == self.start() + k + self.elems().len()
                    &&& w.bytes() == write_nibbles(
                        self.writer().bytes(),
                        self.start(),
                        count_nibbles(self.count(), self.reserved()) + self.elems(),
                    )
                },
                Err(e) => e == Error::VectorCorruption && vlu_len(self.count()) > self.reserved(),
            },
    {
        let mut b = self;
        match b.finish_internal() {
            Ok(()) => Ok(b.nwr),
            Err(e) => Err(e),
        }
    }
}

impl<'i, T: SerializeVlu4> Vlu4VecBuilder<'i, T> {
    /// Appends one element; fails with `VectorCorruption` once the count
    /// would pass `u32::MAX`.
    pub fn put(&mut self, t: &T) -> (r: Result<(), Error>)
        requires
            old(self).wf(),
        ensures
            final(self).wf(),
            final(self).start() == old(self).start(),
            final(self).reserved() == old(self).reserved(),
            final(self).writer().limit() == old(self).writer().limit(),
            final(self).writer().bytes().len() == old(self).writer().bytes().len(),
            r is Ok ==> final(self).count() == old(self).count() + 1 && final(self).elems() == old(self).elems()
                + t.ser_nibbles(),
            r is Err ==> final(self).count() == old(self).count(),
            old(self).count() == u32::MAX ==> r == Err::<(), Error>(Error::VectorCorruption) && *final(self)
                == *old(self),
            old(self).count() < u32::MAX && t.ser_fits(old(self).writer().left()) ==> r is Ok,
    {
        if self.count == u32::MAX {
            return Err(Error::VectorCorruption);
        }
        let ghost b0 = self.nwr.bytes();
        let ghost p0 = self.nwr.pos();
        match self.nwr.put(t) {
            Ok(()) => {},
            Err(e) => {
                return Err(e);
            },
        }
        proof {
            self.nwr.lemma_bounds();
            self.lemma_elems_grow(b0, p0, t.ser_nibbles());
        }
        self.count = self.count + 1;
        Ok(())
    }
}

impl<'i, 'a> Vlu4VecBuilder<'i, &'a [u8]> {
    /// Appends a byte slice: its length as a `Vlu32N`, a zero nibble where
    /// that leaves the cursor off a byte boundary, then its bytes.
    pub fn put_aligned(&mut self, slice: &[u8]) -> (r: Result<(), Error>)
        requires
            old(self).wf(),
        ensures
            final(self).wf(),
            final(self).start() == old(self).start(),
            final(self).reserved() == old(self).reserved(),
            final(self).writer().limit() == old(self).writer().limit(),
            r is Ok ==> final(self).count() == old(self).count() + 1 && final(self).elems() == old(self).elems()
                + aligned_slice_nibbles(old(self).writer().pos(), slice@),
            r is Err ==> *final(self) == *old(self),
            old(self).count() == u32::MAX || slice@.len() > u32::MAX ==> r == Err::<(), Error>(
                Error::VectorCorruption,
            ),
            old(self).count() < u32::MAX && slice@.len() <= u32::MAX ==> (r is Ok <==> aligned_slice_nibbles(
                old(self).writer().pos(),
                slice@,
            ).len() <= old(self).writer().left()),
            r is Err && old(self).count() < u32::MAX && slice@.len() <= u32::MAX ==> r == Err::<(), Error>(
                Error::OutOfBounds,
            ),
    {
        if self.count == u32::MAX || slice.len() > u32::MAX as usize {
            return Err(Error::VectorCorruption);
        }
        let ghost b0 = self.nwr.bytes();
        let ghost p0 = self.nwr.pos();
        proof {
            self.nwr.lemma_bounds();
        }
        let left = self.nwr.nibbles_left();
        let k = vlu_len_nibbles(slice.len() as u32);
        proof {
            lemma_vlu_enc_shape(slice.len() as nat, k as nat, false);
        }
        let pad: usize = (self.nwr.nibbles_pos() % 2 + k % 2) % 2;
        if left < k || left - k < pad || (left - k - pad) / 2 < slice.len() {
            return Err(Error::OutOfBounds);
        }
        let ghost c = vlu_nibbles(slice.len() as nat);
        let ghost pad_seq: Seq<u8> = if pad == 1 { seq![0u8] } else { seq![] };
        let _ = self.nwr.put_vlu32n(slice.len() as u32);
        let ghost b1 = self.nwr.bytes();
        let _ = self.nwr.align_to_byte();
        if pad == 0 {
            assert(write_nibbles(b1, p0 + k, pad_seq) == b1);
        }
        let ghost b2 = self.nwr.bytes();
        let rd = NibbleBuf::new_all(slice);
        assert(rd.rest() =~= bytes_nibbles(slice@));
        let _ = self.nwr.put_nibble_buf(&rd);
        proof {
            lemma_write_nibbles_concat(b0, p0, c, pad_seq);
            lemma_write_nibbles_concat(b0, p0, c + pad_seq, bytes_nibbles(slice@));
            assert(aligned_slice_nibbles(p0, slice@) =~= c + pad_seq + bytes_nibbles(slice@));
            self.nwr.lemma_bounds();
            self.lemma_elems_grow(b0, p0, aligned_slice_nibbles(p0, slice@));
        }
        self.count = self.count + 1;
        Ok(())
    }
}

/// The nibbles `put_aligned` writes for `slice` at nibble `pos`.
pub open spec fn aligned_slice_nibbles(pos: int, slice: Seq<u8>) -> Seq<u8> {
    vlu_nibbles(slice.len() as nat) + (if (pos + vlu_len(slice.len() as nat)) % 2 == 1 {
        seq![0u8]
    } else {
        seq![]
    }) + bytes_nibbles(slice)
}

impl<'i> NibbleBufMut<'i> {
    /// Starts a vector at the cursor; the builder's `finish` hands the
    /// writer back.
    pub fn put_vec<T>(self) -> (r: Vlu4VecBuilder<'i, T>)
        requires
            self.wf(),
        ensures
            r.wf(),
            r.count() == 0,
            r.start() == self.pos(),
            r.writer().bytes() == self.bytes(),
            r.writer().limit() == self.limit(),
            r.elems().len() == 0,
    {
        Vlu4VecBuilder::new(self)
    }

    /// Writes a vector whose elements `f` puts into the builder it is given,
    /// a builder that starts at the cursor. Where `f` succeeds and the count
    /// of elements put fits in its reserved room, the nibbles from the old
    /// cursor on are that count as a minimal `Vlu32N` and then the elements,
    /// and the cursor ends after them. Where `f` fails that error is
    /// returned, and where the count does not fit `VectorCorruption`; the
    /// cursor then stays where it was. Where `f` left the builder broken or
    /// over another window or start, fails with `OutOfBounds` and empties
    /// the window.
    pub fn put_vec_with<T, F>(&mut self, f: F) -> (r: Result<(), Error>)
        where
            T: SerializeVlu4,
            F: FnOnce(&mut Vlu4VecBuilder<'i, T>) -> Result<(), Error>,
        requires
            old(self).wf(),
            forall|b: &mut Vlu4VecBuilder<'i, T>| b.wf() ==> #[trigger] f.requires((b,)),
        ensures
            final(self).wf(),
            exists|b: &mut Vlu4VecBuilder<'i, T>, fr: Result<(), Error>|
                #[trigger] f.ensures((b,), fr) && b.wf() && b.count() == 0 && b.start() == old(self).pos()
                    && b.reserved() == reserve_for(old(self).left()) && b.writer().limit() == old(self).limit()
                    && b.writer().bytes().len() == old(self).bytes().len() && if final(b).wf()
                    && final(b).start() == old(self).pos() && final(b).writer().limit() == old(self).limit()
                    && final(b).writer().bytes().len() == old(self).bytes().len() {
                    vec_outcome(old(self).pos(), old(self).limit(), *final(b), fr, *final(self), r)
                } else {
                    r == Err::<(), Error>(Error::OutOfBounds) && final(self).limit() == 0
                },
    {
        let w = self.take_out();
        let start = w.nibbles_pos();
        let limit = w.limit_nibbles();
        let len = w.buf_len();
        let mut builder = Vlu4VecBuilder::new(w);
        let r = f(&mut builder);
        if !builder.check_wf() {
            return Err(Error::OutOfBounds);
        }
        if builder.start != start || builder.nwr.limit_nibbles() != limit || builder.nwr.buf_len() != len {
            let mut w = builder.into_writer();
            w.clear();
            *self = w;
            return Err(Error::OutOfBounds);
        }
        self.close_vec(builder, r, start)
    }

    /// Ends the vector in `builder` after its elements were put, with `fr`
    /// the result of putting them, and takes its writer back.
    fn close_vec<T>(&mut self, builder: Vlu4VecBuilder<'i, T>, fr: Result<(), Error>, start: usize) -> (r: Result<(), Error>)
        requires
            builder.wf(),
            builder.start() == start,
        ensures
            vec_outcome(
                start as int,
                builder.writer().limit(),
                builder,
                fr,
                *final(self),
                r,
            ),
            final(self).wf(),
    {
        let mut builder = builder;
        proof {
            builder.nwr.lemma_bounds();
        }
        if fr.is_err() {
            let mut w = builder.into_writer();
            w.set_pos(start);
            *self = w;
            return fr;
        }
        let ghost b0 = builder;
        match builder.finish_internal() {
            Ok(()) => {
                *self = builder.into_writer();
                Ok(())
            },
            Err(e) => {
                let mut w = builder.into_writer();
                w.set_pos(start);
                *self = w;
                Err(e)
            },
        }
    }

    /// Writes a vector of the elements that `f` hands out, up to its first
    /// `None`: on success the nibbles from the old cursor on are the number
    /// of elements handed out as a minimal `Vlu32N`, then their encodings in
    /// order, and the cursor ends after them. Fails with the first error in
    /// writing an element, with `VectorCorruption` where the count passes
    /// `u32::MAX` or does not fit in its reserved room; the cursor then
    /// stays where it was. With at least one nibble of room, handing out no
    /// element succeeds.
    pub fn unfold_as_vec<T, F>(&mut self, f: F) -> (r: Result<(), Error>)
        where
            T: SerializeVlu4,
            F: Fn() -> Option<T>,
        requires
            old(self).wf(),
            forall|x: ()| #[trigger] f.requires(x),
        ensures
            final(self).wf(),
            final(self).limit() == old(self).limit(),
            final(self).bytes().len() == old(self).bytes().len(),
            r is Ok ==> exists|items: Seq<T>|
                #![trigger ser_concat(items)]
                (forall|i: int| 0 <= i < items.len() ==> #[trigger] f.ensures((), Some(items[i])))
                    && f.ensures((), None::<T>) && final(self).pos() == old(self).pos() + count_len(items.len(), reserve_for(old(self).left()))
                    + ser_concat(items).len() && nibbles_of(
                    final(self).bytes(),
                    old(self).pos(),
                    (count_len(items.len(), reserve_for(old(self).left())) + ser_concat(items).len()) as int,
                ) == count_nibbles(items.len(), reserve_for(old(self).left())) + ser_concat(items),
            r is Err ==> final(self).pos() == old(self).pos(),
            old(self).left() >= 1 && (forall|x: Option<T>| #[trigger] f.ensures((), x) ==> x is None) ==> r is Ok,
    {
        let w = self.take_out();
        let start = w.nibbles_pos();
        let mut builder = Vlu4VecBuilder::new(w);
        let ghost lim = builder.writer().limit();
        let ghost len = builder.writer().bytes().len();
        let ghost mut items: Seq<T> = seq![];
        assert(ser_concat(items) =~= builder.elems());
        loop
            invariant
                builder.wf(),
                lim == old(self).limit(),
                len == old(self).bytes().len(),
                start == old(self).pos(),
                builder.start() == start,
                builder.reserved() == reserve_for(old(self).left()),
                builder.writer().limit() == lim,
                builder.writer().bytes().len() == len,
                builder.count() == items.len(),
                builder.elems() == ser_concat(items),
                forall|i: int| 0 <= i < items.len() ==> #[trigger] f.ensures((), Some(items[i])),
                forall|x: ()| #[trigger] f.requires(x),
            ensures
                builder.wf(),
                builder.start() == start,
                builder.reserved() == reserve_for(old(self).left()),
                builder.writer().limit() == lim,
                builder.writer().bytes().len() == len,
                builder.count() == items.len(),
                builder.elems() == ser_concat(items),
                forall|i: int| 0 <= i < items.len() ==> #[trigger] f.ensures((), Some(items[i])),
                f.ensures((), None::<T>),
            decreases u32::MAX - builder.count(),
        {
            let next = f();
            let ghost gnext = next;
            match next {
                Some(t) => {
                    let ghost gt = t;
                    match builder.put(&t) {
                        Ok(()) => {},
                        Err(e) => {
                            proof {
                                builder.nwr.lemma_bounds();
                                assert(f.ensures((), gnext));
                            }
                            let mut w = builder.into_writer();
                            w.set_pos(start);
                            *self = w;
                            return Err(e);
                        },
                    }
                    proof {
                        let items2 = items.push(gt);
                        assert(items2.drop_last() =~= items);
                        items = items2;
                    }
                },
                None => {
                    break;
                },
            }
        }
        let ghost b0 = builder;
        let r = self.close_vec(builder, Ok(()), start);
        proof {
            if old(self).left() >= 1 && (forall|x: Option<T>| #[trigger] f.ensures((), x) ==> x is None) {
                assert(items.len() == 0) by {
                    if items.len() > 0 {
                        assert(f.ensures((), Some(items[0])));
                    }
                }
                assert(vlu_len(0) == 1);
            }
            if r is Ok {
                assert((forall|i: int| 0 <= i < items.len() ==> #[trigger] f.ensures((), Some(items[i])))
                    && f.ensures((), None::<T>) && self.pos() == old(self).pos() + count_len(items.len(), reserve_for(old(self).left()))
                    + ser_concat(items).len() && nibbles_of(
                    self.bytes(),
                    old(self).pos(),
                    (count_len(items.len(), reserve_for(old(self).left())) + ser_concat(items).len()) as int,
                ) == count_nibbles(items.len(), reserve_for(old(self).left())) + ser_concat(items));
            }
        }
        r
    }
}

/// What ends a vector whose builder `b`, started at nibble `start` of a
/// window of `limit` nibbles, finished with `fr`: `new` is the writer
/// after and `r` the result.
pub open spec fn vec_outcome<'i, T>(
    start: int,
    limit: int,
    b: Vlu4VecBuilder<'i, T>,
    fr: Result<(), Error>,
    new: NibbleBufMut<'i>,
    r: Result<(), Error>,
) -> bool {
    &&& new.limit() == limit
    &&& new.bytes().len() == b.writer().bytes().len()
    &&& match fr {
        Err(e) => r == fr && new.pos() == start && new.bytes() == b.writer().bytes(),
        Ok(()) => if vlu_len(b.count()) <= b.reserved() {
            &&& (b.reserved() - count_len(b.count(), b.reserved())) % 2 == 0
            &&& r == Ok::<(), Error>(())
            &&& new.pos() == start + count_len(b.count(), b.reserved()) + b.elems().len()
            &&& new.bytes() == write_nibbles(b.writer().bytes(), start, count_nibbles(b.count(), b.reserved()) + b.elems())
            &&& nibbles_of(new.bytes(), start, (count_len(b.count(), b.reserved()) + b.elems().len()) as int)
                == count_nibbles(b.count(), b.reserved()) + b.elems()
        } else {
            r == Err::<(), Error>(Error::VectorCorruption) && new.pos() == start && new.bytes()
                == b.writer().bytes()
        },
    }
}

/// Whether `count` values of `T` can be read one after another from the
/// start of `ns`, taking `t` nibbles in all.
pub open spec fn des_run<'i, T: DeserializeVlu4<'i>>(ns: Seq<u8>, count: nat, t: nat) -> bool
    decreases count,
{
    if count == 0 {
        t == 0
    } else {
        exists|v: T, n: nat|
            #[trigger] T::des_ok(ns, v, n) && n <= t && n <= ns.len() && des_run::<'i, T>(
                ns.skip(n as int),
                (count - 1) as nat,
                (t - n) as nat,
            )
    }
}

/// Whether reading `count` values of `T` one after another from the start
/// of `ns` can fail: one of them fails, or runs past the end of `ns`.
pub open spec fn des_run_fails<'i, T: DeserializeVlu4<'i>>(ns: Seq<u8>, count: nat) -> bool
    decreases count,
{
    count > 0 && (T::des_err(ns) || exists|v: T, n: nat|
        #[trigger] T::des_ok(ns, v, n) && (n > ns.len() || des_run_fails::<'i, T>(
            ns.skip(n as int),
            (count - 1) as nat,
        )))
}

/// A vector of values of `T`, read in place: the elements are decoded one
/// by one as they are taken.
pub struct Vlu4Vec<'i, T> {
    // Reader at the next element.
    rdr: NibbleBuf<'i>,
    // Elements not taken yet.
    len: u32,
    _phantom: PhantomData<T>,
}

impl<'i, T: DeserializeVlu4<'i>> Vlu4Vec<'i, T> {
    /// The reader at the next element.
    pub closed spec fn reader(&self) -> NibbleBuf<'i> {
        self.rdr
    }

    /// The number of elements not taken yet.
    pub closed spec fn count(&self) -> nat {
        self.len as nat
    }

    /// The number of elements not taken yet.
    pub fn len(&self) -> (r: usize)
        ensures
            r == self.count(),
    {
        self.len as usize
    }

    /// Takes the next element, or `None` after the last.
    pub fn next(&mut self) -> (r: Option<Result<T, Error>>)
        requires
            old(self).reader().wf(),
        ensures
            final(self).reader().wf(),
            final(self).reader().same_window(&old(self).reader()),
            match r {
                None => old(self).count() == 0 && *final(self) == *old(self),
                Some(Ok(v)) => {
                    &&& old(self).count() > 0
                    &&& final(self).count() == old(self).count() - 1
                    &&& final(self).reader().pos() >= old(self).reader().pos()
                    &&& T::des_ok(
                        old(self).reader().rest(),
                        v,
                        (final(self).reader().pos() - old(self).reader().pos()) as nat,
                    )
                },
                Some(Err(_)) => old(self).count() > 0 && T::des_err(old(self).reader().rest()),
            },
    {
        if self.len == 0 {
            return None;
        }
        let r = T::des_vlu4(&mut self.rdr);
        self.len = self.len - 1;
        Some(r)
    }
}

impl<'i, T: DeserializeVlu4<'i>> DeserializeVlu4<'i> for Vlu4Vec<'i, T> {
    /// A `Vlu32N` count, then that many values of `T`.
    open spec fn des_ok(ns: Seq<u8>, v: Self, n: nat) -> bool {
        match vlu_scan(ns, 0, u32::MAX as nat, Error::MalformedVlu32N) {
            Ok((c, m)) => {
                &&& n >= m
                &&& des_run::<'i, T>(ns.skip(m as int), c, (n - m) as nat)
                &&& v.reader().wf()
                &&& v.reader().rest() == ns.skip(m as int)
                &&& v.count() == c
            },
            Err(_) => false,
        }
    }

    open spec fn des_err(ns: Seq<u8>) -> bool {
        match vlu_scan(ns, 0, u32::MAX as nat, Error::MalformedVlu32N) {
            Ok((c, m)) => des_run_fails::<'i, T>(ns.skip(m as int), c),
            Err(_) => true,
        }
    }

    fn des_vlu4(rdr: &mut NibbleBuf<'i>) -> (r: Result<Self, Error>) {
        proof {
            lemma_vlu_scan_ok(rdr.rest(), 0, u32::MAX as nat, Error::MalformedVlu32N);
        }
        let ghost r0 = rdr.rest();
        let ghost p0 = rdr.pos();
        let mut probe = *rdr;
        let count = match probe.get_vlu32n() {
            Ok(c) => c,
            Err(e) => {
                return Err(e);
            },
        };
        let ghost m = probe.pos() - p0;
        let ghost ns0 = r0.skip(m);
        proof {
            assert(probe.rest() =~= r0.skip(m));
        }
        let after_count = probe;
        let start = probe.nibbles_pos();
        let limit = probe.limit_nibbles();
        let mut i: u32 = 0;
        while i < count
            invariant
                old(rdr).wf(),
                *rdr == *old(rdr),
                r0 == old(rdr).rest(),
                p0 == old(rdr).pos(),
                m >= 0,
                ns0 == r0.skip(m),
                vlu_scan(r0, 0, u32::MAX as nat, Error::MalformedVlu32N) == Ok::<(nat, nat), Error>((count as nat, m as nat)),
                after_count.wf(),
                after_count.same_window(old(rdr)),
                after_count.rest() == ns0,
                start == p0 + m,
                limit == old(rdr).limit(),
                probe.wf(),
                probe.same_window(old(rdr)),
                start <= probe.pos() <= limit,
                probe.rest() == ns0.skip(probe.pos() - start),
                i <= count,
                forall|t: nat|
                    #[trigger] des_run::<'i, T>(probe.rest(), (count - i) as nat, t) ==> des_run::<'i, T>(
                        ns0,
                        count as nat,
                        (probe.pos() - start + t) as nat,
                    ),
                des_run_fails::<'i, T>(probe.rest(), (count - i) as nat) ==> des_run_fails::<'i, T>(ns0, count as nat),
            decreases count - i,
        {
            let ghost before = probe;
            let ghost rest_b = probe.rest();
            match T::des_vlu4(&mut probe) {
                Ok(v) => {
                    let ghost n = (probe.pos() - before.pos()) as nat;
                    if probe.nibbles_pos() > limit {
                        proof {
                            assert(rest_b.len() == limit - before.pos());
                            assert(n > rest_b.len());
                            assert(T::des_ok(rest_b, v, n));
                            assert(des_run_fails::<'i, T>(rest_b, (count - i) as nat));
                        }
                        return Err(Error::OutOfBounds);
                    }
                    proof {
                        assert(probe.rest() =~= rest_b.skip(n as int));
                        assert(probe.rest() =~= ns0.skip(probe.pos() - start));
                        assert forall|t: nat|
                            #[trigger] des_run::<'i, T>(probe.rest(), (count - i - 1) as nat, t) implies des_run::<'i, T>(
                            ns0,
                            count as nat,
                            (probe.pos() - start + t) as nat,
                        ) by {
                            assert(T::des_ok(rest_b, v, n));
                            assert(des_run::<'i, T>(rest_b, (count - i) as nat, n + t));
                            assert(before.pos() - start + (n + t) == probe.pos() - start + t);
                        }
                        if des_run_fails::<'i, T>(probe.rest(), (count - i - 1) as nat) {
                            assert(T::des_ok(rest_b, v, n));
                            assert(des_run_fails::<'i, T>(rest_b, (count - i) as nat));
                        }
                    }
                },
                Err(e) => {
                    proof {
                        assert(des_run_fails::<'i, T>(rest_b, (count - i) as nat));
                    }
                    return Err(e);
                },
            }
            i = i + 1;
        }
        proof {
            assert(des_run::<'i, T>(probe.rest(), (count - i) as nat, 0));
            assert(des_run::<'i, T>(ns0, count as nat, (probe.pos() - start) as nat));
        }
        *rdr = probe;
        Ok(Vlu4Vec { rdr: after_count, len: count, _phantom: PhantomData })
    }
}

} // verus!
