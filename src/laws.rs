//! Properties that relate several operations of the codec.
use vstd::prelude::*;
use crate::bits::{bit_at, write_bits, zeros, lemma_write_bits};
use crate::buf_writer::{lemma_pad_bits, BufWriter, finished_tail, pad_bits, rev_tail, tail_len, lemma_rev_tail_len};
use crate::error::Error;
use crate::nibble::{u32_nibbles, all_nibbles, nibbles_of, write_nibbles, lemma_read_back, lemma_write_nibbles};
use crate::nibble_buf::{NibbleBuf, NibbleBufMut};
use crate::serdes::{size_allows, DeserializeVlu4, SerDesSize, SerializeVlu4, Vlu4Codec};
use crate::vec::{count_len, count_nibbles};
use crate::vlu::{lemma_vlu_decode_padded, vlu_len, vlu_nibbles, vlu_nibbles_rev, vlu_scan, lemma_vlu_decode_encode, lemma_vlu_enc_rev, lemma_vlu_enc_shape};

verus! {

/// What a back-to-front reader of `Vlu16N`s makes of `count` values at the
/// start of `ns` (the nibbles in the order it reads them): the values and
/// the number of nibbles they take.
pub open spec fn vlu16_run(ns: Seq<u8>, count: nat) -> Option<(Seq<u16>, nat)>
    decreases count,
{
    if count == 0 {
        Some((seq![], 0))
    } else {
        match vlu_scan(ns, 0, u16::MAX as nat, Error::MalformedVlu16N) {
            Ok((v, m)) => match vlu16_run(ns.skip(m as int), (count - 1) as nat) {
                Some((vs, t)) => Some((seq![v as u16] + vs, m + t)),
                None => None,
            },
            Err(_) => None,
        }
    }
}

/// The forward encodings of `vals`, one after the other.
pub open spec fn forward_run(vals: Seq<u16>) -> Seq<u8>
    decreases vals.len(),
{
    if vals.len() == 0 {
        seq![]
    } else {
        forward_run(vals.drop_last()) + vlu_nibbles(vals.last() as nat)
    }
}

/// Round trip: where a writer wrote the encoding of `v` and a reader over
/// the same bytes starts where the encoding starts, reading gives `v` back
/// and takes exactly the nibbles that were written.
pub proof fn law_round_trip<'i, 'o, T: Vlu4Codec<'i>>(
    v: T,
    before: NibbleBufMut<'o>,
    after: NibbleBufMut<'o>,
    rd: NibbleBuf<'i>,
)
    requires
        before.wf(),
        after.wrote(&before, v.ser_nibbles()),
        all_nibbles(v.ser_nibbles()),
        rd.wf(),
        rd.bytes() == after.bytes(),
        rd.pos() == before.pos(),
        rd.limit() >= after.pos(),
    ensures
        !T::des_err(rd.rest()),
        forall|w: T, n: nat| #[trigger] T::des_ok(rd.rest(), w, n) ==> w == v && n == v.ser_nibbles().len(),
{
    let ns = v.ser_nibbles();
    before.lemma_bounds();
    after.lemma_bounds();
    lemma_read_back(before.bytes(), before.pos(), ns);
    let rest = rd.rest();
    let tail = rest.skip(ns.len() as int);
    assert(rest =~= ns + tail);
    T::lemma_decode_encode(v, tail);
}

/// Round trip of a `u32`: where a writer wrote `v` big-endian and a reader
/// over the same bytes starts where it was written, `get_u32_be` gives `v`
/// back, taking eight nibbles.
pub proof fn law_u32_round_trip<'i, 'o>(v: u32, before: NibbleBufMut<'o>, after: NibbleBufMut<'o>, rd: NibbleBuf<'i>)
    requires
        before.wf(),
        after.wrote(&before, u32_nibbles(v)),
        rd.wf(),
        rd.bytes() == after.bytes(),
        rd.pos() == before.pos(),
        rd.limit() >= after.pos(),
    ensures
        rd.left() >= 8,
        forall|w: u32| u32_nibbles(w) == rd.rest().take(8) ==> w == v,
{
    assert(all_nibbles(u32_nibbles(v)));
    law_round_trip::<u32>(v, before, after, rd);
    assert forall|w: u32| u32_nibbles(w) == rd.rest().take(8) implies w == v by {
        assert(<u32 as DeserializeVlu4>::des_ok(rd.rest(), w, 8));
    }
}

/// Round trip of a `Vlu32N`, at any position and alignment: where a writer
/// wrote `v` as a minimal `Vlu32N` and a reader over the same bytes starts
/// where it was written, `get_vlu32n` gives `v` back and takes exactly the
/// nibbles written.
pub proof fn law_vlu32n_round_trip<'i, 'o>(v: u32, before: NibbleBufMut<'o>, after: NibbleBufMut<'o>, rd: NibbleBuf<'i>)
    requires
        before.wf(),
        after.wrote(&before, vlu_nibbles(v as nat)),
        rd.wf(),
        rd.bytes() == after.bytes(),
        rd.pos() == before.pos(),
        rd.limit() >= after.pos(),
    ensures
        vlu_scan(rd.rest(), 0, u32::MAX as nat, Error::MalformedVlu32N) == Ok::<(nat, nat), Error>(
            (v as nat, vlu_len(v as nat)),
        ),
        after.pos() - before.pos() == vlu_len(v as nat),
{
    let ns = vlu_nibbles(v as nat);
    lemma_vlu_enc_shape(v as nat, vlu_len(v as nat), false);
    before.lemma_bounds();
    after.lemma_bounds();
    lemma_read_back(before.bytes(), before.pos(), ns);
    let rest = rd.rest();
    let tail = rest.skip(ns.len() as int);
    assert(rest =~= ns + tail);
    lemma_vlu_decode_encode(v as nat, tail, u32::MAX as nat, Error::MalformedVlu32N);
}

/// A vector's count, written with or without its leading zero group,
/// followed by anything, reads back as the count and takes exactly the
/// nibbles written for it.
pub proof fn law_vector_count_reads(count: nat, reserved: int, tail: Seq<u8>)
    requires
        count <= u32::MAX,
    ensures
        vlu_scan(count_nibbles(count, reserved) + tail, 0, u32::MAX as nat, Error::MalformedVlu32N) == Ok::<
            (nat, nat),
            Error,
        >((count, count_len(count, reserved))),
{
    lemma_vlu_decode_padded(count, count_len(count, reserved), tail, u32::MAX as nat, Error::MalformedVlu32N);
}

/// Round trip of a sub-buffer: the encoding of the nibbles left in `v`,
/// followed by anything, reads back as a reader over the same nibbles and
/// takes exactly the encoding's nibbles.
pub proof fn law_sub_buffer_round_trip<'i>(v: NibbleBuf<'i>, tail: Seq<u8>)
    requires
        v.wf(),
        v.left() <= u32::MAX,
    ensures
        !<NibbleBuf<'i> as DeserializeVlu4<'i>>::des_err(v.ser_nibbles() + tail),
        forall|w: NibbleBuf<'i>, n: nat|
            #[trigger] <NibbleBuf<'i> as DeserializeVlu4<'i>>::des_ok(v.ser_nibbles() + tail, w, n) ==> w.rest()
                == v.rest() && n == v.ser_nibbles().len(),
{
    let len = v.left() as nat;
    let ns = v.ser_nibbles() + tail;
    lemma_vlu_enc_shape(len, vlu_len(len), false);
    lemma_vlu_decode_encode(len, v.rest() + tail, u32::MAX as nat, Error::MalformedVlu32N);
    assert(ns =~= vlu_nibbles(len) + (v.rest() + tail));
    let k = vlu_len(len);
    assert(ns.subrange(k as int, (k + len) as int) =~= v.rest());
}

/// Cursor conservation: a successful write moves the writer on by exactly
/// the number of nibbles of what it wrote.
pub proof fn law_cursor_conservation<'o, T: SerializeVlu4>(v: T, before: NibbleBufMut<'o>, after: NibbleBufMut<'o>)
    requires
        after.wrote(&before, v.ser_nibbles()),
    ensures
        after.pos() - before.pos() == v.ser_nibbles().len(),
{
}

/// Sized estimates are honest: where the estimate of `v` is `Sized(n)`, a
/// successful write of `v` moves the writer on by exactly `n` nibbles.
pub proof fn law_sized_estimate<'o, T: SerializeVlu4>(
    v: T,
    estimate: SerDesSize,
    before: NibbleBufMut<'o>,
    after: NibbleBufMut<'o>,
)
    requires
        size_allows(estimate, v.ser_nibbles().len()),
        after.wrote(&before, v.ser_nibbles()),
    ensures
        estimate matches SerDesSize::Sized(n) ==> after.pos() - before.pos() == n,
{
}

/// Alignment zeroing: the bits that an alignment to `m` bits skips read as
/// zero afterwards.
pub proof fn law_alignment_zeroing(s: Seq<u8>, pos: int, m: int)
    requires
        m == 4 || m == 8,
        0 <= pos,
        pos + pad_bits(pos, m) <= 8 * s.len(),
    ensures
        forall|b: int|
            pos <= b < pos + pad_bits(pos, m) ==> !#[trigger] bit_at(
                write_bits(s, pos, zeros(pad_bits(pos, m) as nat)),
                b,
            ),
{
    assert forall|b: int| pos <= b < pos + pad_bits(pos, m) implies !#[trigger] bit_at(
        write_bits(s, pos, zeros(pad_bits(pos, m) as nat)),
        b,
    ) by {
        lemma_write_bits(s, pos, zeros(pad_bits(pos, m) as nat), b);
    }
}

proof fn lemma_forward_run_front(vals: Seq<u16>)
    requires
        vals.len() > 0,
    ensures
        forward_run(vals) == vlu_nibbles(vals[0] as nat) + forward_run(vals.drop_first()),
    decreases vals.len(),
{
    if vals.len() == 1 {
        assert(vals.drop_last() =~= Seq::<u16>::empty());
        assert(vals.drop_first() =~= Seq::<u16>::empty());
        assert(forward_run(vals) =~= vlu_nibbles(vals[0] as nat) + forward_run(vals.drop_first()));
    } else {
        lemma_forward_run_front(vals.drop_last());
        assert(vals.drop_last().drop_first() =~= vals.drop_first().drop_last());
        assert(vals.drop_first().last() == vals.last());
        assert(forward_run(vals) =~= vlu_nibbles(vals[0] as nat) + forward_run(vals.drop_first()));
    }
}

proof fn lemma_forward_run_reads(vals: Seq<u16>, tail: Seq<u8>)
    ensures
        vlu16_run(forward_run(vals) + tail, vals.len()) == Some((vals, forward_run(vals).len())),
    decreases vals.len(),
{
    if vals.len() > 0 {
        lemma_forward_run_front(vals);
        let v = vals[0] as nat;
        let rest = forward_run(vals.drop_first()) + tail;
        lemma_vlu_decode_encode(v, rest, u16::MAX as nat, Error::MalformedVlu16N);
        lemma_vlu_enc_shape(v, vlu_len(v), false);
        assert(forward_run(vals) + tail =~= vlu_nibbles(v) + rest);
        assert((vlu_nibbles(v) + rest).skip(vlu_len(v) as int) =~= rest);
        lemma_forward_run_reads(vals.drop_first(), tail);
        assert(seq![vals[0]] + vals.drop_first() =~= vals);
    }
}

proof fn lemma_rev_tail_reversed(vals: Seq<u16>)
    ensures
        rev_tail(vals).reverse() == forward_run(vals),
    decreases vals.len(),
{
    if vals.len() > 0 {
        let v = vals.last() as nat;
        lemma_vlu_enc_rev(v, vlu_len(v), false);
        lemma_rev_tail_reversed(vals.drop_last());
        assert((vlu_nibbles_rev(v) + rev_tail(vals.drop_last())).reverse() =~= rev_tail(vals.drop_last()).reverse()
            + vlu_nibbles_rev(v).reverse());
        assert(vlu_nibbles_rev(v).reverse() =~= vlu_nibbles(v).reverse().reverse());
    }
}

/// Reverse-tail preservation: the compacted tail that `BufWriter::finish`
/// writes for the values `vals`, read back to front as `Vlu16N`s, gives
/// the values in the order they were stored.
pub proof fn law_reverse_tail(vals: Seq<u16>)
    ensures
        vlu16_run(rev_tail(vals).reverse(), vals.len()) == Some((vals, tail_len(vals))),
{
    lemma_rev_tail_reversed(vals);
    lemma_rev_tail_len(vals);
    lemma_forward_run_reads(vals, seq![]);
    assert(forward_run(vals) + seq![] =~= forward_run(vals));
}

proof fn lemma_rev_tail_nibbles(vals: Seq<u16>)
    ensures
        all_nibbles(rev_tail(vals)),
    decreases vals.len(),
{
    if vals.len() > 0 {
        let v = vals.last() as nat;
        lemma_vlu_enc_rev(v, vlu_len(v), false);
        lemma_vlu_enc_shape(v, vlu_len(v), false);
        lemma_rev_tail_nibbles(vals.drop_last());
        let a = vlu_nibbles_rev(v);
        let b = rev_tail(vals.drop_last());
        assert forall|i: int| 0 <= i < (a + b).len() implies #[trigger] (a + b)[i] < 16 by {
            if i < a.len() {
                assert(a[i] == vlu_nibbles(v)[vlu_len(v) - 1 - i]);
            }
        }
    }
}

/// Reverse-tail preservation on what `BufWriter::finish` returns: where
/// `out` is the used prefix that `finish` gives for the stored values
/// `vals` (its forward data ending at nibble `np` of the zero-padded buffer
/// `zeroed`), the last nibbles of `out`, read back to front as `Vlu16N`s,
/// give the values in the order they were stored, and `out` ends on a byte
/// boundary right after them.
pub proof fn law_finished_tail(zeroed: Seq<u8>, np: int, vals: Seq<u16>, out: Seq<u8>)
    requires
        0 <= np,
        np + finished_tail(vals, np).len() <= 2 * zeroed.len(),
        out == write_nibbles(zeroed, np, finished_tail(vals, np)).take((np + finished_tail(vals, np).len()) / 2),
    ensures
        2 * out.len() == np + finished_tail(vals, np).len(),
        vlu16_run(
            nibbles_of(out, 2 * out.len() - tail_len(vals), tail_len(vals) as int).reverse(),
            vals.len(),
        ) == Some((vals, tail_len(vals))),
{
    let t = finished_tail(vals, np);
    let w = write_nibbles(zeroed, np, t);
    let tl = tail_len(vals) as int;
    lemma_rev_tail_len(vals);
    lemma_rev_tail_nibbles(vals);
    assert(all_nibbles(t));
    if zeroed.len() > 0 {
        lemma_write_nibbles(zeroed, np, t, 0);
    }
    lemma_read_back(zeroed, np, t);
    let e = np + t.len();
    assert(e % 2 == 0);
    let start = e - tl;
    assert(nibbles_of(out, start, tl) =~= rev_tail(vals)) by {
        assert forall|i: int| 0 <= i < tl implies nibbles_of(out, start, tl)[i] == rev_tail(vals)[i] by {
            assert(nibbles_of(w, np, t.len() as int)[start - np + i] == t[start - np + i]);
        }
    }
    law_reverse_tail(vals);
}

/// Reverse-tail preservation on `BufWriter::finish`: where `out` is what
/// `finish` returns for a writer `w` holding stored values, `out` ends on a
/// byte boundary right after the compacted tail, and its last nibbles, read
/// back to front as `Vlu16N`s, give the stored values in the order they
/// were stored.
pub proof fn law_finish_reverse_tail<'o>(w: BufWriter<'o>, out: Seq<u8>)
    requires
        w.wf(),
        w.reversed().len() > 0,
        ({
            let at = w.pos() + pad_bits(w.pos(), 4);
            let np = at / 4;
            let t = finished_tail(w.reversed(), np);
            let zeroed = write_bits(w.bytes(), w.pos(), zeros(pad_bits(w.pos(), 4) as nat));
            np + t.len() <= 2 * w.limit() && out == write_nibbles(zeroed, np, t).take((np + t.len()) / 2)
        }),
    ensures
        2 * out.len() == (w.pos() + pad_bits(w.pos(), 4)) / 4 + finished_tail(
            w.reversed(),
            (w.pos() + pad_bits(w.pos(), 4)) / 4,
        ).len(),
        vlu16_run(
            nibbles_of(out, 2 * out.len() - tail_len(w.reversed()), tail_len(w.reversed()) as int).reverse(),
            w.reversed().len(),
        ) == Some((w.reversed(), tail_len(w.reversed()))),
{
    w.lemma_bounds();
    lemma_pad_bits(w.pos(), 4, 0);
    let pad = pad_bits(w.pos(), 4);
    let np = (w.pos() + pad) / 4;
    let zeroed = write_bits(w.bytes(), w.pos(), zeros(pad as nat));
    let t = finished_tail(w.reversed(), np);
    assert(w.pos() + pad <= 8 * w.bytes().len());
    if w.bytes().len() > 0 {
        lemma_write_bits(w.bytes(), w.pos(), zeros(pad as nat), 0);
    }
    law_finished_tail(zeroed, np, w.reversed(), out);
}

} // verus!
