//! Variable-length unsigned integers over nibbles (`Vlu16N`, `Vlu32N`).
//!
//! Each nibble carries three payload bits and, in its high bit, a
//! continuation flag. Payload groups come most significant first.
use vstd::prelude::*;
use crate::error::Error;

verus! {

/// The value of a nibble string read as base-8 digits, first nibble most
/// significant; continuation bits are ignored.
pub open spec fn vlu_value(ns: Seq<u8>) -> nat
    decreases ns.len(),
{
    if ns.len() == 0 {
        0
    } else {
        vlu_value(ns.drop_last()) * 8 + (ns.last() % 8) as nat
    }
}

/// The smallest number of three-bit groups that covers `v` (at least one).
pub open spec fn vlu_len(v: nat) -> nat
    decreases v,
{
    if v < 8 {
        1
    } else {
        1 + vlu_len(v / 8)
    }
}

/// The low `k` three-bit groups of `v`, most significant first, as nibbles;
/// all but the last carry the continuation bit, the last one carries it
/// where `cont` says so.
pub open spec fn vlu_enc(v: nat, k: nat, cont: bool) -> Seq<u8>
    decreases k,
{
    if k == 0 {
        seq![]
    } else {
        vlu_enc(v / 8, (k - 1) as nat, true).push((v % 8 + if cont { 8nat } else { 0nat }) as u8)
    }
}

/// The low `k` three-bit groups of `v`, least significant first, as nibbles;
/// all but the first carry the continuation bit, the first one carries it
/// unless `first` says so.
pub open spec fn vlu_enc_rev(v: nat, k: nat, first: bool) -> Seq<u8>
    decreases k,
{
    if k == 0 {
        seq![]
    } else {
        seq![(v % 8 + if first { 0nat } else { 8nat }) as u8] + vlu_enc_rev(v / 8, (k - 1) as nat, false)
    }
}

/// The forward encoding of `v`, as short as it can be.
pub open spec fn vlu_nibbles(v: nat) -> Seq<u8> {
    vlu_enc(v, vlu_len(v), false)
}

/// The reversed encoding of `v`: its forward encoding back to front.
pub open spec fn vlu_nibbles_rev(v: nat) -> Seq<u8> {
    vlu_enc_rev(v, vlu_len(v), true)
}

/// What a forward decoder makes of the nibbles `r` once it has checked
/// `r[0..i]`: the value and the number of nibbles it took, or why it stopped.
/// A decoder stops with `err` as soon as the value read so far exceeds `max`.
pub open spec fn vlu_scan(r: Seq<u8>, i: nat, max: nat, err: Error) -> Result<(nat, nat), Error>
    decreases r.len() - i,
{
    if i >= r.len() {
        Err(Error::OutOfBounds)
    } else if vlu_value(r.take(i + 1 as int)) > max {
        Err(err)
    } else if r[i as int] >= 8 {
        vlu_scan(r, i + 1, max, err)
    } else {
        Ok((vlu_value(r.take(i + 1 as int)), i + 1))
    }
}

/// The number of nibbles up to and including the first one without the
/// continuation bit, if there is one.
pub open spec fn vlu_extent(r: Seq<u8>, i: nat) -> Option<nat>
    decreases r.len() - i,
{
    if i >= r.len() {
        None
    } else if r[i as int] >= 8 {
        vlu_extent(r, i + 1)
    } else {
        Some(i + 1)
    }
}

pub proof fn lemma_vlu_value_take_step(r: Seq<u8>, i: int)
    requires
        0 <= i < r.len(),
    ensures
        vlu_value(r.take(i + 1 as int)) == vlu_value(r.take(i)) * 8 + (r[i] % 8) as nat,
{
    assert(r.take(i + 1 as int).drop_last() =~= r.take(i));
}

/// A successful decode takes at least one more nibble and yields at most `max`.
pub proof fn lemma_vlu_scan_ok(r: Seq<u8>, i: nat, max: nat, err: Error)
    ensures
        vlu_scan(r, i, max, err) matches Ok((v, n)) ==> v <= max && i < n <= r.len(),
    decreases r.len() - i,
{
    if i < r.len() && vlu_value(r.take(i + 1 as int)) <= max && r[i as int] >= 8 {
        lemma_vlu_scan_ok(r, i + 1, max, err);
    }
}

pub proof fn lemma_vlu_enc_shape(v: nat, k: nat, cont: bool)
    ensures
        vlu_enc(v, k, cont).len() == k,
        forall|i: int|
            0 <= i < k ==> #[trigger] vlu_enc(v, k, cont)[i] < 16 && (vlu_enc(v, k, cont)[i] >= 8 <==> (
            i + 1 < k || cont)),
    decreases k,
{
    if k > 0 {
        lemma_vlu_enc_shape(v / 8, (k - 1) as nat, true);
    }
}

pub proof fn lemma_vlu_enc_value(v: nat, k: nat, cont: bool)
    requires
        v == 0 || k >= vlu_len(v),
    ensures
        vlu_value(vlu_enc(v, k, cont)) == v,
    decreases k,
{
    if k > 0 {
        let e = vlu_enc(v, k, cont);
        assert(e.drop_last() == vlu_enc(v / 8, (k - 1) as nat, true));
        lemma_vlu_enc_value(v / 8, (k - 1) as nat, true);
    }
}

pub proof fn lemma_vlu_enc_rev(v: nat, k: nat, cont: bool)
    ensures
        vlu_enc_rev(v, k, !cont) == vlu_enc(v, k, cont).reverse(),
    decreases k,
{
    if k > 0 {
        lemma_vlu_enc_rev(v / 8, (k - 1) as nat, true);
        let e = vlu_enc(v, k, cont);
        assert(vlu_enc_rev(v, k, !cont) =~= e.reverse());
    }
}

/// A prefix never reads as more than the whole.
pub proof fn lemma_vlu_value_prefix(s: Seq<u8>, j: int)
    requires
        0 <= j <= s.len(),
    ensures
        vlu_value(s.take(j)) <= vlu_value(s),
    decreases s.len() - j,
{
    if j < s.len() {
        lemma_vlu_value_take_step(s, j);
        lemma_vlu_value_prefix(s, j + 1);
    } else {
        assert(s.take(j) =~= s);
    }
}

proof fn lemma_vlu_scan_encoding(e: Seq<u8>, tail: Seq<u8>, i: int, max: nat, err: Error)
    requires
        0 <= i < e.len(),
        vlu_value(e) <= max,
        forall|j: int| 0 <= j < e.len() ==> #[trigger] e[j] < 16 && (e[j] >= 8 <==> j + 1 < e.len()),
    ensures
        vlu_scan(e + tail, i as nat, max, err) == Ok::<(nat, nat), Error>((vlu_value(e), e.len())),
    decreases e.len() - i,
{
    let r = e + tail;
    assert(r.take(i + 1) =~= e.take(i + 1));
    assert(r[i] == e[i]);
    lemma_vlu_value_prefix(e, i + 1);
    if i + 1 < e.len() {
        lemma_vlu_scan_encoding(e, tail, i + 1, max, err);
    } else {
        assert(e.take(i + 1) =~= e);
    }
}

/// The forward encoding of `v <= max` in `k` nibbles, leading zero groups
/// included, followed by anything, decodes to `v` and takes the `k`
/// nibbles.
pub proof fn lemma_vlu_decode_padded(v: nat, k: nat, tail: Seq<u8>, max: nat, err: Error)
    requires
        v <= max,
        k >= vlu_len(v),
    ensures
        vlu_scan(vlu_enc(v, k, false) + tail, 0, max, err) == Ok::<(nat, nat), Error>((v, k)),
{
    lemma_vlu_enc_shape(v, k, false);
    lemma_vlu_enc_value(v, k, false);
    lemma_vlu_scan_encoding(vlu_enc(v, k, false), tail, 0, max, err);
}

/// The forward encoding of `v <= max`, followed by anything, decodes to `v`
/// and takes exactly the encoding's nibbles.
pub proof fn lemma_vlu_decode_encode(v: nat, tail: Seq<u8>, max: nat, err: Error)
    requires
        v <= max,
    ensures
        vlu_scan(vlu_nibbles(v) + tail, 0, max, err) == Ok::<(nat, nat), Error>((v, vlu_len(v))),
{
    let k = vlu_len(v);
    lemma_vlu_enc_shape(v, k, false);
    lemma_vlu_enc_value(v, k, false);
    lemma_vlu_scan_encoding(vlu_nibbles(v), tail, 0, max, err);
}

/// A larger value never has a shorter minimal encoding.
pub proof fn lemma_vlu_len_monotonic(a: nat, b: nat)
    requires
        a <= b,
    ensures
        vlu_len(a) <= vlu_len(b),
    decreases b,
{
    if a >= 8 {
        lemma_vlu_len_monotonic(a / 8, b / 8);
    }
}

proof fn lemma_vlu_len_u32(v: nat)
    requires
        v <= u32::MAX,
    ensures
        1 <= vlu_len(v) <= 11,
{
    lemma_vlu_len_monotonic(v, u32::MAX as nat);
    reveal_with_fuel(vlu_len, 12);
}

/// A `u32` in the variable-length nibble encoding.
#[derive(Clone, Copy, Debug, PartialEq, Eq, Structural)]
pub struct Vlu32N(pub u32);

/// A `u16` in the variable-length nibble encoding.
#[derive(Clone, Copy, Debug, PartialEq, Eq, Structural)]
pub struct Vlu16N(pub u16);

/// The number of nibbles in the minimal encoding of `v`.
pub fn vlu_len_nibbles(v: u32) -> (r: usize)
    ensures
        r == vlu_len(v as nat),
        1 <= r <= 11,
{
    proof {
        lemma_vlu_len_u32(v as nat);
    }
    let mut w: u32 = v;
    let mut n: usize = 1;
    while w >= 8
        invariant
            n + vlu_len(w as nat) == vlu_len(v as nat) + 1,
            vlu_len(v as nat) <= 11,
            1 <= n,
        decreases w,
    {
        w = w / 8;
        n = n + 1;
    }
    n
}

impl Vlu32N {
    /// The number of nibbles in the value's minimal encoding.
    pub fn len_nibbles(&self) -> (r: usize)
        ensures
            r == vlu_len(self.0 as nat),
            1 <= r <= 11,
    {
        vlu_len_nibbles(self.0)
    }
}

impl Vlu16N {
    /// The number of nibbles in the value's minimal encoding.
    pub fn len_nibbles(&self) -> (r: usize)
        ensures
            r == vlu_len(self.0 as nat),
            1 <= r <= 6,
    {
        proof {
            lemma_vlu_len_monotonic(self.0 as nat, u16::MAX as nat);
            reveal_with_fuel(vlu_len, 7);
        }
        vlu_len_nibbles(self.0 as u32)
    }
}

} // verus!
