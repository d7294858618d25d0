//! The mathematical model of a byte buffer seen as a stream of nibbles.
use vstd::prelude::*;

verus! {

/// The nibble at position `p`: the high half of byte `p / 2` for even `p`,
/// the low half for odd `p`.
pub open spec fn nibble_at(s: Seq<u8>, p: int) -> u8 {
    if p % 2 == 0 {
        s[p / 2] / 16
    } else {
        s[p / 2] % 16
    }
}

/// `s` with the nibble at position `p` replaced by the low four bits of `v`.
pub open spec fn with_nibble(s: Seq<u8>, p: int, v: u8) -> Seq<u8> {
    let b = s[p / 2];
    s.update(
        p / 2,
        if p % 2 == 0 {
            ((b % 16) + (v % 16) * 16) as u8
        } else {
            ((b / 16) * 16 + v % 16) as u8
        },
    )
}

/// `s` with the nibbles `ns` written one after another from position `p`.
pub open spec fn write_nibbles(s: Seq<u8>, p: int, ns: Seq<u8>) -> Seq<u8>
    decreases ns.len(),
{
    if ns.len() == 0 {
        s
    } else {
        write_nibbles(with_nibble(s, p, ns[0]), p + 1, ns.drop_first())
    }
}

/// The `n` nibbles of `s` from position `p` on.
pub open spec fn nibbles_of(s: Seq<u8>, p: int, n: int) -> Seq<u8> {
    Seq::new(n as nat, |i: int| nibble_at(s, p + i))
}

/// The two nibbles of a byte, high half first.
pub open spec fn byte_nibbles(v: u8) -> Seq<u8> {
    seq![v / 16, v % 16]
}

/// The four nibbles of a `u16`, most significant first.
pub open spec fn u16_nibbles(v: u16) -> Seq<u8> {
    byte_nibbles((v / 256) as u8) + byte_nibbles((v % 256) as u8)
}

/// The eight nibbles of a `u32`, most significant first.
pub open spec fn u32_nibbles(v: u32) -> Seq<u8> {
    u16_nibbles((v / 65536) as u16) + u16_nibbles((v % 65536) as u16)
}

/// The nibbles of a byte sequence, two per byte, high half first.
pub open spec fn bytes_nibbles(bs: Seq<u8>) -> Seq<u8> {
    Seq::new(2 * bs.len(), |i: int| nibble_at(bs, i))
}

/// Whether every element is a nibble value.
pub open spec fn all_nibbles(ns: Seq<u8>) -> bool {
    forall|i: int| 0 <= i < ns.len() ==> #[trigger] ns[i] < 16
}

pub proof fn lemma_with_nibble(s: Seq<u8>, p: int, v: u8, q: int)
    requires
        0 <= p < 2 * s.len(),
        0 <= q < 2 * s.len(),
    ensures
        with_nibble(s, p, v).len() == s.len(),
        nibble_at(with_nibble(s, p, v), q) == if q == p {
            v % 16
        } else {
            nibble_at(s, q)
        },
{
    let b = s[p / 2];
    if q / 2 == p / 2 {
        let hi = ((b % 16) + (v % 16) * 16) as u8;
        let lo = ((b / 16) * 16 + v % 16) as u8;
        assert(hi / 16 == v % 16 && hi % 16 == b % 16);
        assert(lo / 16 == b / 16 && lo % 16 == v % 16);
    }
}

/// Writing nibbles changes exactly the positions written, each to the value
/// written (low four bits).
pub proof fn lemma_write_nibbles(s: Seq<u8>, p: int, ns: Seq<u8>, q: int)
    requires
        0 <= p,
        p + ns.len() <= 2 * s.len(),
        0 <= q < 2 * s.len(),
    ensures
        write_nibbles(s, p, ns).len() == s.len(),
        nibble_at(write_nibbles(s, p, ns), q) == if p <= q < p + ns.len() {
            ns[q - p] % 16
        } else {
            nibble_at(s, q)
        },
    decreases ns.len(),
{
    if ns.len() > 0 {
        let s1 = with_nibble(s, p, ns[0]);
        lemma_with_nibble(s, p, ns[0], q);
        lemma_write_nibbles(s1, p + 1, ns.drop_first(), q);
    }
}

/// Writing two nibble sequences one after the other is writing their
/// concatenation.
pub proof fn lemma_write_nibbles_concat(s: Seq<u8>, p: int, a: Seq<u8>, b: Seq<u8>)
    ensures
        write_nibbles(write_nibbles(s, p, a), p + a.len(), b) == write_nibbles(s, p, a + b),
    decreases a.len(),
{
    if a.len() > 0 {
        assert((a + b).drop_first() =~= a.drop_first() + b);
        lemma_write_nibbles_concat(with_nibble(s, p, a[0]), p + 1, a.drop_first(), b);
    } else {
        assert(a + b =~= b);
    }
}

/// Whatever was written can be read back at the same positions.
pub proof fn lemma_read_back(s: Seq<u8>, p: int, ns: Seq<u8>)
    requires
        0 <= p,
        p + ns.len() <= 2 * s.len(),
        all_nibbles(ns),
    ensures
        nibbles_of(write_nibbles(s, p, ns), p, ns.len() as int) == ns,
{
    let w = write_nibbles(s, p, ns);
    assert forall|i: int| 0 <= i < ns.len() implies nibbles_of(w, p, ns.len() as int)[i] == ns[i] by {
        lemma_write_nibbles(s, p, ns, p + i);
    }
    assert(nibbles_of(w, p, ns.len() as int) =~= ns);
}

/// Two buffers of one length that agree on every nibble are equal.
pub proof fn lemma_nibbles_ext(a: Seq<u8>, b: Seq<u8>)
    requires
        a.len() == b.len(),
        forall|q: int| 0 <= q < 2 * a.len() ==> #[trigger] nibble_at(a, q) == nibble_at(b, q),
    ensures
        a == b,
{
    assert forall|i: int| 0 <= i < a.len() implies a[i] == b[i] by {
        assert(nibble_at(a, 2 * i) == nibble_at(b, 2 * i));
        assert(nibble_at(a, 2 * i + 1) == nibble_at(b, 2 * i + 1));
        assert(a[i] == (a[i] / 16) * 16 + a[i] % 16);
        assert(b[i] == (b[i] / 16) * 16 + b[i] % 16);
    }
    assert(a =~= b);
}

/// Writes to two disjoint stretches of nibbles can be made in either order.
pub proof fn lemma_write_nibbles_commute(s: Seq<u8>, p: int, x: Seq<u8>, q: int, y: Seq<u8>)
    requires
        0 <= p,
        p + x.len() <= q,
        q + y.len() <= 2 * s.len(),
    ensures
        write_nibbles(write_nibbles(s, p, x), q, y) == write_nibbles(write_nibbles(s, q, y), p, x),
{
    let a = write_nibbles(write_nibbles(s, p, x), q, y);
    let b = write_nibbles(write_nibbles(s, q, y), p, x);
    if s.len() > 0 {
        lemma_write_nibbles(s, p, x, 0);
        lemma_write_nibbles(s, q, y, 0);
        lemma_write_nibbles(write_nibbles(s, p, x), q, y, 0);
        lemma_write_nibbles(write_nibbles(s, q, y), p, x, 0);
    }
    assert forall|r: int| 0 <= r < 2 * a.len() implies #[trigger] nibble_at(a, r) == nibble_at(b, r) by {
        lemma_write_nibbles(s, p, x, r);
        lemma_write_nibbles(s, q, y, r);
        lemma_write_nibbles(write_nibbles(s, p, x), q, y, r);
        lemma_write_nibbles(write_nibbles(s, q, y), p, x, r);
    }
    if s.len() == 0 {
        assert(x.len() == 0 && y.len() == 0);
        assert(a == s && b == s);
    }
    lemma_nibbles_ext(a, b);
}

} // verus!
