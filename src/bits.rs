//! The mathematical model of a byte buffer seen as a stream of bits, most
//! significant bit of each byte first.
use vstd::prelude::*;

verus! {

/// The bit at position `b`.
pub open spec fn bit_at(s: Seq<u8>, b: int) -> bool {
    (s[b / 8] >> (7 - b % 8) as u8) & 1u8 == 1u8
}

/// `s` with the bit at position `b` set to `v`.
pub open spec fn with_bit(s: Seq<u8>, b: int, v: bool) -> Seq<u8> {
    let m = 1u8 << (7 - b % 8) as u8;
    s.update(b / 8, if v { s[b / 8] | m } else { s[b / 8] & !m })
}

/// `s` with the bits `bits` written one after another from position `b`.
pub open spec fn write_bits(s: Seq<u8>, b: int, bits: Seq<bool>) -> Seq<u8>
    decreases bits.len(),
{
    if bits.len() == 0 {
        s
    } else {
        write_bits(with_bit(s, b, bits[0]), b + 1, bits.drop_first())
    }
}

/// The low `n` bits of `v`, most significant first.
pub open spec fn bits_of(v: u16, n: nat) -> Seq<bool> {
    Seq::new(n, |i: int| (v >> (n - 1 - i) as u16) & 1u16 == 1u16)
}

/// `n` zero bits.
pub open spec fn zeros(n: nat) -> Seq<bool> {
    Seq::new(n, |i: int| false)
}

/// The `n` bits of `s` from position `b` on.
pub open spec fn bits_from(s: Seq<u8>, b: int, n: int) -> Seq<bool> {
    Seq::new(n as nat, |i: int| bit_at(s, b + i))
}

proof fn lemma_byte_bit(x: u8, j: u8, k: u8, v: bool)
    requires
        j < 8,
        k < 8,
    ensures
        ((if v { x | (1u8 << j) } else { x & !(1u8 << j) }) >> k) & 1u8 == if j == k {
            if v { 1u8 } else { 0u8 }
        } else {
            (x >> k) & 1u8
        },
{
    if v {
        assert(((x | (1u8 << j)) >> k) & 1u8 == if j == k { 1u8 } else { (x >> k) & 1u8 }) by (bit_vector)
            requires j < 8, k < 8;
    } else {
        assert(((x & !(1u8 << j)) >> k) & 1u8 == if j == k { 0u8 } else { (x >> k) & 1u8 }) by (bit_vector)
            requires j < 8, k < 8;
    }
}

pub proof fn lemma_with_bit(s: Seq<u8>, b: int, v: bool, c: int)
    requires
        0 <= b < 8 * s.len(),
        0 <= c < 8 * s.len(),
    ensures
        with_bit(s, b, v).len() == s.len(),
        bit_at(with_bit(s, b, v), c) == if c == b { v } else { bit_at(s, c) },
{
    if c / 8 == b / 8 {
        lemma_byte_bit(s[b / 8], (7 - b % 8) as u8, (7 - c % 8) as u8, v);
    }
}

/// Writing bits changes exactly the positions written, each to the bit
/// written.
pub proof fn lemma_write_bits(s: Seq<u8>, b: int, bits: Seq<bool>, c: int)
    requires
        0 <= b,
        b + bits.len() <= 8 * s.len(),
        0 <= c < 8 * s.len(),
    ensures
        write_bits(s, b, bits).len() == s.len(),
        bit_at(write_bits(s, b, bits), c) == if b <= c < b + bits.len() {
            bits[c - b]
        } else {
            bit_at(s, c)
        },
    decreases bits.len(),
{
    if bits.len() > 0 {
        lemma_with_bit(s, b, bits[0], c);
        lemma_write_bits(with_bit(s, b, bits[0]), b + 1, bits.drop_first(), c);
    }
}

/// Writing two bit sequences one after the other is writing their
/// concatenation.
pub proof fn lemma_write_bits_concat(s: Seq<u8>, b: int, x: Seq<bool>, y: Seq<bool>)
    ensures
        write_bits(write_bits(s, b, x), b + x.len(), y) == write_bits(s, b, x + y),
    decreases x.len(),
{
    if x.len() > 0 {
        assert((x + y).drop_first() =~= x.drop_first() + y);
        lemma_write_bits_concat(with_bit(s, b, x[0]), b + 1, x.drop_first(), y);
    } else {
        assert(x + y =~= y);
    }
}

/// Appending a bit to a value appends it to the value's bits.
pub proof fn lemma_bits_of_push(a: u16, i: nat, b: bool)
    requires
        i < 16,
        a < 0x8000,
    ensures
        bits_of((a * 2 + if b { 1u16 } else { 0u16 }) as u16, i + 1) == bits_of(a, i).push(b),
{
    let c = (a * 2 + if b { 1u16 } else { 0u16 }) as u16;
    let bb: u16 = if b { 1 } else { 0 };
    assert(c == (a << 1u16) | bb) by (bit_vector)
        requires
            c == (a * 2 + bb) as u16,
            a < 0x8000,
            bb <= 1;
    assert forall|j: int| 0 <= j < i + 1 implies #[trigger] bits_of(c, i + 1)[j] == bits_of(a, i).push(b)[j] by {
        let k = (i - j) as u16;
        if j == i {
            assert(((a << 1u16) | bb) >> 0u16 & 1u16 == bb) by (bit_vector)
                requires bb <= 1;
        } else {
            let k1 = (k - 1) as u16;
            assert((((a << 1u16) | bb) >> (k1 + 1u16)) & 1u16 == (a >> k1) & 1u16) by (bit_vector)
                requires bb <= 1, k1 < 15, a < 0x8000;
        }
    }
    assert(bits_of(c, i + 1) =~= bits_of(a, i).push(b));
}

} // verus!
