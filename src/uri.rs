//! Resource paths as sequences of numbers, the longer ones read from a
//! vector of `Vlu32N`.
use vstd::prelude::*;
use crate::error::Error;
use crate::nibble_buf::NibbleBuf;
use crate::serdes::DeserializeVlu4;
use crate::text::{decimal, decimal_path, push_decimal};
use crate::vlu::{vlu_scan, lemma_vlu_scan_ok};
use vstd::string::StringExecFns;

verus! {

/// The values of `count` consecutive `Vlu32N`s at the start of `ns`, and
/// the number of nibbles they take; `None` where one of them cannot be read.
pub open spec fn vlu_run(ns: Seq<u8>, count: nat) -> Option<(Seq<u32>, nat)>
    decreases count,
{
    if count == 0 {
        Some((seq![], 0))
    } else {
        match vlu_scan(ns, 0, u32::MAX as nat, Error::MalformedVlu32N) {
            Ok((v, m)) => match vlu_run(ns.skip(m as int), (count - 1) as nat) {
                Some((vs, t)) => Some((seq![v as u32] + vs, m + t)),
                None => None,
            },
            Err(_) => None,
        }
    }
}

/// A vector of `Vlu32N` values, read in place.
#[derive(Clone, Copy)]
pub struct Vlu4U32Array<'i> {
    // Reader over exactly the elements.
    rdr: NibbleBuf<'i>,
    len: u32,
}

impl<'i> Vlu4U32Array<'i> {
    /// The values, in order.
    pub closed spec fn values(&self) -> Seq<u32> {
        match vlu_run(self.rdr.rest(), self.len as nat) {
            Some((vs, _)) => vs,
            None => seq![],
        }
    }

    pub closed spec fn wf(&self) -> bool {
        &&& self.rdr.wf()
        &&& vlu_run(self.rdr.rest(), self.len as nat) is Some
    }

    /// The number of values.
    pub fn len(&self) -> (r: usize)
        requires
            self.wf(),
        ensures
            r == self.values().len(),
    {
        proof {
            lemma_vlu_run_len(self.rdr.rest(), self.len as nat);
        }
        self.len as usize
    }

    /// An iterator over the values.
    pub fn iter(&self) -> (r: Vlu4U32ArrayIter<'i>)
        requires
            self.wf(),
        ensures
            r.wf(),
            r.remaining() == self.values(),
    {
        Vlu4U32ArrayIter { rdr: self.rdr, left: self.len }
    }
}

pub proof fn lemma_vlu_run_len(ns: Seq<u8>, count: nat)
    ensures
        vlu_run(ns, count) matches Some((vs, t)) ==> vs.len() == count && t <= ns.len(),
    decreases count,
{
    if count > 0 {
        lemma_vlu_scan_ok(ns, 0, u32::MAX as nat, Error::MalformedVlu32N);
        if let Ok((v, m)) = vlu_scan(ns, 0, u32::MAX as nat, Error::MalformedVlu32N) {
            lemma_vlu_run_len(ns.skip(m as int), (count - 1) as nat);
        }
    }
}

/// Iterator over the values of a `Vlu4U32Array`.
pub struct Vlu4U32ArrayIter<'i> {
    rdr: NibbleBuf<'i>,
    left: u32,
}

impl<'i> Vlu4U32ArrayIter<'i> {
    /// The values not yet handed out.
    pub closed spec fn remaining(&self) -> Seq<u32> {
        match vlu_run(self.rdr.rest(), self.left as nat) {
            Some((vs, _)) => vs,
            None => seq![],
        }
    }

    pub closed spec fn wf(&self) -> bool {
        &&& self.rdr.wf()
        &&& vlu_run(self.rdr.rest(), self.left as nat) is Some
    }

    /// The number of values not yet handed out.
    pub fn len(&self) -> (r: usize)
        requires
            self.wf(),
        ensures
            r == self.remaining().len(),
    {
        proof {
            lemma_vlu_run_len(self.rdr.rest(), self.left as nat);
        }
        self.left as usize
    }

    /// The next value, or `None` after the last.
    pub fn next(&mut self) -> (r: Option<u32>)
        requires
            old(self).wf(),
        ensures
            final(self).wf(),
            match r {
                Some(v) => old(self).remaining().len() > 0 && v == old(self).remaining()[0]
                    && final(self).remaining() == old(self).remaining().drop_first(),
                None => old(self).remaining().len() == 0 && final(self).remaining().len() == 0,
            },
    {
        proof {
            lemma_vlu_run_len(self.rdr.rest(), self.left as nat);
            lemma_vlu_scan_ok(self.rdr.rest(), 0, u32::MAX as nat, Error::MalformedVlu32N);
        }
        if self.left == 0 {
            return None;
        }
        let ghost r0 = self.rdr.rest();
        let ghost p0 = self.rdr.pos();
        match self.rdr.get_vlu32n() {
            Ok(v) => {
                self.left = self.left - 1;
                proof {
                    assert(self.rdr.rest() =~= r0.skip(self.rdr.pos() - p0));
                }
                Some(v)
            },
            Err(_) => None,
        }
    }
}

impl<'i> DeserializeVlu4<'i> for Vlu4U32Array<'i> {
    /// A `Vlu32N` count, then that many `Vlu32N` values.
    open spec fn des_ok(ns: Seq<u8>, v: Self, n: nat) -> bool {
        match vlu_scan(ns, 0, u32::MAX as nat, Error::MalformedVlu32N) {
            Ok((c, m)) => match vlu_run(ns.skip(m as int), c) {
                Some((vs, t)) => n == m + t && v.wf() && v.values() == vs,
                None => false,
            },
            Err(_) => false,
        }
    }

    open spec fn des_err(ns: Seq<u8>) -> bool {
        match vlu_scan(ns, 0, u32::MAX as nat, Error::MalformedVlu32N) {
            Ok((c, m)) => vlu_run(ns.skip(m as int), c) is None,
            Err(_) => true,
        }
    }

    fn des_vlu4(rdr: &mut NibbleBuf<'i>) -> (r: Result<Self, Error>) {
        proof {
            lemma_vlu_scan_ok(rdr.rest(), 0, u32::MAX as nat, Error::MalformedVlu32N);
        }
        let ghost r0 = rdr.rest();
        let ghost p0 = rdr.pos();
        let mut probe = *rdr;
        let count = match probe.get_vlu32n() {
            Ok(c) => c,
            Err(e) => {
                return Err(e);
            },
        };
        let ghost m = probe.pos() - p0;
        let after_count = probe;
        proof {
            assert(probe.rest() =~= r0.skip(m));
            assert(probe.rest() == r0.skip(m));
        }
        let start = probe.nibbles_pos();
        let mut i: u32 = 0;
        while i < count
            invariant
                old(rdr).wf(),
                *rdr == *old(rdr),
                r0 == old(rdr).rest(),
                p0 == old(rdr).pos(),
                after_count.wf(),
                after_count.same_window(old(rdr)),
                after_count.pos() == start,
                after_count.rest() == r0.skip(m),
                start == p0 + m,
                m >= 0,
                vlu_scan(r0, 0, u32::MAX as nat, Error::MalformedVlu32N) == Ok::<(nat, nat), Error>((count as nat, m as nat)),
                probe.wf(),
                probe.same_window(old(rdr)),
                probe.pos() >= start,
                i <= count,
                run_end(r0.skip(m), count as nat) == match run_end(probe.rest(), (count - i) as nat) {
                    Some(t) => Some((probe.pos() - start + t) as nat),
                    None => None::<nat>,
                },
            decreases count - i,
        {
            let ghost before = probe;
            proof {
                lemma_vlu_scan_ok(probe.rest(), 0, u32::MAX as nat, Error::MalformedVlu32N);
            }
            match probe.get_vlu32n() {
                Ok(_) => {},
                Err(e) => {
                    assert(vlu_run(before.rest(), (count - i) as nat) is None);
                    assert(run_end(r0.skip(m), count as nat) is None);
                    assert(Self::des_err(r0));
                    return Err(e);
                },
            }
            proof {
                assert(probe.rest() =~= before.rest().skip(probe.pos() - before.pos()));
            }
            i = i + 1;
        }
        *rdr = probe;
        Ok(Vlu4U32Array { rdr: after_count, len: count })
    }
}

/// The number of nibbles that `count` consecutive `Vlu32N`s at the start of
/// `ns` take, where they can all be read.
pub open spec fn run_end(ns: Seq<u8>, count: nat) -> Option<nat> {
    match vlu_run(ns, count) {
        Some((_, t)) => Some(t),
        None => None,
    }
}

/// A sequence of numbers naming one resource in a tree of resources.
#[derive(Clone, Copy)]
pub enum Uri<'i> {
    /// One of the root resources.
    OnePart(u32),
    /// A child of a root resource.
    TwoPart(u32, u32),
    /// A resource on the third level.
    ThreePart(u32, u32, u32),
    /// A resource at any depth, its parts read from a vector of `Vlu32N`.
    MultiPart(Vlu4U32Array<'i>),
}

impl<'i> Uri<'i> {
    /// The parts, from the root down.
    pub open spec fn parts(&self) -> Seq<u32> {
        match *self {
            Uri::OnePart(a) => seq![a],
            Uri::TwoPart(a, b) => seq![a, b],
            Uri::ThreePart(a, b, c) => seq![a, b, c],
            Uri::MultiPart(arr) => arr.values(),
        }
    }

    pub open spec fn wf(&self) -> bool {
        match *self {
            Uri::MultiPart(arr) => arr.wf(),
            _ => true,
        }
    }

    /// An iterator over the parts.
    pub fn iter(&self) -> (r: UriIter<'i>)
        requires
            self.wf(),
        ensures
            r.wf(),
            r.remaining() == self.parts(),
    {
        let r = match *self {
            Uri::OnePart(a) => UriIter::UpToThree { parts: [a, 0, 0], len: 1, pos: 0 },
            Uri::TwoPart(a, b) => UriIter::UpToThree { parts: [a, b, 0], len: 2, pos: 0 },
            Uri::ThreePart(a, b, c) => UriIter::UpToThree { parts: [a, b, c], len: 3, pos: 0 },
            Uri::MultiPart(arr) => UriIter::ArrIter(arr.iter()),
        };
        assert(r.remaining() =~= self.parts());
        r
    }

    /// The parts in decimal, each after a slash: `/1/2/3`.
    pub fn to_string(&self) -> (r: String)
        requires
            self.wf(),
        ensures
            r@ == seq!['/'] + decimal_path(self.parts()),
    {
        let mut s = String::from_str("/");
        proof {
            reveal_strlit("/");
        }
        self.push_parts(&mut s);
        s
    }

    /// The parts as `to_string` gives them, inside `Uri(` and `)`.
    pub fn to_string_alternate(&self) -> (r: String)
        requires
            self.wf(),
        ensures
            r@ == seq!['U', 'r', 'i', '(', '/'] + decimal_path(self.parts()) + seq![')'],
    {
        let mut s = String::from_str("Uri(/");
        proof {
            reveal_strlit("Uri(/");
        }
        self.push_parts(&mut s);
        s.append(")");
        proof {
            reveal_strlit(")");
        }
        s
    }

    fn push_parts(&self, s: &mut String)
        requires
            self.wf(),
        ensures
            final(s)@ == old(s)@ + decimal_path(self.parts()),
    {
        let ghost all = self.parts();
        let ghost s0 = s@;
        let mut it = self.iter();
        let mut first = true;
        let ghost mut done: Seq<u32> = seq![];
        loop
            invariant
                it.wf(),
                s0 == old(s)@,
                all == self.parts(),
                done + it.remaining() == all,
                first == (done.len() == 0),
                s@ == s0 + decimal_path(done),
            ensures
                s@ == s0 + decimal_path(all),
            decreases it.remaining().len(),
        {
            match it.next() {
                Some(v) => {
                    if !first {
                        s.append("/");
                        proof {
                            reveal_strlit("/");
                        }
                    }
                    push_decimal(s, v as u64);
                    proof {
                        let d2 = done.push(v);
                        assert(d2.drop_last() =~= done);
                        if done.len() == 0 {
                            assert(decimal_path(d2) == decimal(v as nat));
                        }
                        assert(s@ =~= s0 + decimal_path(d2));
                        assert(d2 + it.remaining() =~= all);
                        done = d2;
                    }
                    first = false;
                },
                None => {
                    assert(done =~= all);
                    break;
                },
            }
        }
    }
}

/// Iterator over the parts of a `Uri`.
pub enum UriIter<'i> {
    UpToThree { parts: [u32; 3], len: u8, pos: u8 },
    ArrIter(Vlu4U32ArrayIter<'i>),
}

impl<'i> UriIter<'i> {
    /// The parts not yet handed out.
    pub open spec fn remaining(&self) -> Seq<u32> {
        match *self {
            UriIter::UpToThree { parts, len, pos } => parts@.subrange(pos as int, len as int),
            UriIter::ArrIter(it) => it.remaining(),
        }
    }

    pub open spec fn wf(&self) -> bool {
        match *self {
            UriIter::UpToThree { parts, len, pos } => pos <= len <= 3,
            UriIter::ArrIter(it) => it.wf(),
        }
    }

    /// The number of parts left, as lower and upper bound.
    pub fn size_hint(&self) -> (r: (usize, Option<usize>))
        requires
            self.wf(),
        ensures
            r.0 == self.remaining().len(),
            r.1 == Some(self.remaining().len() as usize),
    {
        match self {
            UriIter::UpToThree { parts, len, pos } => {
                let n = (*len - *pos) as usize;
                (n, Some(n))
            },
            UriIter::ArrIter(it) => {
                let n = it.len();
                (n, Some(n))
            },
        }
    }

    /// The next part, or `None` after the last.
    pub fn next(&mut self) -> (r: Option<u32>)
        requires
            old(self).wf(),
        ensures
            final(self).wf(),
            match r {
                Some(v) => old(self).remaining().len() > 0 && v == old(self).remaining()[0]
                    && final(self).remaining() == old(self).remaining().drop_first(),
                None => old(self).remaining().len() == 0 && final(self).remaining().len() == 0,
            },
    {
        match self {
            UriIter::UpToThree { parts, len, pos } => {
                if *pos < *len {
                    let v = parts[*pos as usize];
                    *pos = *pos + 1;
                    Some(v)
                } else {
                    None
                }
            },
            UriIter::ArrIter(it) => it.next(),
        }
    }
}

} // verus!
