use vstd::prelude::*;

use crate::bytesrepr::{occurs_at, Error};

verus! {

/// An unsigned integer below 2^512, held as 64 big-endian bytes.
#[derive(Clone, Copy, Debug, PartialEq, Eq, PartialOrd, Ord, Hash)]
pub struct U512 {
    be: [u8; 64],
}

pub open spec fn pow256(n: nat) -> nat
    decreases n,
{
    if n == 0 {
        1
    } else {
        256 * pow256((n - 1) as nat)
    }
}

/// The number that big-endian bytes `s` denote.
pub open spec fn be_value(s: Seq<u8>) -> nat
    decreases s.len(),
{
    if s.len() == 0 {
        0
    } else {
        (s[0] as nat) * pow256((s.len() - 1) as nat) + be_value(s.drop_first())
    }
}

/// The number of bytes left once the leading zeros of `s` are dropped.
pub open spec fn significant_len(s: Seq<u8>) -> nat
    decreases s.len(),
{
    if s.len() == 0 {
        0
    } else if s[0] != 0 {
        s.len()
    } else {
        significant_len(s.drop_first())
    }
}

proof fn lemma_significant_len(s: Seq<u8>)
    ensures
        significant_len(s) <= s.len(),
        significant_len(s) > 0 ==> s[s.len() - significant_len(s)] != 0,
        forall|j: int| 0 <= j < s.len() - significant_len(s) ==> s[j] == 0,
    decreases s.len(),
{
    if s.len() > 0 && s[0] == 0 {
        lemma_significant_len(s.drop_first());
        assert forall|j: int| 0 <= j < s.len() - significant_len(s) implies s[j] == 0 by {
            if j > 0 {
                assert(s[j] == s.drop_first()[j - 1]);
            }
        }
    }
}

proof fn lemma_significant_len_is(s: Seq<u8>, n: nat)
    requires
        n <= s.len(),
        n > 0 ==> s[s.len() - n] != 0,
        forall|j: int| 0 <= j < s.len() - n ==> s[j] == 0,
    ensures
        significant_len(s) == n,
    decreases s.len(),
{
    if s.len() > 0 && n < s.len() {
        assert(s[0] == 0);
        assert forall|j: int| 0 <= j < s.drop_first().len() - n implies s.drop_first()[j] == 0 by {
            assert(s.drop_first()[j] == s[j + 1]);
        }
        if n > 0 {
            assert(s.drop_first()[s.drop_first().len() - n] == s[s.len() - n]);
        }
        lemma_significant_len_is(s.drop_first(), n);
    }
}

proof fn lemma_leading_zeros(s: Seq<u8>, k: int)
    requires
        0 <= k <= s.len(),
        forall|j: int| 0 <= j < k ==> s[j] == 0,
    ensures
        be_value(s) == be_value(s.subrange(k, s.len() as int)),
    decreases k,
{
    if k > 0 {
        assert forall|j: int| 0 <= j < k - 1 implies s.drop_first()[j] == 0 by {
            assert(s.drop_first()[j] == s[j + 1]);
        }
        lemma_leading_zeros(s.drop_first(), k - 1);
        assert(s[0] == 0);
        assert(be_value(s) == 0 * pow256((s.len() - 1) as nat) + be_value(s.drop_first()));
        assert(s.drop_first().subrange(k - 1, s.drop_first().len() as int) =~= s.subrange(
            k,
            s.len() as int,
        ));
    } else {
        assert(s.subrange(0, s.len() as int) =~= s);
    }
}

impl View for U512 {
    /// The big-endian bytes, 64 of them.
    type V = Seq<u8>;

    closed spec fn view(&self) -> Seq<u8> {
        self.be@
    }
}

impl U512 {
    pub open spec fn value(&self) -> nat {
        be_value(self@)
    }

    /// The canonical encoding: the count of significant bytes, then those
    /// bytes, least significant first.
    pub open spec fn encoding(&self) -> Seq<u8> {
        let n = significant_len(self@);
        seq![n as u8] + Seq::new(n, |i: int| self@[63 - i])
    }

    pub fn zero() -> (r: U512)
        ensures
            r.value() == 0,
    {
        let r = U512 { be: [0u8; 64] };
        proof {
            lemma_leading_zeros(r@, 64);
        }
        r
    }

    pub fn from_u64(v: u64) -> (r: U512)
        ensures
            r.value() == v as nat,
    {
        let mut be = [0u8; 64];
        let mut x: u64 = v;
        let mut i: usize = 0;
        assert(be@.subrange(64, 64) =~= Seq::<u8>::empty());
        assert(pow256(0) == 1);
        while i < 8
            invariant
                0 <= i <= 8,
                be@.len() == 64,
                forall|j: int| 0 <= j < 64 - i ==> be@[j] == 0,
                v == x * pow256(i as nat) + be_value(be@.subrange(64 - i, 64)),
            decreases 8 - i,
        {
            let ghost old_be = be@;
            let ghost p = pow256(i as nat);
            let r = (x % 256) as u8;
            be[63 - i] = r;
            assert(be@.subrange(63 - i, 64).drop_first() =~= old_be.subrange(64 - i, 64));
            assert(be_value(be@.subrange(63 - i, 64)) == r * p + be_value(
                old_be.subrange(64 - i, 64),
            ));
            let q = x / 256;
            assert(x * p == q * (256 * p) + r * p) by (nonlinear_arith)
                requires
                    q == x / 256,
                    r == x % 256,
            ;
            x = q;
            i += 1;
        }
        proof {
            reveal_with_fuel(pow256, 9);
        }
        assert(pow256(8) == 0x1_0000_0000_0000_0000);
        assert(x == 0) by (nonlinear_arith)
            requires
                v == x * pow256(8) + be_value(be@.subrange(56, 64)),
                pow256(8) == 0x1_0000_0000_0000_0000,
                v < 0x1_0000_0000_0000_0000,
        ;
        proof {
            lemma_leading_zeros(be@, 56);
        }
        U512 { be }
    }

    /// The length of the canonical encoding.
    pub fn serialized_length(&self) -> (r: usize)
        ensures
            r == self.encoding().len(),
            r <= 65,
    {
        1 + self.significant_bytes()
    }

    fn significant_bytes(&self) -> (r: usize)
        ensures
            r == significant_len(self@),
            r <= 64,
    {
        proof {
            lemma_significant_len(self@);
        }
        let mut k: usize = 0;
        while k < 64 && self.be[k] == 0
            invariant
                0 <= k <= 64,
                self@.len() == 64,
                forall|j: int| 0 <= j < k ==> self@[j] == 0,
            decreases 64 - k,
        {
            k += 1;
        }
        proof {
            lemma_significant_len_is(self@, (64 - k) as nat);
        }
        64 - k
    }

    /// Appends the canonical encoding to `out`.
    pub fn write_bytes(&self, out: &mut Vec<u8>)
        ensures
            final(out)@ == old(out)@ + self.encoding(),
    {
        let n = self.significant_bytes();
        out.push(n as u8);
        let mut i: usize = 0;
        while i < n
            invariant
                0 <= i <= n <= 64,
                self@.len() == 64,
                n == significant_len(self@),
                out@ == old(out)@ + seq![n as u8] + Seq::new(i as nat, |j: int| self@[63 - j]),
            decreases n - i,
        {
            out.push(self.be[63 - i]);
            i += 1;
            assert(out@ =~= old(out)@ + seq![n as u8] + Seq::new(i as nat, |j: int| self@[63 - j]));
        }
        assert(out@ =~= old(out)@ + self.encoding());
    }

    /// Decodes the amount whose canonical encoding starts at `pos`, and
    /// returns it with the position just past it. A count above 64 and a
    /// most significant byte of zero are refused: no amount encodes to them.
    pub fn read_bytes(bytes: &[u8], pos: usize) -> (r: Result<(U512, usize), Error>)
        requires
            pos <= bytes@.len(),
        ensures
            match r {
                Ok((a, end)) => end == pos + a.encoding().len() && occurs_at(
                    bytes@,
                    pos as int,
                    a.encoding(),
                ),
                Err(_) => forall|a: U512| !occurs_at(bytes@, pos as int, #[trigger] a.encoding()),
            },
            forall|a: U512|
                occurs_at(bytes@, pos as int, #[trigger] a.encoding()) ==> r == Ok::<_, Error>(
                    (a, (pos + a.encoding().len()) as usize),
                ),
            pos == bytes@.len() ==> r == Err::<(U512, usize), Error>(Error::EarlyEndOfStream),
    {
        let len = bytes.len();
        if pos >= len {
            return Err(Error::EarlyEndOfStream);
        }
        let n = bytes[pos] as usize;
        if n > 64 {
            proof {
                assert forall|a: U512| !occurs_at(bytes@, pos as int, #[trigger] a.encoding()) by {
                    lemma_significant_len(a@);
                    if occurs_at(bytes@, pos as int, a.encoding()) {
                        assert(bytes@.subrange(pos as int, pos + a.encoding().len())[0]
                            == a.encoding()[0]);
                    }
                }
            }
            return Err(Error::Formatting);
        }
        if len - pos - 1 < n {
            proof {
                assert forall|a: U512| !occurs_at(bytes@, pos as int, #[trigger] a.encoding()) by {
                    lemma_significant_len(a@);
                    if occurs_at(bytes@, pos as int, a.encoding()) {
                        assert(bytes@.subrange(pos as int, pos + a.encoding().len())[0]
                            == a.encoding()[0]);
                    }
                }
            }
            return Err(Error::EarlyEndOfStream);
        }
        if n > 0 && bytes[pos + n] == 0 {
            proof {
                assert forall|a: U512| !occurs_at(bytes@, pos as int, #[trigger] a.encoding()) by {
                    lemma_significant_len(a@);
                    if occurs_at(bytes@, pos as int, a.encoding()) {
                        let e = a.encoding();
                        assert(bytes@.subrange(pos as int, pos + e.len())[0] == e[0]);
                        assert(bytes@.subrange(pos as int, pos + e.len())[n as int] == e[n as int]);
                    }
                }
            }
            return Err(Error::Formatting);
        }
        let mut be = [0u8; 64];
        let mut i: usize = 0;
        while i < n
            invariant
                0 <= i <= n <= 64,
                pos + 1 + n <= len,
                bytes@.len() == len,
                be@.len() == 64,
                forall|j: int| 0 <= j < i ==> be@[63 - j] == #[trigger] bytes@[pos + 1 + j],
                forall|j: int| 0 <= j < 64 - i ==> be@[j] == 0,
            decreases n - i,
        {
            be[63 - i] = bytes[pos + 1 + i];
            i += 1;
        }
        let a = U512 { be };
        proof {
            if n > 0 {
                assert(be@[63 - (n - 1)] == bytes@[pos + 1 + (n - 1)]);
            }
            lemma_significant_len_is(a@, n as nat);
            assert forall|j: int| 0 <= j < n implies #[trigger] a.encoding()[j + 1] == bytes@[pos
                + 1 + j] by {
                assert(be@[63 - j] == bytes@[pos + 1 + j]);
            }
            assert forall|j: int| 0 <= j < n + 1 implies #[trigger] a.encoding()[j]
                == bytes@.subrange(pos as int, pos + 1 + n)[j] by {
                if j > 0 {
                    assert(a.encoding()[(j - 1) + 1] == bytes@[pos + 1 + (j - 1)]);
                }
            }
            assert(bytes@.subrange(pos as int, pos + 1 + n) =~= a.encoding());
            lemma_round_trip(a, bytes@, pos as int);
        }
        Ok((a, pos + 1 + n))
    }
}

/// Decoding the canonical encoding of an amount, followed by anything, gives
/// back the amount and the position just past its encoding.
pub proof fn lemma_round_trip(a: U512, bytes: Seq<u8>, pos: int)
    requires
        occurs_at(bytes, pos, a.encoding()),
    ensures
        forall|b: U512|
            occurs_at(bytes, pos, #[trigger] b.encoding()) ==> b == a,
{
    assert forall|b: U512| occurs_at(bytes, pos, #[trigger] b.encoding()) implies b == a by {
        lemma_significant_len(a@);
        lemma_significant_len(b@);
        let ea = a.encoding();
        let eb = b.encoding();
        assert(ea[0] == bytes[pos]);
        assert(eb[0] == bytes[pos]);
        let n = significant_len(a@);
        assert(significant_len(b@) == n);
        assert forall|j: int| 0 <= j < 64 implies a.be@[j] == b.be@[j] by {
            if j < 64 - n {
            } else {
                assert(ea[64 - j] == bytes[pos + 64 - j]);
                assert(eb[64 - j] == bytes[pos + 64 - j]);
            }
        }
        assert(a.be =~= b.be);
    }
}

} // verus!
