use vstd::prelude::*;

use crate::bytesrepr::{lemma_occurs_concat, occurs_at, Error};
use crate::types::{lemma_only_key_at, PublicKey};
use crate::u512::{lemma_round_trip, U512};

verus! {

pub const SEIGNIORAGE_ALLOCATION_VALIDATOR_TAG: u8 = 0;

pub const SEIGNIORAGE_ALLOCATION_DELEGATOR_TAG: u8 = 1;

/// Newly minted stake paid to a validator, or to a delegator of a validator.
/// Ordered by variant, then by fields in declaration order.
#[derive(Clone, Copy, Debug, PartialEq, Eq, PartialOrd, Ord, Hash)]
pub enum SeigniorageAllocation {
    Validator { validator_public_key: PublicKey, amount: U512 },
    Delegator { delegator_public_key: PublicKey, validator_public_key: PublicKey, amount: U512 },
}

/// The single byte `t` stands at `pos`.
proof fn lemma_occurs_byte(bytes: Seq<u8>, pos: int, t: u8)
    ensures
        occurs_at(bytes, pos, seq![t]) <==> (0 <= pos < bytes.len() && bytes[pos] == t),
{
    if 0 <= pos < bytes.len() && bytes[pos] == t {
        assert(bytes.subrange(pos, pos + 1) =~= seq![t]);
    }
    if occurs_at(bytes, pos, seq![t]) {
        assert(bytes.subrange(pos, pos + 1)[0] == bytes[pos]);
    }
}

/// An allocation's encoding stands at `pos` exactly when its tag and each of
/// its fields' encodings stand there one after the other.
proof fn lemma_occurs_allocation(bytes: Seq<u8>, pos: int, a: SeigniorageAllocation)
    ensures
        occurs_at(bytes, pos, a.encoding()) <==> match a {
            SeigniorageAllocation::Validator { validator_public_key: k, amount: m } => {
                &&& 0 <= pos < bytes.len()
                &&& bytes[pos] == SEIGNIORAGE_ALLOCATION_VALIDATOR_TAG
                &&& occurs_at(bytes, pos + 1, k@)
                &&& occurs_at(bytes, pos + 1 + k@.len(), m.encoding())
            },
            SeigniorageAllocation::Delegator {
                delegator_public_key: d,
                validator_public_key: v,
                amount: m,
            } => {
                &&& 0 <= pos < bytes.len()
                &&& bytes[pos] == SEIGNIORAGE_ALLOCATION_DELEGATOR_TAG
                &&& occurs_at(bytes, pos + 1, d@)
                &&& occurs_at(bytes, pos + 1 + d@.len(), v@)
                &&& occurs_at(bytes, pos + 1 + d@.len() + v@.len(), m.encoding())
            },
        },
{
    match a {
        SeigniorageAllocation::Validator { validator_public_key: k, amount: m } => {
            let t = seq![SEIGNIORAGE_ALLOCATION_VALIDATOR_TAG];
            lemma_occurs_concat(bytes, pos, t + k@, m.encoding());
            lemma_occurs_concat(bytes, pos, t, k@);
            lemma_occurs_byte(bytes, pos, SEIGNIORAGE_ALLOCATION_VALIDATOR_TAG);
        },
        SeigniorageAllocation::Delegator {
            delegator_public_key: d,
            validator_public_key: v,
            amount: m,
        } => {
            let t = seq![SEIGNIORAGE_ALLOCATION_DELEGATOR_TAG];
            lemma_occurs_concat(bytes, pos, t + d@ + v@, m.encoding());
            lemma_occurs_concat(bytes, pos, t + d@, v@);
            lemma_occurs_concat(bytes, pos, t, d@);
            lemma_occurs_byte(bytes, pos, SEIGNIORAGE_ALLOCATION_DELEGATOR_TAG);
        },
    }
}

impl SeigniorageAllocation {
    /// The canonical encoding: a tag byte, then the fields in declaration order.
    pub open spec fn encoding(&self) -> Seq<u8> {
        match self {
            SeigniorageAllocation::Validator { validator_public_key, amount } => seq![
                SEIGNIORAGE_ALLOCATION_VALIDATOR_TAG,
            ] + validator_public_key@ + amount.encoding(),
            SeigniorageAllocation::Delegator {
                delegator_public_key,
                validator_public_key,
                amount,
            } => seq![SEIGNIORAGE_ALLOCATION_DELEGATOR_TAG] + delegator_public_key@
                + validator_public_key@ + amount.encoding(),
        }
    }

    /// The key that selection by public key compares with: the validator's
    /// for a validator allocation, the delegator's for a delegator allocation.
    pub open spec fn selection_key(&self) -> PublicKey {
        match self {
            SeigniorageAllocation::Validator { validator_public_key, .. } => *validator_public_key,
            SeigniorageAllocation::Delegator { delegator_public_key, .. } => *delegator_public_key,
        }
    }

    pub open spec fn spec_amount(&self) -> U512 {
        match self {
            SeigniorageAllocation::Validator { amount, .. } => *amount,
            SeigniorageAllocation::Delegator { amount, .. } => *amount,
        }
    }

    pub fn validator(validator_public_key: PublicKey, amount: U512) -> (r: SeigniorageAllocation)
        ensures
            r == (SeigniorageAllocation::Validator { validator_public_key, amount }),
    {
        SeigniorageAllocation::Validator { validator_public_key, amount }
    }

    pub fn delegator(
        delegator_public_key: PublicKey,
        validator_public_key: PublicKey,
        amount: U512,
    ) -> (r: SeigniorageAllocation)
        ensures
            r == (SeigniorageAllocation::Delegator {
                delegator_public_key,
                validator_public_key,
                amount,
            }),
    {
        SeigniorageAllocation::Delegator { delegator_public_key, validator_public_key, amount }
    }

    /// The allocated amount.
    pub fn amount(&self) -> (r: &U512)
        ensures
            *r == self.spec_amount(),
    {
        match self {
            SeigniorageAllocation::Validator { amount, .. } => amount,
            SeigniorageAllocation::Delegator { amount, .. } => amount,
        }
    }

    fn tag(&self) -> (r: u8)
        ensures
            r == self.encoding()[0],
    {
        match self {
            SeigniorageAllocation::Validator { .. } => SEIGNIORAGE_ALLOCATION_VALIDATOR_TAG,
            SeigniorageAllocation::Delegator { .. } => SEIGNIORAGE_ALLOCATION_DELEGATOR_TAG,
        }
    }

    /// Whether `public_key` is this allocation's selection key.
    pub fn is_selected_by(&self, public_key: &PublicKey) -> (r: bool)
        ensures
            r == (self.selection_key()@ == public_key@),
    {
        match self {
            SeigniorageAllocation::Validator { validator_public_key, .. } => public_key.matches(
                validator_public_key,
            ),
            SeigniorageAllocation::Delegator { delegator_public_key, .. } => public_key.matches(
                delegator_public_key,
            ),
        }
    }

    /// Appends the canonical encoding to `out`.
    pub fn write_bytes(&self, out: &mut Vec<u8>)
        ensures
            final(out)@ == old(out)@ + self.encoding(),
    {
        let ghost start = out@;
        out.push(self.tag());
        match self {
            SeigniorageAllocation::Validator { validator_public_key, amount } => {
                validator_public_key.write_bytes(out);
                amount.write_bytes(out);
            },
            SeigniorageAllocation::Delegator {
                delegator_public_key,
                validator_public_key,
                amount,
            } => {
                delegator_public_key.write_bytes(out);
                validator_public_key.write_bytes(out);
                amount.write_bytes(out);
            },
        }
        assert(out@ =~= start + self.encoding());
    }

    /// Decodes the allocation whose encoding starts at `pos`, and returns it
    /// with the position just past it.
    pub fn read_bytes(bytes: &[u8], pos: usize) -> (r: Result<(SeigniorageAllocation, usize), Error>)
        requires
            pos <= bytes@.len(),
        ensures
            match r {
                Ok((a, end)) => end == pos + a.encoding().len() && occurs_at(
                    bytes@,
                    pos as int,
                    a.encoding(),
                ),
                Err(_) => forall|a: SeigniorageAllocation|
                    !occurs_at(bytes@, pos as int, #[trigger] a.encoding()),
            },
            forall|a: SeigniorageAllocation|
                occurs_at(bytes@, pos as int, #[trigger] a.encoding()) ==> r == Ok::<_, Error>(
                    (a, (pos + a.encoding().len()) as usize),
                ),
            pos == bytes@.len() ==> r == Err::<(SeigniorageAllocation, usize), Error>(
                Error::EarlyEndOfStream,
            ),
            pos < bytes@.len() && bytes@[pos as int] > SEIGNIORAGE_ALLOCATION_DELEGATOR_TAG ==> r
                == Err::<(SeigniorageAllocation, usize), Error>(Error::Formatting),
    {
        if pos >= bytes.len() {
            proof {
                assert forall|a: SeigniorageAllocation|
                    !occurs_at(bytes@, pos as int, #[trigger] a.encoding()) by {
                    lemma_occurs_allocation(bytes@, pos as int, a);
                }
            }
            return Err(Error::EarlyEndOfStream);
        }
        let tag = bytes[pos];
        if tag == SEIGNIORAGE_ALLOCATION_VALIDATOR_TAG {
            let (k, p1) = match PublicKey::read_bytes(bytes, pos + 1) {
                Ok(x) => x,
                Err(e) => {
                    proof {
                        assert forall|a: SeigniorageAllocation|
                            !occurs_at(bytes@, pos as int, #[trigger] a.encoding()) by {
                            lemma_occurs_allocation(bytes@, pos as int, a);
                        }
                    }
                    return Err(e);
                },
            };
            let (m, p2) = match U512::read_bytes(bytes, p1) {
                Ok(x) => x,
                Err(e) => {
                    proof {
                        assert forall|a: SeigniorageAllocation|
                            !occurs_at(bytes@, pos as int, #[trigger] a.encoding()) by {
                            lemma_occurs_allocation(bytes@, pos as int, a);
                        }
                    }
                    return Err(e);
                },
            };
            let a = SeigniorageAllocation::validator(k, m);
            proof {
                lemma_occurs_allocation(bytes@, pos as int, a);
                assert forall|a2: SeigniorageAllocation|
                    occurs_at(bytes@, pos as int, #[trigger] a2.encoding()) implies a2 == a by {
                    lemma_occurs_allocation(bytes@, pos as int, a2);
                }
            }
            Ok((a, p2))
        } else if tag == SEIGNIORAGE_ALLOCATION_DELEGATOR_TAG {
            let (d, p1) = match PublicKey::read_bytes(bytes, pos + 1) {
                Ok(x) => x,
                Err(e) => {
                    proof {
                        assert forall|a: SeigniorageAllocation|
                            !occurs_at(bytes@, pos as int, #[trigger] a.encoding()) by {
                            lemma_occurs_allocation(bytes@, pos as int, a);
                        }
                    }
                    return Err(e);
                },
            };
            let (v, p2) = match PublicKey::read_bytes(bytes, p1) {
                Ok(x) => x,
                Err(e) => {
                    proof {
                        assert forall|a: SeigniorageAllocation|
                            !occurs_at(bytes@, pos as int, #[trigger] a.encoding()) by {
                            lemma_occurs_allocation(bytes@, pos as int, a);
                        }
                    }
                    return Err(e);
                },
            };
            let (m, p3) = match U512::read_bytes(bytes, p2) {
                Ok(x) => x,
                Err(e) => {
                    proof {
                        assert forall|a: SeigniorageAllocation|
                            !occurs_at(bytes@, pos as int, #[trigger] a.encoding()) by {
                            lemma_occurs_allocation(bytes@, pos as int, a);
                        }
                    }
                    return Err(e);
                },
            };
            let a = SeigniorageAllocation::delegator(d, v, m);
            proof {
                lemma_occurs_allocation(bytes@, pos as int, a);
                assert forall|a2: SeigniorageAllocation|
                    occurs_at(bytes@, pos as int, #[trigger] a2.encoding()) implies a2 == a by {
                    lemma_occurs_allocation(bytes@, pos as int, a2);
                }
            }
            Ok((a, p3))
        } else {
            proof {
                assert forall|a: SeigniorageAllocation|
                    !occurs_at(bytes@, pos as int, #[trigger] a.encoding()) by {
                    lemma_occurs_allocation(bytes@, pos as int, a);
                }
            }
            Err(Error::Formatting)
        }
    }

    /// Decodes an allocation from the front of `bytes`, and returns it with
    /// the bytes that follow its encoding.
    pub fn from_bytes(bytes: &[u8]) -> (r: Result<(SeigniorageAllocation, &[u8]), Error>)
        ensures
            match r {
                Ok((a, rem)) => bytes@ == a.encoding() + rem@,
                Err(_) => forall|a: SeigniorageAllocation|
                    !occurs_at(bytes@, 0, #[trigger] a.encoding()),
            },
            forall|a: SeigniorageAllocation|
                occurs_at(bytes@, 0, #[trigger] a.encoding()) ==> r is Ok && r->Ok_0.0 == a,
            bytes@.len() == 0 ==> r == Err::<(SeigniorageAllocation, &[u8]), Error>(
                Error::EarlyEndOfStream,
            ),
            bytes@.len() > 0 && bytes@[0] > SEIGNIORAGE_ALLOCATION_DELEGATOR_TAG ==> r == Err::<
                (SeigniorageAllocation, &[u8]),
                Error,
            >(Error::Formatting),
    {
        match SeigniorageAllocation::read_bytes(bytes, 0) {
            Ok((a, end)) => {
                let rem = vstd::slice::slice_subrange(bytes, end, bytes.len());
                assert(bytes@ =~= bytes@.subrange(0, end as int) + rem@);
                Ok((a, rem))
            },
            Err(e) => Err(e),
        }
    }

    /// The canonical encoding.
    pub fn to_bytes(&self) -> (r: Vec<u8>)
        ensures
            r@ == self.encoding(),
    {
        let mut out = Vec::new();
        self.write_bytes(&mut out);
        assert(out@ =~= self.encoding());
        out
    }

    /// The length of the canonical encoding.
    pub fn serialized_length(&self) -> (r: usize)
        ensures
            r == self.encoding().len(),
    {
        match self {
            SeigniorageAllocation::Validator { validator_public_key, amount } => 1
                + validator_public_key.serialized_length() + amount.serialized_length(),
            SeigniorageAllocation::Delegator {
                delegator_public_key,
                validator_public_key,
                amount,
            } => 1 + delegator_public_key.serialized_length()
                + validator_public_key.serialized_length() + amount.serialized_length(),
        }
    }
}

/// The four little-endian bytes of `n`.
pub open spec fn u32_le(n: u32) -> Seq<u8> {
    seq![
        (n & 0xff) as u8,
        ((n >> 8u32) & 0xff) as u8,
        ((n >> 16u32) & 0xff) as u8,
        ((n >> 24u32) & 0xff) as u8,
    ]
}

/// The encodings of `s`'s allocations, one after the other.
pub open spec fn allocations_encoding(s: Seq<SeigniorageAllocation>) -> Seq<u8>
    decreases s.len(),
{
    if s.len() == 0 {
        Seq::empty()
    } else {
        allocations_encoding(s.drop_last()) + s.last().encoding()
    }
}

proof fn lemma_allocations_concat(a: Seq<SeigniorageAllocation>, b: Seq<SeigniorageAllocation>)
    ensures
        allocations_encoding(a + b) == allocations_encoding(a) + allocations_encoding(b),
    decreases b.len(),
{
    if b.len() == 0 {
        assert(a + b =~= a);
        assert(allocations_encoding(a) + allocations_encoding(b) =~= allocations_encoding(a));
    } else {
        assert((a + b).drop_last() =~= a + b.drop_last());
        lemma_allocations_concat(a, b.drop_last());
        assert(allocations_encoding(a + b) =~= allocations_encoding(a) + allocations_encoding(b));
    }
}

/// Allocation `i`'s encoding follows those of the allocations before it.
proof fn lemma_allocations_split(s: Seq<SeigniorageAllocation>, i: int)
    requires
        0 <= i < s.len(),
    ensures
        allocations_encoding(s) == allocations_encoding(s.subrange(0, i)) + s[i].encoding()
            + allocations_encoding(s.subrange(i + 1, s.len() as int)),
{
    let pre = s.subrange(0, i);
    let post = s.subrange(i + 1, s.len() as int);
    assert(s =~= pre.push(s[i]) + post);
    lemma_allocations_concat(pre.push(s[i]), post);
    assert(pre.push(s[i]).drop_last() =~= pre);
}

proof fn lemma_u32_le_injective(a: u32, b: u32)
    requires
        u32_le(a) == u32_le(b),
    ensures
        a == b,
{
    assert(u32_le(a)[0] == u32_le(b)[0]);
    assert(u32_le(a)[1] == u32_le(b)[1]);
    assert(u32_le(a)[2] == u32_le(b)[2]);
    assert(u32_le(a)[3] == u32_le(b)[3]);
    assert(a == b) by (bit_vector)
        requires
            (a & 0xff) as u8 == (b & 0xff) as u8,
            ((a >> 8u32) & 0xff) as u8 == ((b >> 8u32) & 0xff) as u8,
            ((a >> 16u32) & 0xff) as u8 == ((b >> 16u32) & 0xff) as u8,
            ((a >> 24u32) & 0xff) as u8 == ((b >> 24u32) & 0xff) as u8,
    ;
}

/// The allocations of one era, in the order they were recorded.
#[derive(Clone, Debug, PartialEq, Eq, PartialOrd, Ord)]
pub struct AuctionInfo {
    seigniorage_allocations: Vec<SeigniorageAllocation>,
}

impl View for AuctionInfo {
    type V = Seq<SeigniorageAllocation>;

    closed spec fn view(&self) -> Seq<SeigniorageAllocation> {
        self.seigniorage_allocations@
    }
}

/// The allocations of `s` whose selection key is `key`, in order.
pub open spec fn selected(s: Seq<SeigniorageAllocation>, key: PublicKey) -> Seq<
    SeigniorageAllocation,
>
    decreases s.len(),
{
    if s.len() == 0 {
        Seq::empty()
    } else if s.last().selection_key()@ == key@ {
        selected(s.drop_last(), key).push(s.last())
    } else {
        selected(s.drop_last(), key)
    }
}

impl AuctionInfo {
    /// The canonical encoding: the number of allocations as four
    /// little-endian bytes, then each allocation's encoding in order.
    pub open spec fn encoding(&self) -> Seq<u8> {
        u32_le(self@.len() as u32) + allocations_encoding(self@)
    }

    /// An `AuctionInfo` with no allocations.
    pub fn new() -> (r: AuctionInfo)
        ensures
            r@ == Seq::<SeigniorageAllocation>::empty(),
    {
        let seigniorage_allocations = Vec::new();
        AuctionInfo { seigniorage_allocations }
    }

    /// The allocations, in the order they were recorded.
    pub fn seigniorage_allocations(&self) -> (r: &Vec<SeigniorageAllocation>)
        ensures
            r@ == self@,
    {
        &self.seigniorage_allocations
    }

    /// The allocations, to record more.
    pub fn seigniorage_allocations_mut(&mut self) -> (r: &mut Vec<SeigniorageAllocation>)
        ensures
            r@ == old(self)@,
            final(self)@ == final(r)@,
    {
        &mut self.seigniorage_allocations
    }

    /// The allocations whose selection key is `public_key`: the validator's
    /// key of a validator allocation, the delegator's key of a delegator
    /// allocation. They come in the order they were recorded.
    pub fn select(&self, public_key: PublicKey) -> (r: Vec<SeigniorageAllocation>)
        ensures
            r@ == selected(self@, public_key),
    {
        let mut out: Vec<SeigniorageAllocation> = Vec::new();
        let mut i: usize = 0;
        while i < self.seigniorage_allocations.len()
            invariant
                0 <= i <= self@.len(),
                out@ == selected(self@.subrange(0, i as int), public_key),
            decreases self@.len() - i,
        {
            let a = self.seigniorage_allocations[i];
            assert(self@.subrange(0, i + 1).drop_last() =~= self@.subrange(0, i as int));
            if a.is_selected_by(&public_key) {
                out.push(a);
            }
            i += 1;
        }
        assert(self@.subrange(0, self@.len() as int) =~= self@);
        out
    }

    /// The length of the canonical encoding.
    pub fn serialized_length(&self) -> (r: usize)
        requires
            self.encoding().len() <= usize::MAX,
        ensures
            r == self.encoding().len(),
    {
        let mut total: usize = 4;
        let mut i: usize = 0;
        while i < self.seigniorage_allocations.len()
            invariant
                0 <= i <= self@.len(),
                total == 4 + allocations_encoding(self@.subrange(0, i as int)).len(),
                self.encoding().len() <= usize::MAX,
            decreases self@.len() - i,
        {
            proof {
                lemma_allocations_split(self@, i as int);
                assert(self@.subrange(0, i + 1).drop_last() =~= self@.subrange(0, i as int));
            }
            total = total + self.seigniorage_allocations[i].serialized_length();
            i += 1;
        }
        assert(self@.subrange(0, self@.len() as int) =~= self@);
        total
    }

    /// Decodes the `AuctionInfo` whose encoding starts at `pos`, and returns
    /// it with the position just past it.
    pub fn read_bytes(bytes: &[u8], pos: usize) -> (r: Result<(AuctionInfo, usize), Error>)
        requires
            pos <= bytes@.len(),
        ensures
            match r {
                Ok((x, end)) => x@.len() <= u32::MAX && end == pos + x.encoding().len()
                    && occurs_at(bytes@, pos as int, x.encoding()),
                Err(_) => forall|x: AuctionInfo|
                    x@.len() <= u32::MAX ==> !occurs_at(bytes@, pos as int, #[trigger] x.encoding()),
            },
            forall|x: AuctionInfo|
                x@.len() <= u32::MAX && occurs_at(bytes@, pos as int, #[trigger] x.encoding())
                    ==> r is Ok && r->Ok_0.0@ == x@ && r->Ok_0.1 == pos + x.encoding().len(),
            pos + 4 > bytes@.len() ==> r == Err::<(AuctionInfo, usize), Error>(
                Error::EarlyEndOfStream,
            ),
    {
        let len = bytes.len();
        if len - pos < 4 {
            return Err(Error::EarlyEndOfStream);
        }
        let b0 = bytes[pos];
        let b1 = bytes[pos + 1];
        let b2 = bytes[pos + 2];
        let b3 = bytes[pos + 3];
        let count: u32 = (b0 as u32) | ((b1 as u32) << 8u32) | ((b2 as u32) << 16u32) | ((
        b3 as u32) << 24u32);
        assert((count & 0xff) as u8 == b0 && ((count >> 8u32) & 0xff) as u8 == b1 && ((count
            >> 16u32) & 0xff) as u8 == b2 && ((count >> 24u32) & 0xff) as u8 == b3) by (bit_vector)
            requires
                count == (b0 as u32) | ((b1 as u32) << 8u32) | ((b2 as u32) << 16u32) | ((
                b3 as u32) << 24u32),
        ;
        assert(bytes@.subrange(pos as int, pos + 4) =~= u32_le(count));
        proof {
            assert forall|x: AuctionInfo|
                x@.len() <= u32::MAX && occurs_at(bytes@, pos as int, #[trigger] x.encoding())
                    implies x@.len() == count && occurs_at(
                    bytes@,
                    pos + 4,
                    allocations_encoding(x@),
                ) by {
                lemma_occurs_concat(bytes@, pos as int, u32_le(x@.len() as u32), allocations_encoding(x@));
                lemma_u32_le_injective(x@.len() as u32, count);
            }
        }
        let mut out: Vec<SeigniorageAllocation> = Vec::new();
        let mut cur: usize = pos + 4;
        let mut i: u32 = 0;
        assert(allocations_encoding(out@) =~= Seq::<u8>::empty());
        assert(bytes@.subrange(pos + 4, pos + 4) =~= Seq::<u8>::empty());
        while i < count
            invariant
                0 <= i <= count,
                out@.len() == i,
                pos + 4 <= len,
                bytes@.len() == len,
                bytes@.subrange(pos as int, pos + 4) == u32_le(count),
                occurs_at(bytes@, pos + 4, allocations_encoding(out@)),
                cur == pos + 4 + allocations_encoding(out@).len(),
                forall|x: AuctionInfo|
                    x@.len() <= u32::MAX && occurs_at(bytes@, pos as int, #[trigger] x.encoding())
                        ==> x@.len() == count && occurs_at(
                        bytes@,
                        pos + 4,
                        allocations_encoding(x@),
                    ) && x@.subrange(0, i as int) == out@,
            decreases count - i,
        {
            proof {
                assert forall|x: AuctionInfo|
                    x@.len() <= u32::MAX && occurs_at(bytes@, pos as int, #[trigger] x.encoding())
                        implies occurs_at(bytes@, cur as int, x@[i as int].encoding()) by {
                    lemma_allocations_split(x@, i as int);
                    let pre = allocations_encoding(x@.subrange(0, i as int));
                    let post = allocations_encoding(x@.subrange(i + 1, x@.len() as int));
                    lemma_occurs_concat(bytes@, pos + 4, pre + x@[i as int].encoding(), post);
                    lemma_occurs_concat(bytes@, pos + 4, pre, x@[i as int].encoding());
                }
            }
            let (a, end) = match SeigniorageAllocation::read_bytes(bytes, cur) {
                Ok(x) => x,
                Err(e) => {
                    return Err(e);
                },
            };
            let ghost old_out = out@;
            out.push(a);
            proof {
                assert(out@.drop_last() =~= old_out);
                lemma_occurs_concat(bytes@, pos + 4, allocations_encoding(old_out), a.encoding());
                assert forall|x: AuctionInfo|
                    x@.len() <= u32::MAX && occurs_at(bytes@, pos as int, #[trigger] x.encoding())
                        implies x@.subrange(0, i + 1) == out@ by {
                    assert(x@.subrange(0, i + 1) =~= x@.subrange(0, i as int).push(x@[i as int]));
                }
            }
            cur = end;
            i += 1;
        }
        let x = AuctionInfo { seigniorage_allocations: out };
        proof {
            lemma_occurs_concat(bytes@, pos as int, u32_le(count), allocations_encoding(x@));
            assert forall|y: AuctionInfo|
                y@.len() <= u32::MAX && occurs_at(bytes@, pos as int, #[trigger] y.encoding())
                    implies y@ == x@ by {
                assert(y@.subrange(0, count as int) =~= y@);
            }
        }
        Ok((x, cur))
    }

    /// Decodes an `AuctionInfo` from the front of `bytes`, and returns it with
    /// the bytes that follow its encoding.
    pub fn from_bytes(bytes: &[u8]) -> (r: Result<(AuctionInfo, &[u8]), Error>)
        ensures
            match r {
                Ok((x, rem)) => x@.len() <= u32::MAX && bytes@ == x.encoding() + rem@,
                Err(_) => forall|x: AuctionInfo|
                    x@.len() <= u32::MAX ==> !occurs_at(bytes@, 0, #[trigger] x.encoding()),
            },
            forall|x: AuctionInfo|
                x@.len() <= u32::MAX && occurs_at(bytes@, 0, #[trigger] x.encoding()) ==> r is Ok
                    && r->Ok_0.0@ == x@,
            bytes@.len() < 4 ==> r == Err::<(AuctionInfo, &[u8]), Error>(Error::EarlyEndOfStream),
    {
        match AuctionInfo::read_bytes(bytes, 0) {
            Ok((x, end)) => {
                let rem = vstd::slice::slice_subrange(bytes, end, bytes.len());
                assert(bytes@ =~= bytes@.subrange(0, end as int) + rem@);
                Ok((x, rem))
            },
            Err(e) => Err(e),
        }
    }

    /// The canonical encoding.
    pub fn to_bytes(&self) -> (r: Vec<u8>)
        requires
            self@.len() <= u32::MAX,
        ensures
            r@ == self.encoding(),
    {
        let n = self.seigniorage_allocations.len() as u32;
        let mut out: Vec<u8> = Vec::new();
        out.push((n & 0xff) as u8);
        out.push(((n >> 8u32) & 0xff) as u8);
        out.push(((n >> 16u32) & 0xff) as u8);
        out.push(((n >> 24u32) & 0xff) as u8);
        assert(out@ =~= u32_le(n));
        let mut i: usize = 0;
        while i < self.seigniorage_allocations.len()
            invariant
                0 <= i <= self@.len(),
                out@ == u32_le(n) + allocations_encoding(self@.subrange(0, i as int)),
            decreases self@.len() - i,
        {
            assert(self@.subrange(0, i + 1).drop_last() =~= self@.subrange(0, i as int));
            self.seigniorage_allocations[i].write_bytes(&mut out);
            i += 1;
            assert(out@ =~= u32_le(n) + allocations_encoding(self@.subrange(0, i as int)));
        }
        assert(self@.subrange(0, self@.len() as int) =~= self@);
        out
    }
}

impl Default for AuctionInfo {
    fn default() -> (r: AuctionInfo)
        ensures
            r@ == Seq::<SeigniorageAllocation>::empty(),
    {
        AuctionInfo::new()
    }
}

/// Decoding an allocation's encoding followed by any bytes finds that
/// allocation and no other, and stops where its encoding ends.
pub proof fn lemma_allocation_round_trip(a: SeigniorageAllocation, rest: Seq<u8>)
    ensures
        occurs_at(a.encoding() + rest, 0, a.encoding()),
        forall|b: SeigniorageAllocation|
            occurs_at(a.encoding() + rest, 0, #[trigger] b.encoding()) ==> b == a,
        (a.encoding() + rest).subrange(
            a.encoding().len() as int,
            (a.encoding() + rest).len() as int,
        ) == rest,
{
    let bytes = a.encoding() + rest;
    assert(bytes.subrange(0, a.encoding().len() as int) =~= a.encoding());
    assert(bytes.subrange(a.encoding().len() as int, bytes.len() as int) =~= rest);
    lemma_occurs_allocation(bytes, 0, a);
    assert forall|b: SeigniorageAllocation| occurs_at(bytes, 0, #[trigger] b.encoding()) implies b
        == a by {
        lemma_occurs_allocation(bytes, 0, b);
        match (a, b) {
            (
                SeigniorageAllocation::Validator { validator_public_key: k, amount: m },
                SeigniorageAllocation::Validator { validator_public_key: k2, amount: m2 },
            ) => {
                lemma_only_key_at(bytes, 1, k);
                lemma_round_trip(m, bytes, 1 + k@.len() as int);
            },
            (
                SeigniorageAllocation::Delegator {
                    delegator_public_key: d,
                    validator_public_key: v,
                    amount: m,
                },
                SeigniorageAllocation::Delegator {
                    delegator_public_key: d2,
                    validator_public_key: v2,
                    amount: m2,
                },
            ) => {
                lemma_only_key_at(bytes, 1, d);
                lemma_only_key_at(bytes, 1 + d@.len() as int, v);
                lemma_round_trip(m, bytes, 1 + d@.len() + v@.len() as int);
            },
            _ => {},
        }
    }
}

/// An `AuctionInfo`'s encoding followed by any bytes holds that encoding at
/// the front, and what follows it is the rest; decoding there gives back the
/// same allocations (see `AuctionInfo::from_bytes`).
pub proof fn lemma_auction_info_round_trip(x: AuctionInfo, rest: Seq<u8>)
    requires
        x@.len() <= u32::MAX,
    ensures
        occurs_at(x.encoding() + rest, 0, x.encoding()),
        (x.encoding() + rest).subrange(
            x.encoding().len() as int,
            (x.encoding() + rest).len() as int,
        ) == rest,
{
    let bytes = x.encoding() + rest;
    assert(bytes.subrange(0, x.encoding().len() as int) =~= x.encoding());
    assert(bytes.subrange(x.encoding().len() as int, bytes.len() as int) =~= rest);
}

} // verus!
