use vstd::prelude::*;

use vstd::array::*;

use crate::bytesrepr::{occurs_at, push_all, Error};

verus! {

/// A 32-byte content hash: a global-state root, a block hash, a deploy hash.
#[derive(Clone, Copy, Debug, PartialEq, Eq, PartialOrd, Ord, Hash)]
pub struct Digest(pub [u8; 32]);

/// Compares two byte arrays of one length, byte by byte.
pub fn bytes_equal<const N: usize>(a: &[u8; N], b: &[u8; N]) -> (r: bool)
    ensures
        r == (a@ == b@),
{
    let mut i: usize = 0;
    while i < N
        invariant
            0 <= i <= N,
            a@.len() == N,
            b@.len() == N,
            forall|j: int| 0 <= j < i ==> a@[j] == b@[j],
        decreases N - i,
    {
        if a[i] != b[i] {
            assert(a@[i as int] != b@[i as int]);
            return false;
        }
        i += 1;
    }
    assert(a@ =~= b@);
    true
}

/// Copies `N` bytes of `bytes`, from `pos` on, into an array.
pub fn read_array<const N: usize>(bytes: &[u8], pos: usize) -> (r: [u8; N])
    requires
        pos + N <= bytes@.len(),
    ensures
        r@ == bytes@.subrange(pos as int, pos + N),
{
    let len = bytes.len();
    let mut a: [u8; N] = [0u8; N];
    let mut i: usize = 0;
    while i < N
        invariant
            0 <= i <= N,
            pos + N <= bytes@.len(),
            bytes@.len() == len,
            a@.len() == N,
            forall|j: int| 0 <= j < i ==> a@[j] == bytes@[pos + j],
        decreases N - i,
    {
        a[i] = bytes[pos + i];
        i += 1;
    }
    assert(a@ =~= bytes@.subrange(pos as int, pos + N));
    a
}

impl Digest {
    /// Whether two digests hold the same bytes.
    pub fn equals(&self, other: &Digest) -> (r: bool)
        ensures
            r == (self.0@ == other.0@),
    {
        bytes_equal(&self.0, &other.0)
    }
}

pub const SYSTEM_TAG: u8 = 0;
pub const ED25519_TAG: u8 = 1;
pub const SECP256K1_TAG: u8 = 2;

/// A public key of an account or a validator.
#[derive(Clone, Copy, Debug, PartialEq, Eq, PartialOrd, Ord, Hash)]
pub enum PublicKey {
    System,
    Ed25519([u8; 32]),
    Secp256k1([u8; 33]),
}

impl View for PublicKey {
    /// The canonical encoding: a tag byte, then the key's raw bytes.
    type V = Seq<u8>;

    open spec fn view(&self) -> Seq<u8> {
        match self {
            PublicKey::System => seq![SYSTEM_TAG],
            PublicKey::Ed25519(b) => seq![ED25519_TAG] + b@,
            PublicKey::Secp256k1(b) => seq![SECP256K1_TAG] + b@,
        }
    }
}

/// Two keys with one encoding are one key.
pub proof fn lemma_key_view_injective(k1: PublicKey, k2: PublicKey)
    requires
        k1@ == k2@,
    ensures
        k1 == k2,
{
    match (k1, k2) {
        (PublicKey::Ed25519(a), PublicKey::Ed25519(b)) => {
            assert(a@ =~= k1@.drop_first());
            assert(b@ =~= k2@.drop_first());
            assert(a =~= b);
        },
        (PublicKey::Secp256k1(a), PublicKey::Secp256k1(b)) => {
            assert(a@ =~= k1@.drop_first());
            assert(b@ =~= k2@.drop_first());
            assert(a =~= b);
        },
        _ => {
            assert(k1@[0] == k2@[0]);
        },
    }
}

/// At most one key's encoding starts at `pos`.
pub proof fn lemma_only_key_at(bytes: Seq<u8>, pos: int, k: PublicKey)
    requires
        occurs_at(bytes, pos, k@),
    ensures
        forall|k2: PublicKey| #[trigger] occurs_at(bytes, pos, k2@) ==> k2 == k,
{
    assert forall|k2: PublicKey| #[trigger] occurs_at(bytes, pos, k2@) implies k2 == k by {
        assert(bytes.subrange(pos, pos + k@.len())[0] == k@[0]);
        assert(bytes.subrange(pos, pos + k2@.len())[0] == k2@[0]);
        assert(k2@.len() == k@.len());
        lemma_key_view_injective(k, k2);
    }
}

impl PublicKey {
    /// Whether two keys are the same key.
    pub fn matches(&self, other: &PublicKey) -> (r: bool)
        ensures
            r == (self@ == other@),
    {
        match (self, other) {
            (PublicKey::System, PublicKey::System) => true,
            (PublicKey::Ed25519(a), PublicKey::Ed25519(b)) => {
                let r = bytes_equal(a, b);
                proof {
                    if self@ == other@ {
                        assert(a@ =~= self@.drop_first());
                        assert(b@ =~= other@.drop_first());
                    }
                }
                r
            },
            (PublicKey::Secp256k1(a), PublicKey::Secp256k1(b)) => {
                let r = bytes_equal(a, b);
                proof {
                    if self@ == other@ {
                        assert(a@ =~= self@.drop_first());
                        assert(b@ =~= other@.drop_first());
                    }
                }
                r
            },
            _ => {
                assert(self@[0] != other@[0]);
                false
            },
        }
    }

    /// Decodes the key whose encoding starts at `pos`, and returns it with
    /// the position just past it.
    pub fn read_bytes(bytes: &[u8], pos: usize) -> (r: Result<(PublicKey, usize), Error>)
        requires
            pos <= bytes@.len(),
        ensures
            match r {
                Ok((k, end)) => end == pos + k@.len() && occurs_at(bytes@, pos as int, k@),
                Err(_) => forall|k: PublicKey| !occurs_at(bytes@, pos as int, #[trigger] k@),
            },
            forall|k: PublicKey|
                occurs_at(bytes@, pos as int, #[trigger] k@) ==> r == Ok::<_, Error>(
                    (k, (pos + k@.len()) as usize),
                ),
            pos == bytes@.len() ==> r == Err::<(PublicKey, usize), Error>(Error::EarlyEndOfStream),
            pos < bytes@.len() && bytes@[pos as int] > SECP256K1_TAG ==> r == Err::<
                (PublicKey, usize),
                Error,
            >(Error::Formatting),
    {
        if pos >= bytes.len() {
            proof {
                assert forall|k: PublicKey| !occurs_at(bytes@, pos as int, #[trigger] k@) by {
                    assert(k@.len() >= 1);
                }
            }
            return Err(Error::EarlyEndOfStream);
        }
        let tag = bytes[pos];
        if tag == SYSTEM_TAG {
            let k = PublicKey::System;
            assert(bytes@.subrange(pos as int, pos + 1) =~= k@);
            proof {
                lemma_only_key_at(bytes@, pos as int, k);
            }
            Ok((k, pos + 1))
        } else if tag == ED25519_TAG {
            if bytes.len() - pos - 1 < 32 {
                proof {
                    assert forall|k: PublicKey| !occurs_at(bytes@, pos as int, #[trigger] k@) by {
                        if occurs_at(bytes@, pos as int, k@) {
                            assert(bytes@.subrange(pos as int, pos + k@.len())[0] == k@[0]);
                        }
                    }
                }
                return Err(Error::EarlyEndOfStream);
            }
            let a: [u8; 32] = read_array(bytes, pos + 1);
            let k = PublicKey::Ed25519(a);
            assert(bytes@.subrange(pos as int, pos + 33) =~= k@);
            proof {
                lemma_only_key_at(bytes@, pos as int, k);
            }
            Ok((k, pos + 33))
        } else if tag == SECP256K1_TAG {
            if bytes.len() - pos - 1 < 33 {
                proof {
                    assert forall|k: PublicKey| !occurs_at(bytes@, pos as int, #[trigger] k@) by {
                        if occurs_at(bytes@, pos as int, k@) {
                            assert(bytes@.subrange(pos as int, pos + k@.len())[0] == k@[0]);
                        }
                    }
                }
                return Err(Error::EarlyEndOfStream);
            }
            let a: [u8; 33] = read_array(bytes, pos + 1);
            let k = PublicKey::Secp256k1(a);
            assert(bytes@.subrange(pos as int, pos + 34) =~= k@);
            proof {
                lemma_only_key_at(bytes@, pos as int, k);
            }
            Ok((k, pos + 34))
        } else {
            proof {
                assert forall|k: PublicKey| !occurs_at(bytes@, pos as int, #[trigger] k@) by {
                    if occurs_at(bytes@, pos as int, k@) {
                        assert(bytes@.subrange(pos as int, pos + k@.len())[0] == k@[0]);
                    }
                }
            }
            Err(Error::Formatting)
        }
    }

    /// The length of the key's canonical encoding.
    pub fn serialized_length(&self) -> (r: usize)
        ensures
            r == self@.len(),
            r <= 34,
    {
        match self {
            PublicKey::System => 1,
            PublicKey::Ed25519(_) => 33,
            PublicKey::Secp256k1(_) => 34,
        }
    }

    /// Appends the key's canonical encoding to `out`.
    pub fn write_bytes(&self, out: &mut Vec<u8>)
        ensures
            final(out)@ == old(out)@ + self@,
    {
        match self {
            PublicKey::System => {
                out.push(SYSTEM_TAG);
                assert(final(out)@ =~= old(out)@ + self@);
            },
            PublicKey::Ed25519(b) => {
                out.push(ED25519_TAG);
                push_all(out, b.as_slice());
                assert(final(out)@ =~= old(out)@ + self@);
            },
            PublicKey::Secp256k1(b) => {
                out.push(SECP256K1_TAG);
                push_all(out, b.as_slice());
                assert(final(out)@ =~= old(out)@ + self@);
            },
        }
    }
}

} // verus!
