use vstd::prelude::*;

verus! {

/// Why a byte string could not be decoded.
#[derive(Clone, Copy, Debug, PartialEq, Eq)]
pub enum Error {
    /// The input ended before the value did.
    EarlyEndOfStream,
    /// A tag or a length that no value encodes to.
    Formatting,
}

/// `pat` occurs in `bytes` starting at `pos`.
pub open spec fn occurs_at(bytes: Seq<u8>, pos: int, pat: Seq<u8>) -> bool {
    &&& 0 <= pos
    &&& pos + pat.len() <= bytes.len()
    &&& bytes.subrange(pos, pos + pat.len()) == pat
}

/// If `a + b` occurs at `pos`, then `a` occurs at `pos` and `b` right after it.
pub proof fn lemma_occurs_concat(bytes: Seq<u8>, pos: int, a: Seq<u8>, b: Seq<u8>)
    ensures
        occurs_at(bytes, pos, a + b) <==> (occurs_at(bytes, pos, a) && occurs_at(
            bytes,
            pos + a.len(),
            b,
        )),
{
    if occurs_at(bytes, pos, a + b) {
        assert(bytes.subrange(pos, pos + a.len()) =~= (a + b).subrange(0, a.len() as int));
        assert((a + b).subrange(0, a.len() as int) =~= a);
        assert(bytes.subrange(pos + a.len(), pos + a.len() + b.len()) =~= (a + b).subrange(
            a.len() as int,
            (a + b).len() as int,
        ));
        assert((a + b).subrange(a.len() as int, (a + b).len() as int) =~= b);
    }
    if occurs_at(bytes, pos, a) && occurs_at(bytes, pos + a.len(), b) {
        assert(bytes.subrange(pos, pos + (a + b).len()) =~= bytes.subrange(pos, pos + a.len())
            + bytes.subrange(pos + a.len(), pos + a.len() + b.len()));
    }
}

/// Appends every byte of `src` to `out`.
pub fn push_all(out: &mut Vec<u8>, src: &[u8])
    ensures
        final(out)@ == old(out)@ + src@,
{
    let mut i: usize = 0;
    while i < src.len()
        invariant
            0 <= i <= src@.len(),
            out@ == old(out)@ + src@.subrange(0, i as int),
        decreases src@.len() - i,
    {
        out.push(src[i]);
        i += 1;
        assert(src@.subrange(0, i as int) =~= src@.subrange(0, i - 1) + seq![src@[i - 1]]);
    }
    assert(src@.subrange(0, src@.len() as int) =~= src@);
}

} // verus!
