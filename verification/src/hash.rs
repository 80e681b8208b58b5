//! The common streaming-digest contract, and the laws that every
//! implementation obeys by construction.

pub mod adler32;
pub mod crc32;
pub mod crc64;
pub mod fnv;

use vstd::prelude::*;
use crate::words::hex_of;
use crate::words::to_hex;

verus! {

/// The streaming contract shared by every digest in this crate.
///
/// The abstract state of an instance is `data()`, the exact byte sequence
/// submitted since the last `reset` (or construction), together with the
/// fixed configuration captured by `spec_digest`. `write` appends to
/// `data()` and nothing else, so the digest of a sequence is independent of
/// how it was chunked across calls; `digest` borrows the instance immutably
/// and is a pure function of `data()`, so peeking at the digest never
/// disturbs pending state.
pub trait Digest: Sized {
    /// The instance's internal invariant.
    spec fn inv(&self) -> bool;

    /// The bytes submitted since the last reset.
    spec fn data(&self) -> Seq<u8>;

    /// The digest this instance computes for a given submitted sequence.
    spec fn spec_digest(&self, s: Seq<u8>) -> Seq<u8>;

    /// The digest length in bytes.
    spec fn spec_size(&self) -> nat;

    /// The internal block size in bytes.
    spec fn spec_block_size(&self) -> nat;

    /// Returns to the documented initial state: no bytes accumulated, the
    /// configuration (and so the digest function) unchanged.
    fn reset(&mut self)
        requires
            old(self).inv(),
        ensures
            final(self).inv(),
            final(self).data() == Seq::<u8>::empty(),
            forall|s: Seq<u8>| #[trigger] final(self).spec_digest(s) == old(self).spec_digest(s),
            final(self).spec_size() == old(self).spec_size(),
            final(self).spec_block_size() == old(self).spec_block_size(),
    ;

    /// Appends `buf` to the accumulated bytes; order-preserving and
    /// chunk-size independent.
    fn write(&mut self, buf: &[u8])
        requires
            old(self).inv(),
            old(self).data().len() + buf@.len() <= usize::MAX,
        ensures
            final(self).inv(),
            final(self).data() == old(self).data() + buf@,
            forall|s: Seq<u8>| #[trigger] final(self).spec_digest(s) == old(self).spec_digest(s),
            final(self).spec_size() == old(self).spec_size(),
            final(self).spec_block_size() == old(self).spec_block_size(),
    ;

    /// The digest of the bytes accumulated so far; non-mutating.
    fn digest(&self) -> (r: Vec<u8>)
        requires
            self.inv(),
        ensures
            r@ == self.spec_digest(self.data()),
            r@.len() == self.spec_size(),
    ;

    /// The fixed digest length in bytes.
    fn size(&self) -> (r: usize)
        ensures
            r as nat == self.spec_size(),
    ;

    /// The fixed internal block size in bytes.
    fn block_size(&self) -> (r: usize)
        ensures
            r as nat == self.spec_block_size(),
    ;

    /// Lowercase hexadecimal rendering of `digest()`, two characters per
    /// byte; non-mutating.
    fn hexdigest(&self) -> (r: String)
        requires
            self.inv(),
        ensures
            r@ == hex_of(self.spec_digest(self.data())),
    {
        let d = self.digest();
        to_hex(&d)
    }
}

/// The sequence accumulated after writing the pieces of `parts`, in order,
/// to an instance holding `d0`.
pub open spec fn written(d0: Seq<u8>, parts: Seq<Seq<u8>>) -> Seq<u8>
    decreases parts.len(),
{
    if parts.len() == 0 {
        d0
    } else {
        written(d0 + parts[0], parts.drop_first())
    }
}

/// Chunking invariance: writing the consecutive pieces of a partition one
/// call at a time accumulates exactly their concatenation, so by the
/// `digest` contract the digest of chunked writes equals the digest of the
/// whole sequence written at once.
pub proof fn lemma_chunking_invariance(d0: Seq<u8>, parts: Seq<Seq<u8>>)
    ensures
        written(d0, parts) == d0 + parts.flatten(),
    decreases parts.len(),
{
    if parts.len() == 0 {
        assert(parts.flatten() == Seq::<u8>::empty());
        assert(written(d0, parts) =~= d0 + parts.flatten());
    } else {
        lemma_chunking_invariance(d0 + parts[0], parts.drop_first());
        assert((d0 + parts[0]) + parts.drop_first().flatten()
            =~= d0 + (parts[0] + parts.drop_first().flatten()));
    }
}

/// Reset idempotence: an instance that has been reset and a freshly
/// constructed instance of the same configuration are indistinguishable by
/// the digest of any subsequent input.
pub proof fn lemma_reset_indistinguishable<H: Digest>(a: H, b: H, s: Seq<u8>)
    requires
        a.data() == Seq::<u8>::empty(),
        b.data() == Seq::<u8>::empty(),
        forall|t: Seq<u8>| #[trigger] a.spec_digest(t) == b.spec_digest(t),
    ensures
        a.spec_digest(a.data() + s) == b.spec_digest(b.data() + s),
{
    assert(a.data() + s =~= b.data() + s);
}

} // verus!
