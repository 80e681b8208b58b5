//! FNV-1 and FNV-1a rolling hashes, monomorphic over 32- and 64-bit
//! register widths through the `FnvHasher` trait; the register is
//! serialized in little-endian byte order.

use vstd::prelude::*;
use crate::hash::Digest;
use crate::words::{w32, w64, le32_bytes, le64_bytes, push_le32, push_le64};

verus! {

/// A register width usable by the FNV family: its prime and offset basis,
/// and the word operations of one update step.
pub trait FnvHasher: Sized + Copy {
    /// The FNV prime of this width.
    spec fn spec_prime() -> Self;

    /// The FNV offset basis of this width.
    spec fn spec_offset() -> Self;

    /// The register after a wraparound multiply by the prime.
    spec fn spec_mul_prime(h: Self) -> Self;

    /// The register with a byte folded in by exclusive or.
    spec fn spec_xor_byte(h: Self, b: u8) -> Self;

    /// The register serialized in little-endian byte order.
    spec fn spec_le_bytes(h: Self) -> Seq<u8>;

    /// The register width in bytes.
    spec fn spec_size() -> nat;

    fn prime() -> (r: Self)
        ensures r == Self::spec_prime(),
    ;

    fn offset() -> (r: Self)
        ensures r == Self::spec_offset(),
    ;

    fn mul_prime(h: Self) -> (r: Self)
        ensures r == Self::spec_mul_prime(h),
    ;

    fn xor_byte(h: Self, b: u8) -> (r: Self)
        ensures r == Self::spec_xor_byte(h, b),
    ;

    fn le_bytes(h: Self) -> (r: Vec<u8>)
        ensures
            r@ == Self::spec_le_bytes(h),
            r@.len() == Self::spec_size(),
    ;

    fn width() -> (r: usize)
        ensures r as nat == Self::spec_size(),
    ;
}

impl FnvHasher for u32 {
    open spec fn spec_prime() -> u32 {
        16777619u32
    }

    open spec fn spec_offset() -> u32 {
        2166136261u32
    }

    open spec fn spec_mul_prime(h: u32) -> u32 {
        w32(h * 16777619)
    }

    open spec fn spec_xor_byte(h: u32, b: u8) -> u32 {
        h ^ (b as u32)
    }

    open spec fn spec_le_bytes(h: u32) -> Seq<u8> {
        le32_bytes(h)
    }

    open spec fn spec_size() -> nat {
        4
    }

    fn prime() -> u32 {
        16777619
    }

    fn offset() -> u32 {
        2166136261
    }

    fn mul_prime(h: u32) -> u32 {
        (((h as u64) * 16777619) % 0x1_0000_0000) as u32
    }

    fn xor_byte(h: u32, b: u8) -> u32 {
        h ^ (b as u32)
    }

    fn le_bytes(h: u32) -> (r: Vec<u8>) {
        let mut r: Vec<u8> = Vec::new();
        push_le32(&mut r, h);
        proof {
            assert(r@ =~= le32_bytes(h));
        }
        r
    }

    fn width() -> usize {
        4
    }
}

impl FnvHasher for u64 {
    open spec fn spec_prime() -> u64 {
        1099511628211u64
    }

    open spec fn spec_offset() -> u64 {
        14695981039346656037u64
    }

    open spec fn spec_mul_prime(h: u64) -> u64 {
        w64(h * 1099511628211)
    }

    open spec fn spec_xor_byte(h: u64, b: u8) -> u64 {
        h ^ (b as u64)
    }

    open spec fn spec_le_bytes(h: u64) -> Seq<u8> {
        le64_bytes(h)
    }

    open spec fn spec_size() -> nat {
        8
    }

    fn prime() -> u64 {
        1099511628211
    }

    fn offset() -> u64 {
        14695981039346656037
    }

    fn mul_prime(h: u64) -> u64 {
        (((h as u128) * 1099511628211) % 0x1_0000_0000_0000_0000) as u64
    }

    fn xor_byte(h: u64, b: u8) -> u64 {
        h ^ (b as u64)
    }

    fn le_bytes(h: u64) -> (r: Vec<u8>) {
        let mut r: Vec<u8> = Vec::new();
        push_le64(&mut r, h);
        proof {
            assert(r@ =~= le64_bytes(h));
        }
        r
    }

    fn width() -> usize {
        8
    }
}

/// The FNV-1 register after absorbing `s`: multiply by the prime, then fold
/// the byte in.
pub open spec fn fnv1_run<T: FnvHasher>(s: Seq<u8>) -> T
    decreases s.len(),
{
    if s.len() == 0 {
        T::spec_offset()
    } else {
        T::spec_xor_byte(T::spec_mul_prime(fnv1_run::<T>(s.drop_last())), s.last())
    }
}

/// The FNV-1a register after absorbing `s`: fold the byte in, then multiply
/// by the prime.
pub open spec fn fnv1a_run<T: FnvHasher>(s: Seq<u8>) -> T
    decreases s.len(),
{
    if s.len() == 0 {
        T::spec_offset()
    } else {
        T::spec_mul_prime(T::spec_xor_byte(fnv1a_run::<T>(s.drop_last()), s.last()))
    }
}

/// A streaming FNV-1 hash over a register of width `T`.
pub struct Fnv1<T: FnvHasher> {
    /// The running register.
    pub h: T,
    /// The bytes submitted since the last reset.
    pub data: Ghost<Seq<u8>>,
}

impl<T: FnvHasher> Fnv1<T> {
    /// A fresh instance, holding the offset basis.
    pub fn new() -> (r: Fnv1<T>)
        ensures
            r.inv(),
            r.data() == Seq::<u8>::empty(),
    {
        Fnv1 { h: T::offset(), data: Ghost(Seq::empty()) }
    }
}

impl<T: FnvHasher> Digest for Fnv1<T> {
    open spec fn inv(&self) -> bool {
        self.h == fnv1_run::<T>(self.data@)
    }

    open spec fn data(&self) -> Seq<u8> {
        self.data@
    }

    open spec fn spec_digest(&self, s: Seq<u8>) -> Seq<u8> {
        T::spec_le_bytes(fnv1_run::<T>(s))
    }

    open spec fn spec_size(&self) -> nat {
        T::spec_size()
    }

    open spec fn spec_block_size(&self) -> nat {
        1
    }

    fn reset(&mut self) {
        self.h = T::offset();
        self.data = Ghost(Seq::empty());
    }

    fn write(&mut self, buf: &[u8]) {
        let ghost d0 = self.data@;
        let mut i: usize = 0;
        while i < buf.len()
            invariant
                i <= buf@.len(),
                self.h == fnv1_run::<T>(d0 + buf@.take(i as int)),
                self.data@ == d0,
            decreases buf@.len() - i,
        {
            let b = buf[i];
            self.h = T::xor_byte(T::mul_prime(self.h), b);
            proof {
                let t = d0 + buf@.take(i + 1);
                assert(t.drop_last() =~= d0 + buf@.take(i as int));
                assert(t.last() == buf@[i as int]);
            }
            i += 1;
        }
        proof {
            assert(d0 + buf@.take(buf@.len() as int) =~= d0 + buf@);
        }
        self.data = Ghost(d0 + buf@);
    }

    fn digest(&self) -> (r: Vec<u8>) {
        let r = T::le_bytes(self.h);
        proof {
            assert(self.spec_size() == T::spec_size());
        }
        r
    }

    fn size(&self) -> usize {
        T::width()
    }

    fn block_size(&self) -> usize {
        1
    }
}

/// A streaming FNV-1a hash over a register of width `T`.
pub struct Fnv1a<T: FnvHasher> {
    /// The running register.
    pub h: T,
    /// The bytes submitted since the last reset.
    pub data: Ghost<Seq<u8>>,
}

impl<T: FnvHasher> Fnv1a<T> {
    /// A fresh instance, holding the offset basis.
    pub fn new() -> (r: Fnv1a<T>)
        ensures
            r.inv(),
            r.data() == Seq::<u8>::empty(),
    {
        Fnv1a { h: T::offset(), data: Ghost(Seq::empty()) }
    }
}

impl<T: FnvHasher> Digest for Fnv1a<T> {
    open spec fn inv(&self) -> bool {
        self.h == fnv1a_run::<T>(self.data@)
    }

    open spec fn data(&self) -> Seq<u8> {
        self.data@
    }

    open spec fn spec_digest(&self, s: Seq<u8>) -> Seq<u8> {
        T::spec_le_bytes(fnv1a_run::<T>(s))
    }

    open spec fn spec_size(&self) -> nat {
        T::spec_size()
    }

    open spec fn spec_block_size(&self) -> nat {
        1
    }

    fn reset(&mut self) {
        self.h = T::offset();
        self.data = Ghost(Seq::empty());
    }

    fn write(&mut self, buf: &[u8]) {
        let ghost d0 = self.data@;
        let mut i: usize = 0;
        while i < buf.len()
            invariant
                i <= buf@.len(),
                self.h == fnv1a_run::<T>(d0 + buf@.take(i as int)),
                self.data@ == d0,
            decreases buf@.len() - i,
        {
            let b = buf[i];
            self.h = T::mul_prime(T::xor_byte(self.h, b));
            proof {
                let t = d0 + buf@.take(i + 1);
                assert(t.drop_last() =~= d0 + buf@.take(i as int));
                assert(t.last() == buf@[i as int]);
            }
            i += 1;
        }
        proof {
            assert(d0 + buf@.take(buf@.len() as int) =~= d0 + buf@);
        }
        self.data = Ghost(d0 + buf@);
    }

    fn digest(&self) -> (r: Vec<u8>) {
        let r = T::le_bytes(self.h);
        proof {
            assert(self.spec_size() == T::spec_size());
        }
        r
    }

    fn size(&self) -> usize {
        T::width()
    }

    fn block_size(&self) -> usize {
        1
    }
}

} // verus!
