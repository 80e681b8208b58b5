//! Adler-32 rolling checksum: two running sums modulo 65521, serialized
//! big-endian.

use vstd::prelude::*;
use crate::hash::Digest;
use crate::words::be32_bytes;

verus! {

/// The modulus of both running sums.
pub const ADLER_MOD: u32 = 65521;

/// The digest length in bytes.
pub const SIZE: usize = 4;

/// The pair of running sums after absorbing `s`: the low word starts at 1
/// and accumulates each byte; the high word starts at 0 and accumulates the
/// low word after every byte; both are kept reduced modulo 65521.
pub open spec fn adler_pair(s: Seq<u8>) -> (u32, u32)
    decreases s.len(),
{
    if s.len() == 0 {
        (1u32, 0u32)
    } else {
        let (x, y) = adler_pair(s.drop_last());
        let nx = ((x + s.last()) % (ADLER_MOD as int)) as u32;
        (nx, ((y + nx) % (ADLER_MOD as int)) as u32)
    }
}

/// The Adler-32 checksum of `s`: high sum in the upper half, low sum in the
/// lower half.
pub open spec fn adler_sum(s: Seq<u8>) -> u32 {
    let (x, y) = adler_pair(s);
    (y << 16) | x
}

/// A streaming Adler-32 checksum.
pub struct Adler32 {
    /// The low running sum, reduced modulo 65521.
    pub a: u32,
    /// The high running sum, reduced modulo 65521.
    pub b: u32,
    /// The bytes submitted since the last reset.
    pub data: Ghost<Seq<u8>>,
}

impl Adler32 {
    /// A fresh instance, equivalent to having written no bytes.
    pub fn new() -> (r: Adler32)
        ensures
            r.inv(),
            r.data() == Seq::<u8>::empty(),
    {
        Adler32 { a: 1, b: 0, data: Ghost(Seq::empty()) }
    }
}

/// The Adler-32 checksum of `data`, in one call.
pub fn checksum(data: &[u8]) -> (r: u32)
    ensures
        r == adler_sum(data@),
{
    // Binding the length ties the view's length to a machine word.
    let n = data.len();
    proof {
        assert(data@.len() == n);
    }
    let mut h = Adler32::new();
    h.write(data);
    proof {
        assert(Seq::<u8>::empty() + data@ =~= data@);
    }
    let s = h.b;
    (s << 16) | h.a
}

impl Digest for Adler32 {
    open spec fn inv(&self) -> bool {
        &&& (self.a, self.b) == adler_pair(self.data@)
        &&& self.a < ADLER_MOD
        &&& self.b < ADLER_MOD
    }

    open spec fn data(&self) -> Seq<u8> {
        self.data@
    }

    open spec fn spec_digest(&self, s: Seq<u8>) -> Seq<u8> {
        be32_bytes(adler_sum(s))
    }

    open spec fn spec_size(&self) -> nat {
        4
    }

    open spec fn spec_block_size(&self) -> nat {
        1
    }

    fn reset(&mut self) {
        self.a = 1;
        self.b = 0;
        self.data = Ghost(Seq::empty());
    }

    fn write(&mut self, buf: &[u8]) {
        let ghost d0 = self.data@;
        let mut i: usize = 0;
        while i < buf.len()
            invariant
                i <= buf@.len(),
                (self.a, self.b) == adler_pair(d0 + buf@.take(i as int)),
                self.a < ADLER_MOD,
                self.b < ADLER_MOD,
                self.data@ == d0,
            decreases buf@.len() - i,
        {
            self.a = (self.a + buf[i] as u32) % ADLER_MOD;
            self.b = (self.b + self.a) % ADLER_MOD;
            proof {
                let t = d0 + buf@.take(i + 1);
                assert(t.drop_last() =~= d0 + buf@.take(i as int));
                assert(t.last() == buf@[i as int]);
            }
            i += 1;
        }
        proof {
            assert(d0 + buf@.take(buf@.len() as int) =~= d0 + buf@);
        }
        self.data = Ghost(d0 + buf@);
    }

    fn digest(&self) -> (r: Vec<u8>) {
        let s = (self.b << 16) | self.a;
        let mut r: Vec<u8> = Vec::new();
        crate::words::push_be32(&mut r, s);
        proof {
            assert(r@ =~= be32_bytes(adler_sum(self.data@)));
            assert(r@.len() == 4);
            assert(self.spec_size() == 4);
        }
        r
    }

    fn size(&self) -> usize {
        SIZE
    }

    fn block_size(&self) -> usize {
        1
    }
}

} // verus!
