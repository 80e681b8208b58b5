//! SHA-1: 80-round, five-word block compression over 64-byte blocks, with
//! big-endian word assembly, a 16-to-80 word schedule expansion, big-endian
//! length encoding, and big-endian digest serialization.

use vstd::prelude::*;
use crate::hash::Digest;
use crate::words::{w32, w64, rotl32_spec, rotl32, be32_at, read_be32, be32_bytes, be64_bytes, push_be32, push_be64, pad_zero_count};

verus! {

/// The digest length in bytes.
pub const SIZE: usize = 20;

/// The compression block size in bytes.
pub const BLOCK_SIZE: usize = 64;

/// Word `i` of the 80-word message schedule of a 64-byte block: the first
/// sixteen are parsed big-endian, the rest expand by a one-bit rotation.
pub open spec fn sha1_w(b: Seq<u8>, i: int) -> u32
    recommends b.len() == 64, 0 <= i < 80,
    decreases i,
{
    if i < 16 {
        be32_at(b, 4 * i)
    } else {
        rotl32_spec(sha1_w(b, i - 3) ^ sha1_w(b, i - 8) ^ sha1_w(b, i - 14) ^ sha1_w(b, i - 16), 1)
    }
}

/// The round function over the working registers, by round quartile.
pub open spec fn sha1_f(i: int, b: u32, c: u32, d: u32) -> u32 {
    if i < 20 { (b & c) | (!b & d) }
    else if i < 40 { b ^ c ^ d }
    else if i < 60 { (b & c) | (b & d) | (c & d) }
    else { b ^ c ^ d }
}

/// The round constant, by round quartile.
pub open spec fn sha1_k(i: int) -> u32 {
    if i < 20 { 0x5A827999u32 }
    else if i < 40 { 0x6ED9EBA1u32 }
    else if i < 60 { 0x8F1BBCDCu32 }
    else { 0xCA62C1D6u32 }
}

/// One SHA-1 round: a rotated sum becomes the new `a`, the registers shift
/// down with `b` rotated by thirty bits.
pub open spec fn sha1_round(t: (u32, u32, u32, u32, u32), b: Seq<u8>, i: int) -> (u32, u32, u32, u32, u32)
    recommends b.len() == 64, 0 <= i < 80,
{
    let (a, bb, c, d, e) = t;
    let temp = w32(rotl32_spec(a, 5) + sha1_f(i, bb, c, d) + e + sha1_k(i) + sha1_w(b, i));
    (temp, a, rotl32_spec(bb, 30), c, d)
}

/// The first `n` rounds applied to the working registers.
pub open spec fn sha1_rounds(t: (u32, u32, u32, u32, u32), b: Seq<u8>, n: int) -> (u32, u32, u32, u32, u32)
    decreases n,
{
    if n <= 0 { t } else { sha1_round(sha1_rounds(t, b, n - 1), b, n - 1) }
}

/// One block compression: 80 rounds, then wraparound addition into the
/// chaining words.
pub open spec fn sha1_compress(h: (u32, u32, u32, u32, u32), b: Seq<u8>) -> (u32, u32, u32, u32, u32)
    recommends b.len() == 64,
{
    let (a, bb, c, d, e) = sha1_rounds(h, b, 80);
    (w32(h.0 + a), w32(h.1 + bb), w32(h.2 + c), w32(h.3 + d), w32(h.4 + e))
}

/// The documented initial chaining constants.
pub open spec fn sha1_iv() -> (u32, u32, u32, u32, u32) {
    (0x67452301u32, 0xEFCDAB89u32, 0x98BADCFEu32, 0x10325476u32, 0xC3D2E1F0u32)
}

/// The chaining state after compressing `s`, block by block, from the
/// initial constants; meaningful when `s` is a whole number of blocks.
pub open spec fn sha1_state(s: Seq<u8>) -> (u32, u32, u32, u32, u32)
    decreases s.len(),
{
    if s.len() < 64 {
        sha1_iv()
    } else {
        sha1_compress(sha1_state(s.take(s.len() - 64)), s.skip(s.len() - 64))
    }
}

/// The Merkle–Damgård padding of `s` for SHA-1: 0x80, zeros, then the bit
/// length as a big-endian 64-bit word.
pub open spec fn sha1_pad(s: Seq<u8>) -> Seq<u8> {
    s + seq![0x80u8] + Seq::new(pad_zero_count(s.len() as int) as nat, |i: int| 0u8)
        + be64_bytes(w64(8 * s.len() as int))
}

/// The SHA-1 digest of `s`: the chaining state after compressing the padded
/// message, serialized as five big-endian words.
pub open spec fn sha1(s: Seq<u8>) -> Seq<u8> {
    let (a, b, c, d, e) = sha1_state(sha1_pad(s));
    be32_bytes(a) + be32_bytes(b) + be32_bytes(c) + be32_bytes(d) + be32_bytes(e)
}

/// Compresses the 64-byte block of `buf` starting at `off` into the
/// chaining words.
fn compress(h0: u32, h1: u32, h2: u32, h3: u32, h4: u32, buf: &Vec<u8>, off: usize)
    -> (r: (u32, u32, u32, u32, u32))
    requires
        off + 64 <= buf@.len(),
    ensures
        r == sha1_compress((h0, h1, h2, h3, h4), buf@.subrange(off as int, off as int + 64)),
{
    // Binding the length ties the view's length to a machine word.
    let n = buf.len();
    proof {
        assert(off + 64 <= n);
    }
    let ghost blk = buf@.subrange(off as int, off as int + 64);
    let mut w: Vec<u32> = Vec::new();
    let mut i: usize = 0;
    while i < 16
        invariant
            i <= 16,
            w@.len() == i,
            off + 64 <= buf@.len(),
            buf@.len() <= usize::MAX,
            blk == buf@.subrange(off as int, off as int + 64),
            forall|t: int| 0 <= t < i ==> w@[t] == sha1_w(blk, t),
        decreases 16 - i,
    {
        let x = read_be32(buf, off + 4 * i);
        proof {
            assert(blk[4 * i as int] == buf@[off + 4 * i]);
            assert(blk[4 * i as int + 1] == buf@[off + 4 * i + 1]);
            assert(blk[4 * i as int + 2] == buf@[off + 4 * i + 2]);
            assert(blk[4 * i as int + 3] == buf@[off + 4 * i + 3]);
            assert(x == be32_at(blk, 4 * i as int));
        }
        w.push(x);
        i += 1;
    }
    while i < 80
        invariant
            16 <= i <= 80,
            w@.len() == i,
            forall|t: int| 0 <= t < i ==> w@[t] == sha1_w(blk, t),
        decreases 80 - i,
    {
        let x = w[i - 3] ^ w[i - 8] ^ w[i - 14] ^ w[i - 16];
        let y = rotl32(x, 1);
        proof {
            assert(w@[i - 3] == sha1_w(blk, i as int - 3));
            assert(w@[i - 8] == sha1_w(blk, i as int - 8));
            assert(w@[i - 14] == sha1_w(blk, i as int - 14));
            assert(w@[i - 16] == sha1_w(blk, i as int - 16));
            assert(sha1_w(blk, i as int) == rotl32_spec(
                sha1_w(blk, i as int - 3) ^ sha1_w(blk, i as int - 8)
                    ^ sha1_w(blk, i as int - 14) ^ sha1_w(blk, i as int - 16), 1));
            assert(y == sha1_w(blk, i as int));
        }
        w.push(y);
        i += 1;
    }
    let mut a = h0;
    let mut b = h1;
    let mut c = h2;
    let mut d = h3;
    let mut e = h4;
    let mut i: usize = 0;
    while i < 80
        invariant
            i <= 80,
            w@.len() == 80,
            forall|t: int| 0 <= t < 80 ==> w@[t] == sha1_w(blk, t),
            (a, b, c, d, e) == sha1_rounds((h0, h1, h2, h3, h4), blk, i as int),
        decreases 80 - i,
    {
        let f: u32;
        let k: u32;
        if i < 20 {
            f = (b & c) | (!b & d);
            k = 0x5A827999;
        } else if i < 40 {
            f = b ^ c ^ d;
            k = 0x6ED9EBA1;
        } else if i < 60 {
            f = (b & c) | (b & d) | (c & d);
            k = 0x8F1BBCDC;
        } else {
            f = b ^ c ^ d;
            k = 0xCA62C1D6;
        }
        proof {
            assert(f == sha1_f(i as int, b, c, d));
            assert(k == sha1_k(i as int));
        }
        let ra = rotl32(a, 5);
        let t64: u64 = (ra as u64) + (f as u64) + (e as u64) + (k as u64) + (w[i] as u64);
        let temp: u32 = (t64 % 0x1_0000_0000) as u32;
        let rb = rotl32(b, 30);
        proof {
            assert(temp == w32(rotl32_spec(a, 5) + sha1_f(i as int, b, c, d) + e + sha1_k(i as int)
                + sha1_w(blk, i as int)));
            assert((temp, a, rb, c, d) == sha1_round((a, b, c, d, e), blk, i as int));
            assert(sha1_rounds((h0, h1, h2, h3, h4), blk, i + 1)
                == sha1_round(sha1_rounds((h0, h1, h2, h3, h4), blk, i as int), blk, i as int));
        }
        e = d;
        d = c;
        c = rb;
        b = a;
        a = temp;
        i += 1;
    }
    let r0: u32 = (((h0 as u64) + (a as u64)) % 0x1_0000_0000) as u32;
    let r1: u32 = (((h1 as u64) + (b as u64)) % 0x1_0000_0000) as u32;
    let r2: u32 = (((h2 as u64) + (c as u64)) % 0x1_0000_0000) as u32;
    let r3: u32 = (((h3 as u64) + (d as u64)) % 0x1_0000_0000) as u32;
    let r4: u32 = (((h4 as u64) + (e as u64)) % 0x1_0000_0000) as u32;
    proof {
        assert((r0, r1, r2, r3, r4) == sha1_compress((h0, h1, h2, h3, h4), blk));
    }
    (r0, r1, r2, r3, r4)
}

/// A streaming SHA-1 digest: chaining words, a pending buffer always
/// shorter than one block, and the running total length.
pub struct Sha1 {
    /// The first chaining word.
    pub h0: u32,
    /// The second chaining word.
    pub h1: u32,
    /// The third chaining word.
    pub h2: u32,
    /// The fourth chaining word.
    pub h3: u32,
    /// The fifth chaining word.
    pub h4: u32,
    /// The pending bytes, fewer than one block.
    pub x: Vec<u8>,
    /// The total number of bytes submitted since the last reset.
    pub len: usize,
    /// The bytes submitted since the last reset.
    pub data: Ghost<Seq<u8>>,
}

impl Sha1 {
    /// A fresh instance, equivalent to having written no bytes.
    pub fn new() -> (r: Sha1)
        ensures
            r.inv(),
            r.data() == Seq::<u8>::empty(),
    {
        let r = Sha1 {
            h0: 0x67452301,
            h1: 0xEFCDAB89,
            h2: 0x98BADCFE,
            h3: 0x10325476,
            h4: 0xC3D2E1F0,
            x: Vec::new(),
            len: 0,
            data: Ghost(Seq::empty()),
        };
        proof {
            assert(r.data@.take(0) =~= Seq::<u8>::empty());
            assert(r.data@.skip(0) =~= Seq::<u8>::empty());
        }
        r
    }
}

impl Digest for Sha1 {
    open spec fn inv(&self) -> bool {
        let l = self.data@.len() as int;
        &&& self.len == self.data@.len()
        &&& self.x@ == self.data@.skip(l - (l % 64))
        &&& (self.h0, self.h1, self.h2, self.h3, self.h4) == sha1_state(self.data@.take(l - (l % 64)))
    }

    open spec fn data(&self) -> Seq<u8> {
        self.data@
    }

    open spec fn spec_digest(&self, s: Seq<u8>) -> Seq<u8> {
        sha1(s)
    }

    open spec fn spec_size(&self) -> nat {
        20
    }

    open spec fn spec_block_size(&self) -> nat {
        64
    }

    fn reset(&mut self) {
        self.h0 = 0x67452301;
        self.h1 = 0xEFCDAB89;
        self.h2 = 0x98BADCFE;
        self.h3 = 0x10325476;
        self.h4 = 0xC3D2E1F0;
        self.x = Vec::new();
        self.len = 0;
        self.data = Ghost(Seq::empty());
        proof {
            assert(self.data@.take(0) =~= Seq::<u8>::empty());
            assert(self.data@.skip(0) =~= Seq::<u8>::empty());
        }
    }

    fn write(&mut self, buf: &[u8]) {
        let ghost d0 = self.data@;
        let ghost dn = d0 + buf@;
        let ghost base = d0.len() as int - (d0.len() as int % 64);
        proof {
            vstd::arithmetic::div_mod::lemma_fundamental_div_mod(d0.len() as int, 64);
            vstd::arithmetic::div_mod::lemma_mod_multiples_basic(d0.len() as int / 64, 64);
        }
        let ghost x0 = self.x@;
        let ghost h_in = (self.h0, self.h1, self.h2, self.h3, self.h4);
        let mut i: usize = 0;
        while i < buf.len()
            invariant
                i <= buf@.len(),
                self.x@ == x0 + buf@.take(i as int),
                (self.h0, self.h1, self.h2, self.h3, self.h4) == h_in,
                self.data@ == d0,
                self.len == d0.len(),
            decreases buf@.len() - i,
        {
            let b = buf[i];
            self.x.push(b);
            proof {
                assert(self.x@ =~= x0 + buf@.take(i + 1));
            }
            i += 1;
        }
        proof {
            assert(x0 + buf@.take(buf@.len() as int) =~= x0 + buf@);
            assert(self.x@ =~= dn.skip(base));
        }
        self.len = self.len + buf.len();
        self.data = Ghost(dn);
        proof {
            assert(dn.take(base) =~= d0.take(base));
        }
        let mut p: usize = 0;
        while self.x.len() - p >= 64
            invariant
                0 <= p <= self.x@.len(),
                (base + p) % 64 == 0,
                self.x@ == dn.skip(base),
                self.data@ == dn,
                self.len == dn.len(),
                0 <= base <= dn.len(),
                base + self.x@.len() == dn.len(),
                (self.h0, self.h1, self.h2, self.h3, self.h4) == sha1_state(dn.take(base + p)),
            decreases self.x@.len() - p,
        {
            let (n0, n1, n2, n3, n4) = compress(self.h0, self.h1, self.h2, self.h3, self.h4, &self.x, p);
            proof {
                let t = dn.take(base + p + 64);
                assert(t.take(base + p) =~= dn.take(base + p));
                assert(t.skip(base + p) =~= self.x@.subrange(p as int, p as int + 64));
                assert(sha1_state(t) == sha1_compress(sha1_state(dn.take(base + p)),
                    self.x@.subrange(p as int, p as int + 64)));
                vstd::arithmetic::div_mod::lemma_add_mod_noop(base + p, 64, 64);
            }
            self.h0 = n0;
            self.h1 = n1;
            self.h2 = n2;
            self.h3 = n3;
            self.h4 = n4;
            p += 64;
        }
        let mut rest: Vec<u8> = Vec::new();
        let mut j: usize = p;
        while j < self.x.len()
            invariant
                p <= j <= self.x@.len(),
                rest@ == self.x@.subrange(p as int, j as int),
                self.x@ == dn.skip(base),
                self.data@ == dn,
                self.len == dn.len(),
                0 <= base <= dn.len(),
                base + self.x@.len() == dn.len(),
                (base + p) % 64 == 0,
                (self.h0, self.h1, self.h2, self.h3, self.h4) == sha1_state(dn.take(base + p)),
                self.x@.len() - p < 64,
            decreases self.x@.len() - j,
        {
            let b = self.x[j];
            rest.push(b);
            proof {
                assert(rest@ =~= self.x@.subrange(p as int, j + 1));
            }
            j += 1;
        }
        proof {
            assert(rest@ == self.x@.subrange(p as int, self.x@.len() as int));
        }
        self.x = rest;
        proof {
            let l = dn.len() as int;
            crate::words::lemma_block_split(l, base + p, l - (base + p), 64);
            assert(self.x@ =~= dn.skip(l - (l % 64)));
            assert(dn.take(base + p) == dn.take(l - (l % 64)));
        }
    }

    #[verifier::rlimit(100)]
    fn digest(&self) -> (r: Vec<u8>) {
        let ghost dd = self.data@;
        let ghost l_int = dd.len() as int;
        let ghost full = l_int - (l_int % 64);
        let l = self.len;
        let mut tail: Vec<u8> = Vec::new();
        let mut i: usize = 0;
        while i < self.x.len()
            invariant
                i <= self.x@.len(),
                tail@ == self.x@.take(i as int),
            decreases self.x@.len() - i,
        {
            let b = self.x[i];
            tail.push(b);
            proof {
                assert(tail@ =~= self.x@.take(i + 1));
            }
            i += 1;
        }
        proof {
            assert(self.x@.take(self.x@.len() as int) =~= self.x@);
        }
        tail.push(0x80);
        let padlen: usize = if l % 64 < 56 { 56 - (l % 64) } else { 120 - (l % 64) };
        let ghost zc = pad_zero_count(l_int) as nat;
        let mut z: usize = 1;
        while z < padlen
            invariant
                1 <= z <= padlen,
                padlen == pad_zero_count(l_int) + 1,
                tail@ == self.x@ + seq![0x80u8] + Seq::new((z - 1) as nat, |t: int| 0u8),
            decreases padlen - z,
        {
            tail.push(0);
            proof {
                assert(tail@ =~= self.x@ + seq![0x80u8] + Seq::new(z as nat, |t: int| 0u8));
            }
            z += 1;
        }
        let bits: u64 = (((l as u128) * 8) % 0x1_0000_0000_0000_0000) as u64;
        push_be64(&mut tail, bits);
        let ghost pp = sha1_pad(dd);
        proof {
            assert(bits == w64(8 * dd.len() as int));
            assert(tail@ =~= self.x@ + seq![0x80u8] + Seq::new(zc, |t: int| 0u8)
                + be64_bytes(w64(8 * dd.len() as int)));
            assert(pp =~= dd.take(full) + tail@);
            assert(tail@.len() == (l_int % 64) + 1 + zc + 8);
            assert(tail@.len() == 64 || tail@.len() == 128);
        }
        let st: (u32, u32, u32, u32, u32);
        if tail.len() == 64 {
            st = compress(self.h0, self.h1, self.h2, self.h3, self.h4, &tail, 0);
            proof {
                assert(pp.len() == full + 64);
                assert(pp.take(full) =~= dd.take(full));
                assert(pp.skip(full) =~= tail@.subrange(0, 64));
                assert(sha1_state(pp) == sha1_compress(sha1_state(dd.take(full)), tail@.subrange(0, 64)));
            }
        } else {
            let mid = compress(self.h0, self.h1, self.h2, self.h3, self.h4, &tail, 0);
            st = compress(mid.0, mid.1, mid.2, mid.3, mid.4, &tail, 64);
            proof {
                assert(pp.len() == full + 128);
                let q = pp.take(full + 64);
                assert(q.take(full) =~= dd.take(full));
                assert(q.skip(full) =~= tail@.subrange(0, 64));
                assert(sha1_state(q) == sha1_compress(sha1_state(dd.take(full)), tail@.subrange(0, 64)));
                assert(pp.take(pp.len() - 64) =~= q);
                assert(pp.skip(full + 64) =~= tail@.subrange(64, 128));
                assert(sha1_state(pp) == sha1_compress(sha1_state(q), tail@.subrange(64, 128)));
            }
        }
        let mut r: Vec<u8> = Vec::new();
        push_be32(&mut r, st.0);
        push_be32(&mut r, st.1);
        push_be32(&mut r, st.2);
        push_be32(&mut r, st.3);
        push_be32(&mut r, st.4);
        proof {
            assert(r@ =~= sha1(dd));
            assert(r@.len() == 20);
            assert(self.spec_size() == 20);
        }
        r
    }

    fn size(&self) -> usize {
        SIZE
    }

    fn block_size(&self) -> usize {
        BLOCK_SIZE
    }
}

} // verus!
