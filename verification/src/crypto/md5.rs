//! MD5: 64-round, four-word block compression over 64-byte blocks, with
//! little-endian word assembly, little-endian length encoding, and
//! little-endian digest serialization.

use vstd::prelude::*;
use crate::hash::Digest;
use crate::words::{w32, w64, rotl32_spec, rotl32, le32_at, read_le32, le32_bytes, le64_bytes, push_le32, push_le64, pad_zero_count};

verus! {

/// The digest length in bytes.
pub const SIZE: usize = 16;

/// The compression block size in bytes.
pub const BLOCK_SIZE: usize = 64;

/// The 64 additive round constants, in round order.
pub open spec fn md5_k_seq() -> Seq<u32> {
    seq![
        0xd76aa478u32, 0xe8c7b756u32, 0x242070dbu32, 0xc1bdceeeu32,
        0xf57c0fafu32, 0x4787c62au32, 0xa8304613u32, 0xfd469501u32,
        0x698098d8u32, 0x8b44f7afu32, 0xffff5bb1u32, 0x895cd7beu32,
        0x6b901122u32, 0xfd987193u32, 0xa679438eu32, 0x49b40821u32,
        0xf61e2562u32, 0xc040b340u32, 0x265e5a51u32, 0xe9b6c7aau32,
        0xd62f105du32, 0x02441453u32, 0xd8a1e681u32, 0xe7d3fbc8u32,
        0x21e1cde6u32, 0xc33707d6u32, 0xf4d50d87u32, 0x455a14edu32,
        0xa9e3e905u32, 0xfcefa3f8u32, 0x676f02d9u32, 0x8d2a4c8au32,
        0xfffa3942u32, 0x8771f681u32, 0x6d9d6122u32, 0xfde5380cu32,
        0xa4beea44u32, 0x4bdecfa9u32, 0xf6bb4b60u32, 0xbebfbc70u32,
        0x289b7ec6u32, 0xeaa127fau32, 0xd4ef3085u32, 0x04881d05u32,
        0xd9d4d039u32, 0xe6db99e5u32, 0x1fa27cf8u32, 0xc4ac5665u32,
        0xf4292244u32, 0x432aff97u32, 0xab9423a7u32, 0xfc93a039u32,
        0x655b59c3u32, 0x8f0ccc92u32, 0xffeff47du32, 0x85845dd1u32,
        0x6fa87e4fu32, 0xfe2ce6e0u32, 0xa3014314u32, 0x4e0811a1u32,
        0xf7537e82u32, 0xbd3af235u32, 0x2ad7d2bbu32, 0xeb86d391u32,
    ]
}

/// The per-round left-rotate amount: four values per sixteen-round group.
pub open spec fn md5_shift(i: int) -> u32 {
    if i < 16 {
        if i % 4 == 0 { 7 } else if i % 4 == 1 { 12 } else if i % 4 == 2 { 17 } else { 22 }
    } else if i < 32 {
        if i % 4 == 0 { 5 } else if i % 4 == 1 { 9 } else if i % 4 == 2 { 14 } else { 20 }
    } else if i < 48 {
        if i % 4 == 0 { 4 } else if i % 4 == 1 { 11 } else if i % 4 == 2 { 16 } else { 23 }
    } else {
        if i % 4 == 0 { 6 } else if i % 4 == 1 { 10 } else if i % 4 == 2 { 15 } else { 21 }
    }
}

/// The nonlinear function of round `i` over the working registers.
pub open spec fn md5_f(i: int, b: u32, c: u32, d: u32) -> u32 {
    if i < 16 { (b & c) | (!b & d) }
    else if i < 32 { (d & b) | (!d & c) }
    else if i < 48 { b ^ c ^ d }
    else { c ^ (b | !d) }
}

/// The message-word index of round `i`.
pub open spec fn md5_g(i: int) -> int {
    if i < 16 { i }
    else if i < 32 { (5 * i + 1) % 16 }
    else if i < 48 { (3 * i + 5) % 16 }
    else { (7 * i) % 16 }
}

/// One MD5 round: the classic register shuffle with a rotated sum folded
/// into `b`.
pub open spec fn md5_round(t: (u32, u32, u32, u32), w: Seq<u32>, i: int) -> (u32, u32, u32, u32)
    recommends 0 <= i < 64, w.len() == 16,
{
    let (a, b, c, d) = t;
    let tmp = w32(a + md5_f(i, b, c, d) + md5_k_seq()[i] + w[md5_g(i)]);
    (d, w32(b + rotl32_spec(tmp, md5_shift(i))), b, c)
}

/// The first `n` rounds applied to the working registers.
pub open spec fn md5_rounds(t: (u32, u32, u32, u32), w: Seq<u32>, n: int) -> (u32, u32, u32, u32)
    decreases n,
{
    if n <= 0 { t } else { md5_round(md5_rounds(t, w, n - 1), w, n - 1) }
}

/// The sixteen little-endian message words of a 64-byte block.
pub open spec fn md5_words(b: Seq<u8>) -> Seq<u32>
    recommends b.len() == 64,
{
    Seq::new(16, |i: int| le32_at(b, 4 * i))
}

/// One block compression: 64 rounds, then wraparound addition into the
/// chaining words.
pub open spec fn md5_compress(h: (u32, u32, u32, u32), b: Seq<u8>) -> (u32, u32, u32, u32)
    recommends b.len() == 64,
{
    let (a, bb, c, d) = md5_rounds(h, md5_words(b), 64);
    (w32(h.0 + a), w32(h.1 + bb), w32(h.2 + c), w32(h.3 + d))
}

/// The documented initial chaining constants.
pub open spec fn md5_iv() -> (u32, u32, u32, u32) {
    (0x67452301u32, 0xEFCDAB89u32, 0x98BADCFEu32, 0x10325476u32)
}

/// The chaining state after compressing `s`, block by block, from the
/// initial constants; meaningful when `s` is a whole number of blocks.
pub open spec fn md5_state(s: Seq<u8>) -> (u32, u32, u32, u32)
    decreases s.len(),
{
    if s.len() < 64 {
        md5_iv()
    } else {
        md5_compress(md5_state(s.take(s.len() - 64)), s.skip(s.len() - 64))
    }
}

/// The Merkle–Damgård padding of `s` for MD5: 0x80, zeros, then the bit
/// length as a little-endian 64-bit word.
pub open spec fn md5_pad(s: Seq<u8>) -> Seq<u8> {
    s + seq![0x80u8] + Seq::new(pad_zero_count(s.len() as int) as nat, |i: int| 0u8)
        + le64_bytes(w64(8 * s.len() as int))
}

/// The MD5 digest of `s`: the chaining state after compressing the padded
/// message, serialized as four little-endian words.
pub open spec fn md5(s: Seq<u8>) -> Seq<u8> {
    let (a, b, c, d) = md5_state(md5_pad(s));
    le32_bytes(a) + le32_bytes(b) + le32_bytes(c) + le32_bytes(d)
}

/// The 64 round constants as a vector, in round order.
#[verifier::rlimit(100)]
fn md5_k_table() -> (t: Vec<u32>)
    ensures
        t@ == md5_k_seq(),
        t@.len() == 64,
{
    let mut t: Vec<u32> = Vec::new();
    t.push(0xd76aa478); t.push(0xe8c7b756); t.push(0x242070db); t.push(0xc1bdceee);
    t.push(0xf57c0faf); t.push(0x4787c62a); t.push(0xa8304613); t.push(0xfd469501);
    t.push(0x698098d8); t.push(0x8b44f7af); t.push(0xffff5bb1); t.push(0x895cd7be);
    t.push(0x6b901122); t.push(0xfd987193); t.push(0xa679438e); t.push(0x49b40821);
    t.push(0xf61e2562); t.push(0xc040b340); t.push(0x265e5a51); t.push(0xe9b6c7aa);
    t.push(0xd62f105d); t.push(0x02441453); t.push(0xd8a1e681); t.push(0xe7d3fbc8);
    t.push(0x21e1cde6); t.push(0xc33707d6); t.push(0xf4d50d87); t.push(0x455a14ed);
    t.push(0xa9e3e905); t.push(0xfcefa3f8); t.push(0x676f02d9); t.push(0x8d2a4c8a);
    t.push(0xfffa3942); t.push(0x8771f681); t.push(0x6d9d6122); t.push(0xfde5380c);
    t.push(0xa4beea44); t.push(0x4bdecfa9); t.push(0xf6bb4b60); t.push(0xbebfbc70);
    t.push(0x289b7ec6); t.push(0xeaa127fa); t.push(0xd4ef3085); t.push(0x04881d05);
    t.push(0xd9d4d039); t.push(0xe6db99e5); t.push(0x1fa27cf8); t.push(0xc4ac5665);
    t.push(0xf4292244); t.push(0x432aff97); t.push(0xab9423a7); t.push(0xfc93a039);
    t.push(0x655b59c3); t.push(0x8f0ccc92); t.push(0xffeff47d); t.push(0x85845dd1);
    t.push(0x6fa87e4f); t.push(0xfe2ce6e0); t.push(0xa3014314); t.push(0x4e0811a1);
    t.push(0xf7537e82); t.push(0xbd3af235); t.push(0x2ad7d2bb); t.push(0xeb86d391);
    proof {
        assert(t@ == md5_k_seq());
    }
    t
}

fn md5_shift_x(i: usize) -> (r: u32)
    requires i < 64,
    ensures
        r == md5_shift(i as int),
        1 <= r < 32,
{
    let m = i % 4;
    if i < 16 {
        if m == 0 { 7 } else if m == 1 { 12 } else if m == 2 { 17 } else { 22 }
    } else if i < 32 {
        if m == 0 { 5 } else if m == 1 { 9 } else if m == 2 { 14 } else { 20 }
    } else if i < 48 {
        if m == 0 { 4 } else if m == 1 { 11 } else if m == 2 { 16 } else { 23 }
    } else {
        if m == 0 { 6 } else if m == 1 { 10 } else if m == 2 { 15 } else { 21 }
    }
}

/// Compresses the 64-byte block of `buf` starting at `off` into the
/// chaining words.
fn compress(h0: u32, h1: u32, h2: u32, h3: u32, buf: &Vec<u8>, off: usize) -> (r: (u32, u32, u32, u32))
    requires
        off + 64 <= buf@.len(),
    ensures
        r == md5_compress((h0, h1, h2, h3), buf@.subrange(off as int, off as int + 64)),
{
    // Binding the length ties the view's length to a machine word.
    let n = buf.len();
    proof {
        assert(off + 64 <= n);
    }
    let ghost blk = buf@.subrange(off as int, off as int + 64);
    let k = md5_k_table();
    let mut w: Vec<u32> = Vec::new();
    let mut i: usize = 0;
    while i < 16
        invariant
            i <= 16,
            w@.len() == i,
            off + 64 <= buf@.len(),
            buf@.len() <= usize::MAX,
            blk == buf@.subrange(off as int, off as int + 64),
            forall|t: int| 0 <= t < i ==> w@[t] == le32_at(blk, 4 * t),
        decreases 16 - i,
    {
        let x = read_le32(buf, off + 4 * i);
        proof {
            assert(blk[4 * i as int] == buf@[off + 4 * i]);
            assert(blk[4 * i as int + 1] == buf@[off + 4 * i + 1]);
            assert(blk[4 * i as int + 2] == buf@[off + 4 * i + 2]);
            assert(blk[4 * i as int + 3] == buf@[off + 4 * i + 3]);
            assert(x == le32_at(blk, 4 * i as int));
        }
        w.push(x);
        i += 1;
    }
    let ghost ws = md5_words(blk);
    proof {
        assert(w@ =~= ws);
    }
    let mut a = h0;
    let mut b = h1;
    let mut c = h2;
    let mut d = h3;
    let mut i: usize = 0;
    while i < 64
        invariant
            i <= 64,
            w@ == ws,
            w@.len() == 16,
            k@ == md5_k_seq(),
            k@.len() == 64,
            (a, b, c, d) == md5_rounds((h0, h1, h2, h3), ws, i as int),
        decreases 64 - i,
    {
        let f: u32;
        let g: usize;
        if i < 16 {
            f = (b & c) | (!b & d);
            g = i;
        } else if i < 32 {
            f = (d & b) | (!d & c);
            g = (5 * i + 1) % 16;
        } else if i < 48 {
            f = b ^ c ^ d;
            g = (3 * i + 5) % 16;
        } else {
            f = c ^ (b | !d);
            g = (7 * i) % 16;
        }
        proof {
            assert(f == md5_f(i as int, b, c, d));
            assert(g as int == md5_g(i as int));
        }
        let tmp64: u64 = (a as u64) + (f as u64) + (k[i] as u64) + (w[g] as u64);
        let tmp: u32 = (tmp64 % 0x1_0000_0000) as u32;
        let s = md5_shift_x(i);
        let rot = rotl32(tmp, s);
        let nb64: u64 = (b as u64) + (rot as u64);
        let nb: u32 = (nb64 % 0x1_0000_0000) as u32;
        proof {
            assert(tmp == w32(a + md5_f(i as int, b, c, d) + md5_k_seq()[i as int] + ws[md5_g(i as int)]));
            assert((d, nb, b, c) == md5_round((a, b, c, d), ws, i as int));
            assert(md5_rounds((h0, h1, h2, h3), ws, i + 1)
                == md5_round(md5_rounds((h0, h1, h2, h3), ws, i as int), ws, i as int));
        }
        let oldd = d;
        d = c;
        c = b;
        b = nb;
        a = oldd;
        i += 1;
    }
    let r0: u32 = (((h0 as u64) + (a as u64)) % 0x1_0000_0000) as u32;
    let r1: u32 = (((h1 as u64) + (b as u64)) % 0x1_0000_0000) as u32;
    let r2: u32 = (((h2 as u64) + (c as u64)) % 0x1_0000_0000) as u32;
    let r3: u32 = (((h3 as u64) + (d as u64)) % 0x1_0000_0000) as u32;
    proof {
        assert((r0, r1, r2, r3) == md5_compress((h0, h1, h2, h3), blk));
    }
    (r0, r1, r2, r3)
}

/// A streaming MD5 digest: chaining words, a pending buffer always shorter
/// than one block, and the running total length.
pub struct Md5 {
    /// The first chaining word.
    pub h0: u32,
    /// The second chaining word.
    pub h1: u32,
    /// The third chaining word.
    pub h2: u32,
    /// The fourth chaining word.
    pub h3: u32,
    /// The pending bytes, fewer than one block.
    pub x: Vec<u8>,
    /// The total number of bytes submitted since the last reset.
    pub len: usize,
    /// The bytes submitted since the last reset.
    pub data: Ghost<Seq<u8>>,
}

impl Md5 {
    /// A fresh instance, equivalent to having written no bytes.
    pub fn new() -> (r: Md5)
        ensures
            r.inv(),
            r.data() == Seq::<u8>::empty(),
    {
        let r = Md5 {
            h0: 0x67452301,
            h1: 0xEFCDAB89,
            h2: 0x98BADCFE,
            h3: 0x10325476,
            x: Vec::new(),
            len: 0,
            data: Ghost(Seq::empty()),
        };
        proof {
            assert(r.data@.take(0) =~= Seq::<u8>::empty());
            assert(r.data@.skip(0) =~= Seq::<u8>::empty());
        }
        r
    }
}

impl Digest for Md5 {
    open spec fn inv(&self) -> bool {
        let l = self.data@.len() as int;
        &&& self.len == self.data@.len()
        &&& self.x@ == self.data@.skip(l - (l % 64))
        &&& (self.h0, self.h1, self.h2, self.h3) == md5_state(self.data@.take(l - (l % 64)))
    }

    open spec fn data(&self) -> Seq<u8> {
        self.data@
    }

    open spec fn spec_digest(&self, s: Seq<u8>) -> Seq<u8> {
        md5(s)
    }

    open spec fn spec_size(&self) -> nat {
        16
    }

    open spec fn spec_block_size(&self) -> nat {
        64
    }

    fn reset(&mut self) {
        self.h0 = 0x67452301;
        self.h1 = 0xEFCDAB89;
        self.h2 = 0x98BADCFE;
        self.h3 = 0x10325476;
        self.x = Vec::new();
        self.len = 0;
        self.data = Ghost(Seq::empty());
        proof {
            assert(self.data@.take(0) =~= Seq::<u8>::empty());
            assert(self.data@.skip(0) =~= Seq::<u8>::empty());
        }
    }

    fn write(&mut self, buf: &[u8]) {
        let ghost d0 = self.data@;
        let ghost dn = d0 + buf@;
        let ghost base = d0.len() as int - (d0.len() as int % 64);
        proof {
            vstd::arithmetic::div_mod::lemma_fundamental_div_mod(d0.len() as int, 64);
            vstd::arithmetic::div_mod::lemma_mod_multiples_basic(d0.len() as int / 64, 64);
        }
        let ghost x0 = self.x@;
        let ghost h_in = (self.h0, self.h1, self.h2, self.h3);
        let mut i: usize = 0;
        while i < buf.len()
            invariant
                i <= buf@.len(),
                self.x@ == x0 + buf@.take(i as int),
                (self.h0, self.h1, self.h2, self.h3) == h_in,
                self.data@ == d0,
                self.len == d0.len(),
            decreases buf@.len() - i,
        {
            let b = buf[i];
            self.x.push(b);
            proof {
                assert(self.x@ =~= x0 + buf@.take(i + 1));
            }
            i += 1;
        }
        proof {
            assert(x0 + buf@.take(buf@.len() as int) =~= x0 + buf@);
            assert(self.x@ =~= dn.skip(base));
        }
        self.len = self.len + buf.len();
        self.data = Ghost(dn);
        proof {
            assert(dn.take(base) =~= d0.take(base));
        }
        let mut p: usize = 0;
        while self.x.len() - p >= 64
            invariant
                0 <= p <= self.x@.len(),
                (base + p) % 64 == 0,
                self.x@ == dn.skip(base),
                self.data@ == dn,
                self.len == dn.len(),
                0 <= base <= dn.len(),
                base + self.x@.len() == dn.len(),
                (self.h0, self.h1, self.h2, self.h3) == md5_state(dn.take(base + p)),
            decreases self.x@.len() - p,
        {
            let (n0, n1, n2, n3) = compress(self.h0, self.h1, self.h2, self.h3, &self.x, p);
            proof {
                let t = dn.take(base + p + 64);
                assert(t.take(base + p) =~= dn.take(base + p));
                assert(t.skip(base + p) =~= self.x@.subrange(p as int, p as int + 64));
                assert(md5_state(t) == md5_compress(md5_state(dn.take(base + p)),
                    self.x@.subrange(p as int, p as int + 64)));
                vstd::arithmetic::div_mod::lemma_add_mod_noop(base + p, 64, 64);
            }
            self.h0 = n0;
            self.h1 = n1;
            self.h2 = n2;
            self.h3 = n3;
            p += 64;
        }
        let mut rest: Vec<u8> = Vec::new();
        let mut j: usize = p;
        while j < self.x.len()
            invariant
                p <= j <= self.x@.len(),
                rest@ == self.x@.subrange(p as int, j as int),
                self.x@ == dn.skip(base),
                self.data@ == dn,
                self.len == dn.len(),
                0 <= base <= dn.len(),
                base + self.x@.len() == dn.len(),
                (base + p) % 64 == 0,
                (self.h0, self.h1, self.h2, self.h3) == md5_state(dn.take(base + p)),
                self.x@.len() - p < 64,
            decreases self.x@.len() - j,
        {
            let b = self.x[j];
            rest.push(b);
            proof {
                assert(rest@ =~= self.x@.subrange(p as int, j + 1));
            }
            j += 1;
        }
        proof {
            assert(rest@ == self.x@.subrange(p as int, self.x@.len() as int));
        }
        self.x = rest;
        proof {
            let l = dn.len() as int;
            crate::words::lemma_block_split(l, base + p, l - (base + p), 64);
            assert(self.x@ =~= dn.skip(l - (l % 64)));
            assert(dn.take(base + p) == dn.take(l - (l % 64)));
        }
    }

    #[verifier::rlimit(100)]
    fn digest(&self) -> (r: Vec<u8>) {
        let ghost dd = self.data@;
        let ghost l_int = dd.len() as int;
        let ghost full = l_int - (l_int % 64);
        let l = self.len;
        let mut tail: Vec<u8> = Vec::new();
        let mut i: usize = 0;
        while i < self.x.len()
            invariant
                i <= self.x@.len(),
                tail@ == self.x@.take(i as int),
            decreases self.x@.len() - i,
        {
            let b = self.x[i];
            tail.push(b);
            proof {
                assert(tail@ =~= self.x@.take(i + 1));
            }
            i += 1;
        }
        proof {
            assert(self.x@.take(self.x@.len() as int) =~= self.x@);
        }
        tail.push(0x80);
        let padlen: usize = if l % 64 < 56 { 56 - (l % 64) } else { 120 - (l % 64) };
        let ghost zc = pad_zero_count(l_int) as nat;
        let mut z: usize = 1;
        while z < padlen
            invariant
                1 <= z <= padlen,
                padlen == pad_zero_count(l_int) + 1,
                tail@ == self.x@ + seq![0x80u8] + Seq::new((z - 1) as nat, |t: int| 0u8),
            decreases padlen - z,
        {
            tail.push(0);
            proof {
                assert(tail@ =~= self.x@ + seq![0x80u8] + Seq::new(z as nat, |t: int| 0u8));
            }
            z += 1;
        }
        let bits: u64 = (((l as u128) * 8) % 0x1_0000_0000_0000_0000) as u64;
        push_le64(&mut tail, bits);
        let ghost pp = md5_pad(dd);
        proof {
            assert(bits == w64(8 * dd.len() as int));
            assert(tail@ =~= self.x@ + seq![0x80u8] + Seq::new(zc, |t: int| 0u8)
                + le64_bytes(w64(8 * dd.len() as int)));
            assert(pp =~= dd.take(full) + tail@);
            assert(tail@.len() == (l_int % 64) + 1 + zc + 8);
            assert(tail@.len() == 64 || tail@.len() == 128);
        }
        let st: (u32, u32, u32, u32);
        if tail.len() == 64 {
            st = compress(self.h0, self.h1, self.h2, self.h3, &tail, 0);
            proof {
                assert(pp.len() == full + 64);
                assert(pp.take(full) =~= dd.take(full));
                assert(pp.skip(full) =~= tail@.subrange(0, 64));
                assert(md5_state(pp) == md5_compress(md5_state(dd.take(full)), tail@.subrange(0, 64)));
            }
        } else {
            let mid = compress(self.h0, self.h1, self.h2, self.h3, &tail, 0);
            st = compress(mid.0, mid.1, mid.2, mid.3, &tail, 64);
            proof {
                assert(pp.len() == full + 128);
                let q = pp.take(full + 64);
                assert(q.take(full) =~= dd.take(full));
                assert(q.skip(full) =~= tail@.subrange(0, 64));
                assert(md5_state(q) == md5_compress(md5_state(dd.take(full)), tail@.subrange(0, 64)));
                assert(pp.take(pp.len() - 64) =~= q);
                assert(pp.skip(full + 64) =~= tail@.subrange(64, 128));
                assert(md5_state(pp) == md5_compress(md5_state(q), tail@.subrange(64, 128)));
            }
        }
        let mut r: Vec<u8> = Vec::new();
        push_le32(&mut r, st.0);
        push_le32(&mut r, st.1);
        push_le32(&mut r, st.2);
        push_le32(&mut r, st.3);
        proof {
            assert(r@ =~= md5(dd));
            assert(r@.len() == 16);
            assert(self.spec_size() == 16);
        }
        r
    }

    fn size(&self) -> usize {
        SIZE
    }

    fn block_size(&self) -> usize {
        BLOCK_SIZE
    }
}

} // verus!
