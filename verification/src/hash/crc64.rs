//! Table-driven reflected CRC with a 64-bit register: the same construction
//! and update as the 32-bit engine, widened, with the register serialized
//! big-endian.

use vstd::prelude::*;
use crate::hash::Digest;
use crate::words::be64_bytes;

verus! {

/// The digest length in bytes.
pub const SIZE: usize = 8;

/// Predefined polynomials (reflected form), or a caller-supplied one.
pub enum Crc64Polynomial {
    /// The ISO polynomial.
    ISO,
    /// The ECMA polynomial.
    ECMA,
    /// An arbitrary polynomial constant.
    Custom(u64),
}

/// One right-shift step of the reflected table construction.
pub open spec fn crc64_step(poly: u64, c: u64) -> u64 {
    if c & 1 == 1 { (c >> 1) ^ poly } else { c >> 1 }
}

/// `n` right-shift steps of the reflected table construction.
pub open spec fn crc64_steps(poly: u64, c: u64, n: int) -> u64
    decreases n,
{
    if n <= 0 { c } else { crc64_step(poly, crc64_steps(poly, c, n - 1)) }
}

/// The 256-entry lookup table derived from `poly`: entry `i` is byte value
/// `i` pushed through eight reflected steps.
pub open spec fn crc64_table(poly: u64) -> Seq<u64> {
    Seq::new(256, |i: int| crc64_steps(poly, i as u64, 8))
}

/// One byte of the table-driven reflected update.
pub open spec fn crc64_byte(tab: Seq<u64>, c: u64, b: u8) -> u64
    recommends tab.len() == 256,
{
    tab[((c ^ (b as u64)) & 0xFF) as int] ^ (c >> 8)
}

/// The register after folding every byte of `s` through the table.
pub open spec fn crc64_run(tab: Seq<u64>, c: u64, s: Seq<u8>) -> u64
    decreases s.len(),
{
    if s.len() == 0 { c } else { crc64_run(tab, crc64_byte(tab, c, s[0]), s.drop_first()) }
}

/// The CRC of `s` continued from an un-inverted register `c`: invert in,
/// fold, invert out.
pub open spec fn crc64_sum(tab: Seq<u64>, c: u64, s: Seq<u8>) -> u64 {
    !crc64_run(tab, !c, s)
}

/// Folding a concatenation equals folding the two halves in turn.
pub proof fn lemma_crc64_run_append(tab: Seq<u64>, c: u64, s1: Seq<u8>, s2: Seq<u8>)
    ensures
        crc64_run(tab, c, s1 + s2) == crc64_run(tab, crc64_run(tab, c, s1), s2),
    decreases s1.len(),
{
    if s1.len() == 0 {
        assert(s1 + s2 =~= s2);
    } else {
        assert((s1 + s2)[0] == s1[0]);
        assert((s1 + s2).drop_first() =~= s1.drop_first() + s2);
        lemma_crc64_run_append(tab, crc64_byte(tab, c, s1[0]), s1.drop_first(), s2);
    }
}

/// Folding one more byte extends the run by that byte.
pub proof fn lemma_crc64_run_snoc(tab: Seq<u64>, c: u64, s: Seq<u8>, b: u8)
    ensures
        crc64_run(tab, c, s + seq![b]) == crc64_byte(tab, crc64_run(tab, c, s), b),
{
    lemma_crc64_run_append(tab, c, s, seq![b]);
    let m = crc64_run(tab, c, s);
    assert(seq![b].drop_first() =~= Seq::<u8>::empty());
    assert(seq![b][0] == b);
    assert(crc64_run(tab, m, seq![b])
        == crc64_run(tab, crc64_byte(tab, m, b), Seq::<u8>::empty()));
    assert(crc64_run(tab, crc64_byte(tab, m, b), Seq::<u8>::empty()) == crc64_byte(tab, m, b));
}

impl Crc64Polynomial {
    /// The polynomial constant this variant stands for.
    pub open spec fn spec_poly(&self) -> u64 {
        match *self {
            Crc64Polynomial::ISO => 0xD800000000000000u64,
            Crc64Polynomial::ECMA => 0xC96C5795D7870F42u64,
            Crc64Polynomial::Custom(p) => p,
        }
    }

    pub fn as_u64(&self) -> (r: u64)
        ensures r == self.spec_poly(),
    {
        match *self {
            Crc64Polynomial::ISO => 0xD800000000000000,
            Crc64Polynomial::ECMA => 0xC96C5795D7870F42,
            Crc64Polynomial::Custom(p) => p,
        }
    }

    /// Overwrites `t` with the 256-entry lookup table for this polynomial.
    pub fn make_table_into(&self, t: &mut Vec<u64>)
        ensures final(t)@ == crc64_table(self.spec_poly()),
    {
        let poly = self.as_u64();
        t.clear();
        let mut i: usize = 0;
        while i < 256
            invariant
                i <= 256,
                t@.len() == i,
                forall|k: int| 0 <= k < i ==> t@[k] == crc64_table(poly)[k],
            decreases 256 - i,
        {
            let mut c: u64 = i as u64;
            let mut j: usize = 0;
            while j < 8
                invariant
                    j <= 8,
                    c == crc64_steps(poly, i as u64, j as int),
                decreases 8 - j,
            {
                if c & 1 == 1 {
                    c = (c >> 1) ^ poly;
                } else {
                    c = c >> 1;
                }
                j += 1;
            }
            t.push(c);
            i += 1;
        }
        proof {
            assert(t@ =~= crc64_table(poly));
        }
    }

    /// The freshly built 256-entry lookup table for this polynomial.
    pub fn make_table(&self) -> (t: Vec<u64>)
        ensures t@ == crc64_table(self.spec_poly()),
    {
        let mut t: Vec<u64> = Vec::new();
        self.make_table_into(&mut t);
        t
    }
}

/// Continues the CRC in `crc` over the bytes of `p`, using a 256-entry
/// lookup table.
pub fn update(crc: u64, tab: &Vec<u64>, p: &[u8]) -> (r: u64)
    requires
        tab@.len() == 256,
    ensures
        r == crc64_sum(tab@, crc, p@),
{
    let mut c = !crc;
    let mut i: usize = 0;
    while i < p.len()
        invariant
            i <= p@.len(),
            tab@.len() == 256,
            c == crc64_run(tab@, !crc, p@.take(i as int)),
        decreases p@.len() - i,
    {
        let b = p[i];
        proof {
            assert(((c ^ (b as u64)) & 0xFF) < 256) by (bit_vector);
            assert(p@.take(i as int) + seq![b] =~= p@.take(i + 1));
            lemma_crc64_run_snoc(tab@, !crc, p@.take(i as int), b);
        }
        let idx = ((c ^ (b as u64)) & 0xFF) as usize;
        c = tab[idx] ^ (c >> 8);
        i += 1;
    }
    proof {
        assert(p@.take(p@.len() as int) =~= p@);
    }
    !c
}

/// A streaming CRC with a 64-bit register.
pub struct Crc64 {
    /// The running CRC, stored un-inverted.
    pub crc: u64,
    /// The 256-entry lookup table, immutable for the life of the instance.
    pub tab: Vec<u64>,
    /// The polynomial the table was built from.
    pub poly: Ghost<u64>,
    /// The bytes submitted since the last reset.
    pub data: Ghost<Seq<u8>>,
}

impl Crc64 {
    /// A fresh instance for the given polynomial.
    pub fn new(poly: Crc64Polynomial) -> (r: Crc64)
        ensures
            r.inv(),
            r.data() == Seq::<u8>::empty(),
            r.poly@ == poly.spec_poly(),
    {
        let t = poly.make_table();
        proof {
            assert(!(!0u64) == 0u64) by (bit_vector);
        }
        Crc64 { crc: 0, tab: t, poly: Ghost(poly.spec_poly()), data: Ghost(Seq::empty()) }
    }
}

impl Digest for Crc64 {
    open spec fn inv(&self) -> bool {
        &&& self.tab@ == crc64_table(self.poly@)
        &&& self.crc == crc64_sum(self.tab@, 0, self.data@)
    }

    open spec fn data(&self) -> Seq<u8> {
        self.data@
    }

    open spec fn spec_digest(&self, s: Seq<u8>) -> Seq<u8> {
        be64_bytes(crc64_sum(crc64_table(self.poly@), 0, s))
    }

    open spec fn spec_size(&self) -> nat {
        8
    }

    open spec fn spec_block_size(&self) -> nat {
        1
    }

    fn reset(&mut self) {
        self.crc = 0;
        self.data = Ghost(Seq::empty());
        proof {
            assert(!(!0u64) == 0u64) by (bit_vector);
        }
    }

    fn write(&mut self, buf: &[u8]) {
        let c = self.crc;
        let r = update(c, &self.tab, buf);
        proof {
            let tab = self.tab@;
            let run0 = crc64_run(tab, !0u64, self.data@);
            assert(!(!run0) == run0) by (bit_vector);
            lemma_crc64_run_append(tab, !0u64, self.data@, buf@);
        }
        self.crc = r;
        self.data = Ghost(self.data@ + buf@);
    }

    fn digest(&self) -> (r: Vec<u8>) {
        let mut r: Vec<u8> = Vec::new();
        crate::words::push_be64(&mut r, self.crc);
        proof {
            assert(r@ =~= be64_bytes(crc64_sum(crc64_table(self.poly@), 0, self.data@)));
            assert(r@.len() == 8);
            assert(self.spec_size() == 8);
        }
        r
    }

    fn size(&self) -> usize {
        SIZE
    }

    fn block_size(&self) -> usize {
        1
    }
}

/// The CRC of `data` from a zero register, using a prebuilt table.
pub fn checksum(data: &[u8], tab: &Vec<u64>) -> (r: u64)
    requires
        tab@.len() == 256,
    ensures
        r == crc64_sum(tab@, 0, data@),
{
    update(0, tab, data)
}

} // verus!
