//! Table-driven reflected CRC with a 32-bit register: a 256-entry table is
//! built from the polynomial at construction, bytes are folded through it
//! with the standard invert-in/invert-out convention, and the register is
//! serialized big-endian.

use vstd::prelude::*;
use crate::hash::Digest;
use crate::words::be32_bytes;

verus! {

/// The digest length in bytes.
pub const SIZE: usize = 4;

/// Predefined polynomials (reflected form), or a caller-supplied one.
pub enum Crc32Polynomial {
    /// Far and away the most common CRC-32 polynomial: ethernet, gzip, zip,
    /// png, mpeg-2, ...
    IEEE,
    /// Castagnoli's polynomial, used in iSCSI.
    Castagnoli,
    /// Koopman's polynomial.
    Koopman,
    /// An arbitrary polynomial constant.
    Custom(u32),
}

/// One right-shift step of the reflected table construction.
pub open spec fn crc32_step(poly: u32, c: u32) -> u32 {
    if c & 1 == 1 { (c >> 1) ^ poly } else { c >> 1 }
}

/// `n` right-shift steps of the reflected table construction.
pub open spec fn crc32_steps(poly: u32, c: u32, n: int) -> u32
    decreases n,
{
    if n <= 0 { c } else { crc32_step(poly, crc32_steps(poly, c, n - 1)) }
}

/// The 256-entry lookup table derived from `poly`: entry `i` is byte value
/// `i` pushed through eight reflected steps.
pub open spec fn crc32_table(poly: u32) -> Seq<u32> {
    Seq::new(256, |i: int| crc32_steps(poly, i as u32, 8))
}

/// One byte of the table-driven reflected update.
pub open spec fn crc32_byte(tab: Seq<u32>, c: u32, b: u8) -> u32
    recommends tab.len() == 256,
{
    tab[((c ^ (b as u32)) & 0xFF) as int] ^ (c >> 8)
}

/// The register after folding every byte of `s` through the table.
pub open spec fn crc32_run(tab: Seq<u32>, c: u32, s: Seq<u8>) -> u32
    decreases s.len(),
{
    if s.len() == 0 { c } else { crc32_run(tab, crc32_byte(tab, c, s[0]), s.drop_first()) }
}

/// The CRC of `s` continued from an un-inverted register `c`: invert in,
/// fold, invert out.
pub open spec fn crc32_sum(tab: Seq<u32>, c: u32, s: Seq<u8>) -> u32 {
    !crc32_run(tab, !c, s)
}

/// Folding a concatenation equals folding the two halves in turn.
pub proof fn lemma_crc32_run_append(tab: Seq<u32>, c: u32, s1: Seq<u8>, s2: Seq<u8>)
    ensures
        crc32_run(tab, c, s1 + s2) == crc32_run(tab, crc32_run(tab, c, s1), s2),
    decreases s1.len(),
{
    if s1.len() == 0 {
        assert(s1 + s2 =~= s2);
    } else {
        assert((s1 + s2)[0] == s1[0]);
        assert((s1 + s2).drop_first() =~= s1.drop_first() + s2);
        lemma_crc32_run_append(tab, crc32_byte(tab, c, s1[0]), s1.drop_first(), s2);
    }
}

/// Folding one more byte extends the run by that byte.
pub proof fn lemma_crc32_run_snoc(tab: Seq<u32>, c: u32, s: Seq<u8>, b: u8)
    ensures
        crc32_run(tab, c, s + seq![b]) == crc32_byte(tab, crc32_run(tab, c, s), b),
{
    lemma_crc32_run_append(tab, c, s, seq![b]);
    let m = crc32_run(tab, c, s);
    assert(seq![b].drop_first() =~= Seq::<u8>::empty());
    assert(seq![b][0] == b);
    assert(crc32_run(tab, m, seq![b])
        == crc32_run(tab, crc32_byte(tab, m, b), Seq::<u8>::empty()));
    assert(crc32_run(tab, crc32_byte(tab, m, b), Seq::<u8>::empty()) == crc32_byte(tab, m, b));
}

impl Crc32Polynomial {
    /// The polynomial constant this variant stands for.
    pub open spec fn spec_poly(&self) -> u32 {
        match *self {
            Crc32Polynomial::IEEE => 0xedb88320u32,
            Crc32Polynomial::Castagnoli => 0x82f63b78u32,
            Crc32Polynomial::Koopman => 0xeb31d82eu32,
            Crc32Polynomial::Custom(p) => p,
        }
    }

    pub fn as_u32(&self) -> (r: u32)
        ensures r == self.spec_poly(),
    {
        match *self {
            Crc32Polynomial::IEEE => 0xedb88320,
            Crc32Polynomial::Castagnoli => 0x82f63b78,
            Crc32Polynomial::Koopman => 0xeb31d82e,
            Crc32Polynomial::Custom(p) => p,
        }
    }

    /// Overwrites `t` with the 256-entry lookup table for this polynomial.
    pub fn make_table_into(&self, t: &mut Vec<u32>)
        ensures final(t)@ == crc32_table(self.spec_poly()),
    {
        let poly = self.as_u32();
        t.clear();
        let mut i: usize = 0;
        while i < 256
            invariant
                i <= 256,
                t@.len() == i,
                forall|k: int| 0 <= k < i ==> t@[k] == crc32_table(poly)[k],
            decreases 256 - i,
        {
            let mut c: u32 = i as u32;
            let mut j: usize = 0;
            while j < 8
                invariant
                    j <= 8,
                    c == crc32_steps(poly, i as u32, j as int),
                decreases 8 - j,
            {
                if c & 1 == 1 {
                    c = (c >> 1) ^ poly;
                } else {
                    c = c >> 1;
                }
                j += 1;
            }
            t.push(c);
            i += 1;
        }
        proof {
            assert(t@ =~= crc32_table(poly));
        }
    }

    /// The freshly built 256-entry lookup table for this polynomial.
    pub fn make_table(&self) -> (t: Vec<u32>)
        ensures t@ == crc32_table(self.spec_poly()),
    {
        let mut t: Vec<u32> = Vec::new();
        self.make_table_into(&mut t);
        t
    }
}

/// Continues the CRC in `crc` over the bytes of `p`, using a 256-entry
/// lookup table.
pub fn update(crc: u32, tab: &Vec<u32>, p: &[u8]) -> (r: u32)
    requires
        tab@.len() == 256,
    ensures
        r == crc32_sum(tab@, crc, p@),
{
    let mut c = !crc;
    let mut i: usize = 0;
    while i < p.len()
        invariant
            i <= p@.len(),
            tab@.len() == 256,
            c == crc32_run(tab@, !crc, p@.take(i as int)),
        decreases p@.len() - i,
    {
        let b = p[i];
        proof {
            assert(((c ^ (b as u32)) & 0xFF) < 256) by (bit_vector);
            assert(p@.take(i as int) + seq![b] =~= p@.take(i + 1));
            lemma_crc32_run_snoc(tab@, !crc, p@.take(i as int), b);
        }
        let idx = ((c ^ (b as u32)) & 0xFF) as usize;
        c = tab[idx] ^ (c >> 8);
        i += 1;
    }
    proof {
        assert(p@.take(p@.len() as int) =~= p@);
    }
    !c
}

/// A streaming CRC with a 32-bit register.
pub struct Crc32 {
    /// The running CRC, stored un-inverted.
    pub crc: u32,
    /// The 256-entry lookup table, immutable for the life of the instance.
    pub tab: Vec<u32>,
    /// The polynomial the table was built from.
    pub poly: Ghost<u32>,
    /// The bytes submitted since the last reset.
    pub data: Ghost<Seq<u8>>,
}

impl Crc32 {
    /// A fresh instance for the given polynomial.
    pub fn new(poly: Crc32Polynomial) -> (r: Crc32)
        ensures
            r.inv(),
            r.data() == Seq::<u8>::empty(),
            r.poly@ == poly.spec_poly(),
    {
        let t = poly.make_table();
        proof {
            assert(!(!0u32) == 0u32) by (bit_vector);
        }
        Crc32 { crc: 0, tab: t, poly: Ghost(poly.spec_poly()), data: Ghost(Seq::empty()) }
    }

    /// A fresh instance for the IEEE polynomial.
    #[allow(non_snake_case)]
    pub fn newIEEE() -> (r: Crc32)
        ensures
            r.inv(),
            r.data() == Seq::<u8>::empty(),
            r.poly@ == 0xedb88320u32,
    {
        Crc32::new(Crc32Polynomial::IEEE)
    }
}

impl Digest for Crc32 {
    open spec fn inv(&self) -> bool {
        &&& self.tab@ == crc32_table(self.poly@)
        &&& self.crc == crc32_sum(self.tab@, 0, self.data@)
    }

    open spec fn data(&self) -> Seq<u8> {
        self.data@
    }

    open spec fn spec_digest(&self, s: Seq<u8>) -> Seq<u8> {
        be32_bytes(crc32_sum(crc32_table(self.poly@), 0, s))
    }

    open spec fn spec_size(&self) -> nat {
        4
    }

    open spec fn spec_block_size(&self) -> nat {
        1
    }

    fn reset(&mut self) {
        self.crc = 0;
        self.data = Ghost(Seq::empty());
        proof {
            assert(!(!0u32) == 0u32) by (bit_vector);
        }
    }

    fn write(&mut self, buf: &[u8]) {
        let c = self.crc;
        let r = update(c, &self.tab, buf);
        proof {
            let tab = self.tab@;
            let run0 = crc32_run(tab, !0u32, self.data@);
            assert(!(!run0) == run0) by (bit_vector);
            lemma_crc32_run_append(tab, !0u32, self.data@, buf@);
        }
        self.crc = r;
        self.data = Ghost(self.data@ + buf@);
    }

    fn digest(&self) -> (r: Vec<u8>) {
        let mut r: Vec<u8> = Vec::new();
        crate::words::push_be32(&mut r, self.crc);
        proof {
            assert(r@ =~= be32_bytes(crc32_sum(crc32_table(self.poly@), 0, self.data@)));
            assert(r@.len() == 4);
            assert(self.spec_size() == 4);
        }
        r
    }

    fn size(&self) -> usize {
        SIZE
    }

    fn block_size(&self) -> usize {
        1
    }
}

/// The CRC of `data` from a zero register, using a prebuilt table.
pub fn checksum(data: &[u8], tab: &Vec<u32>) -> (r: u32)
    requires
        tab@.len() == 256,
    ensures
        r == crc32_sum(tab@, 0, data@),
{
    update(0, tab, data)
}

/// The IEEE CRC-32 of `data`, in one call.
#[allow(non_snake_case)]
pub fn checksumIEEE(data: &[u8]) -> (r: u32)
    ensures
        r == crc32_sum(crc32_table(0xedb88320), 0, data@),
{
    let t = Crc32Polynomial::IEEE.make_table();
    update(0, &t, data)
}

} // verus!
