//! Fixed-width word arithmetic and byte-order helpers shared by all digests:
//! wraparound addition, rotation, little- and big-endian word assembly and
//! serialization, and lowercase hexadecimal rendering.

use vstd::prelude::*;
use vstd::string::*;

verus! {

/// `x` reduced modulo 2^32, as a 32-bit word.
pub open spec fn w32(x: int) -> u32 {
    (x % 0x1_0000_0000) as u32
}

/// `x` reduced modulo 2^64, as a 64-bit word.
pub open spec fn w64(x: int) -> u64 {
    (x % 0x1_0000_0000_0000_0000) as u64
}

/// Left rotation of a 32-bit word by `n` bits, `1 <= n <= 31`.
pub open spec fn rotl32_spec(x: u32, n: u32) -> u32
    recommends 1 <= n < 32,
{
    (x << n) | (x >> ((32 - n) as u32))
}

pub fn rotl32(x: u32, n: u32) -> (r: u32)
    requires 1 <= n < 32,
    ensures r == rotl32_spec(x, n),
{
    (x << n) | (x >> (32 - n))
}

/// The 32-bit word stored little-endian at offset `j` of `s`.
pub open spec fn le32_at(s: Seq<u8>, j: int) -> u32
    recommends 0 <= j, j + 4 <= s.len(),
{
    (s[j] as u32) | ((s[j + 1] as u32) << 8) | ((s[j + 2] as u32) << 16) | ((s[j + 3] as u32) << 24)
}

/// The 32-bit word stored big-endian at offset `j` of `s`.
pub open spec fn be32_at(s: Seq<u8>, j: int) -> u32
    recommends 0 <= j, j + 4 <= s.len(),
{
    ((s[j] as u32) << 24) | ((s[j + 1] as u32) << 16) | ((s[j + 2] as u32) << 8) | (s[j + 3] as u32)
}

pub fn read_le32(v: &Vec<u8>, j: usize) -> (r: u32)
    requires j + 4 <= v@.len(),
    ensures r == le32_at(v@, j as int),
{
    // Binding the length ties the view's length to a machine word.
    let n = v.len();
    proof {
        assert(j + 4 <= n);
    }
    (v[j] as u32) | ((v[j + 1] as u32) << 8) | ((v[j + 2] as u32) << 16) | ((v[j + 3] as u32) << 24)
}

pub fn read_be32(v: &Vec<u8>, j: usize) -> (r: u32)
    requires j + 4 <= v@.len(),
    ensures r == be32_at(v@, j as int),
{
    // Binding the length ties the view's length to a machine word.
    let n = v.len();
    proof {
        assert(j + 4 <= n);
    }
    ((v[j] as u32) << 24) | ((v[j + 1] as u32) << 16) | ((v[j + 2] as u32) << 8) | (v[j + 3] as u32)
}

/// The four bytes of `x` in little-endian order.
pub open spec fn le32_bytes(x: u32) -> Seq<u8> {
    seq![
        (x & 0xFF) as u8,
        ((x >> 8) & 0xFF) as u8,
        ((x >> 16) & 0xFF) as u8,
        ((x >> 24) & 0xFF) as u8,
    ]
}

/// The four bytes of `x` in big-endian order.
pub open spec fn be32_bytes(x: u32) -> Seq<u8> {
    seq![
        ((x >> 24) & 0xFF) as u8,
        ((x >> 16) & 0xFF) as u8,
        ((x >> 8) & 0xFF) as u8,
        (x & 0xFF) as u8,
    ]
}

/// The eight bytes of `x` in little-endian order.
pub open spec fn le64_bytes(x: u64) -> Seq<u8> {
    seq![
        (x & 0xFF) as u8,
        ((x >> 8) & 0xFF) as u8,
        ((x >> 16) & 0xFF) as u8,
        ((x >> 24) & 0xFF) as u8,
        ((x >> 32) & 0xFF) as u8,
        ((x >> 40) & 0xFF) as u8,
        ((x >> 48) & 0xFF) as u8,
        ((x >> 56) & 0xFF) as u8,
    ]
}

/// The eight bytes of `x` in big-endian order.
pub open spec fn be64_bytes(x: u64) -> Seq<u8> {
    seq![
        ((x >> 56) & 0xFF) as u8,
        ((x >> 48) & 0xFF) as u8,
        ((x >> 40) & 0xFF) as u8,
        ((x >> 32) & 0xFF) as u8,
        ((x >> 24) & 0xFF) as u8,
        ((x >> 16) & 0xFF) as u8,
        ((x >> 8) & 0xFF) as u8,
        (x & 0xFF) as u8,
    ]
}

pub fn push_le32(out: &mut Vec<u8>, x: u32)
    ensures final(out)@ == old(out)@ + le32_bytes(x),
{
    out.push((x & 0xFF) as u8);
    out.push(((x >> 8) & 0xFF) as u8);
    out.push(((x >> 16) & 0xFF) as u8);
    out.push(((x >> 24) & 0xFF) as u8);
    proof {
        assert(out@ =~= old(out)@ + le32_bytes(x));
    }
}

pub fn push_be32(out: &mut Vec<u8>, x: u32)
    ensures final(out)@ == old(out)@ + be32_bytes(x),
{
    out.push(((x >> 24) & 0xFF) as u8);
    out.push(((x >> 16) & 0xFF) as u8);
    out.push(((x >> 8) & 0xFF) as u8);
    out.push((x & 0xFF) as u8);
    proof {
        assert(out@ =~= old(out)@ + be32_bytes(x));
    }
}

pub fn push_le64(out: &mut Vec<u8>, x: u64)
    ensures final(out)@ == old(out)@ + le64_bytes(x),
{
    out.push((x & 0xFF) as u8);
    out.push(((x >> 8) & 0xFF) as u8);
    out.push(((x >> 16) & 0xFF) as u8);
    out.push(((x >> 24) & 0xFF) as u8);
    out.push(((x >> 32) & 0xFF) as u8);
    out.push(((x >> 40) & 0xFF) as u8);
    out.push(((x >> 48) & 0xFF) as u8);
    out.push(((x >> 56) & 0xFF) as u8);
    proof {
        assert(out@ =~= old(out)@ + le64_bytes(x));
    }
}

pub fn push_be64(out: &mut Vec<u8>, x: u64)
    ensures final(out)@ == old(out)@ + be64_bytes(x),
{
    out.push(((x >> 56) & 0xFF) as u8);
    out.push(((x >> 48) & 0xFF) as u8);
    out.push(((x >> 40) & 0xFF) as u8);
    out.push(((x >> 32) & 0xFF) as u8);
    out.push(((x >> 24) & 0xFF) as u8);
    out.push(((x >> 16) & 0xFF) as u8);
    out.push(((x >> 8) & 0xFF) as u8);
    out.push((x & 0xFF) as u8);
    proof {
        assert(out@ =~= old(out)@ + be64_bytes(x));
    }
}

/// The lowercase hexadecimal digit for a value below sixteen.
pub open spec fn hex_digit(n: int) -> char
    recommends 0 <= n < 16,
{
    if n == 0 { '0' } else if n == 1 { '1' } else if n == 2 { '2' } else if n == 3 { '3' }
    else if n == 4 { '4' } else if n == 5 { '5' } else if n == 6 { '6' } else if n == 7 { '7' }
    else if n == 8 { '8' } else if n == 9 { '9' } else if n == 10 { 'a' } else if n == 11 { 'b' }
    else if n == 12 { 'c' } else if n == 13 { 'd' } else if n == 14 { 'e' } else { 'f' }
}

/// Lowercase hexadecimal rendering of a byte sequence, two digits per byte,
/// most significant nibble first.
pub open spec fn hex_of(s: Seq<u8>) -> Seq<char>
    decreases s.len(),
{
    if s.len() == 0 {
        Seq::<char>::empty()
    } else {
        hex_of(s.drop_last()) + seq![hex_digit(s.last() as int / 16), hex_digit(s.last() as int % 16)]
    }
}

fn hex_str(n: u8) -> (r: &'static str)
    requires n < 16,
    ensures r@ == seq![hex_digit(n as int)],
{
    if n == 0 { proof { reveal_strlit("0"); assert("0"@ =~= seq![hex_digit(0)]); } "0" }
    else if n == 1 { proof { reveal_strlit("1"); assert("1"@ =~= seq![hex_digit(1)]); } "1" }
    else if n == 2 { proof { reveal_strlit("2"); assert("2"@ =~= seq![hex_digit(2)]); } "2" }
    else if n == 3 { proof { reveal_strlit("3"); assert("3"@ =~= seq![hex_digit(3)]); } "3" }
    else if n == 4 { proof { reveal_strlit("4"); assert("4"@ =~= seq![hex_digit(4)]); } "4" }
    else if n == 5 { proof { reveal_strlit("5"); assert("5"@ =~= seq![hex_digit(5)]); } "5" }
    else if n == 6 { proof { reveal_strlit("6"); assert("6"@ =~= seq![hex_digit(6)]); } "6" }
    else if n == 7 { proof { reveal_strlit("7"); assert("7"@ =~= seq![hex_digit(7)]); } "7" }
    else if n == 8 { proof { reveal_strlit("8"); assert("8"@ =~= seq![hex_digit(8)]); } "8" }
    else if n == 9 { proof { reveal_strlit("9"); assert("9"@ =~= seq![hex_digit(9)]); } "9" }
    else if n == 10 { proof { reveal_strlit("a"); assert("a"@ =~= seq![hex_digit(10)]); } "a" }
    else if n == 11 { proof { reveal_strlit("b"); assert("b"@ =~= seq![hex_digit(11)]); } "b" }
    else if n == 12 { proof { reveal_strlit("c"); assert("c"@ =~= seq![hex_digit(12)]); } "c" }
    else if n == 13 { proof { reveal_strlit("d"); assert("d"@ =~= seq![hex_digit(13)]); } "d" }
    else if n == 14 { proof { reveal_strlit("e"); assert("e"@ =~= seq![hex_digit(14)]); } "e" }
    else { proof { reveal_strlit("f"); assert("f"@ =~= seq![hex_digit(15)]); } "f" }
}

/// Renders `bytes` as lowercase hexadecimal, two characters per byte.
pub fn to_hex(bytes: &Vec<u8>) -> (r: String)
    ensures r@ == hex_of(bytes@),
{
    let mut r = String::from_str("");
    proof {
        reveal_strlit("");
        assert(r@ =~= hex_of(bytes@.take(0)));
    }
    let mut i: usize = 0;
    while i < bytes.len()
        invariant
            i <= bytes@.len(),
            r@ == hex_of(bytes@.take(i as int)),
        decreases bytes@.len() - i,
    {
        let b = bytes[i];
        r.append(hex_str(b / 16));
        r.append(hex_str(b % 16));
        proof {
            let t = bytes@.take(i + 1);
            assert(t.drop_last() =~= bytes@.take(i as int));
            assert(t.last() == bytes@[i as int]);
            assert(r@ =~= hex_of(bytes@.take(i + 1)));
        }
        i += 1;
    }
    proof {
        assert(bytes@.take(bytes@.len() as int) =~= bytes@);
    }
    r
}

/// How many zero bytes follow the 0x80 padding marker for a message of `l`
/// bytes: enough to leave exactly eight bytes of room in the final 64-byte
/// block.
pub open spec fn pad_zero_count(l: int) -> int {
    if l % 64 < 56 { 55 - (l % 64) } else { 119 - (l % 64) }
}

/// A total length that splits as a whole number of blocks plus a short
/// remainder has that remainder as its residue modulo the block size.
pub proof fn lemma_block_split(total: int, done: int, rem: int, bs: int)
    requires
        bs > 0,
        done % bs == 0,
        0 <= rem < bs,
        total == done + rem,
    ensures
        total % bs == rem,
{
    vstd::arithmetic::div_mod::lemma_add_mod_noop(done, rem, bs);
    vstd::arithmetic::div_mod::lemma_small_mod(rem as nat, bs as nat);
}

} // verus!
