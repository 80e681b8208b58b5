use crypto::hash::Digest;
use crypto::hash::crc32::Crc32;
use crypto::hash::crc32::Crc32Polynomial;
use crypto::hash::crc32::checksum;
use crypto::hash::crc32::checksumIEEE;
use crypto::hash::crc32::update;

#[test]
fn crc32_test_update() {
    assert_eq!(
        716219773u32,
        update(0u32, &Crc32Polynomial::IEEE.make_table(), b"welcome to china")
    );
}

#[test]
fn crc32_test_checksum() {
    assert_eq!(checksumIEEE(b"welcome to china"), 716219773u32);
}

#[test]
fn test_crc32() {
    let mut h = Crc32::new(Crc32Polynomial::IEEE);
    h.write(b"welcome to china");
    assert_eq!(h.digest(), vec![42u8, 176, 165, 125]);
    h.reset();
}

#[test]
fn test_crc32_custom_matches_ieee() {
    let named = checksumIEEE(b"welcome to china");
    let tab = Crc32Polynomial::Custom(0xedb88320).make_table();
    assert_eq!(checksum(b"welcome to china", &tab), named);
}

#[test]
fn test_crc32_make_table_into_overwrites() {
    let mut t = Crc32Polynomial::Castagnoli.make_table();
    Crc32Polynomial::IEEE.make_table_into(&mut t);
    assert_eq!(t, Crc32Polynomial::IEEE.make_table());
    assert_eq!(t.len(), 256);
}

#[test]
fn test_crc32_empty_and_reset() {
    let h = Crc32::new(Crc32Polynomial::IEEE);
    assert_eq!(h.digest(), vec![0u8, 0, 0, 0]);
    let mut g = Crc32::new(Crc32Polynomial::IEEE);
    g.write(b"junk to be discarded");
    g.reset();
    assert_eq!(g.digest(), h.digest());
    g.write(b"welcome to china");
    assert_eq!(g.digest(), vec![42u8, 176, 165, 125]);
}

#[test]
fn test_crc32_newieee_sizes() {
    let h = Crc32::newIEEE();
    assert_eq!(h.size(), 4);
    assert_eq!(h.block_size(), 1);
}

#[test]
fn test_crc32_chunking_invariance() {
    let msg = b"welcome to china";
    let mut whole = Crc32::newIEEE();
    whole.write(msg);
    let mut pieces = Crc32::newIEEE();
    pieces.write(&msg[..3]);
    pieces.write(&msg[3..10]);
    pieces.write(&msg[10..]);
    assert_eq!(whole.digest(), pieces.digest());
}
