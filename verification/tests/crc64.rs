use crypto::hash::Digest;
use crypto::hash::crc64::Crc64;
use crypto::hash::crc64::Crc64Polynomial;
use crypto::hash::crc64::checksum;
use crypto::hash::crc64::update;

#[test]
fn crc64_test_update() {
    assert_eq!(
        1747484016367373810u64,
        update(0u64, &Crc64Polynomial::ISO.make_table(), b"welcome to china")
    );
}

#[test]
fn test_crc64() {
    let mut h = Crc64::new(Crc64Polynomial::ISO);
    h.write(b"welcome to china");
    assert_eq!(h.digest(), vec![24u8, 64, 79, 116, 78, 64, 13, 242]);
    h.reset();
}

#[test]
fn test_crc64_checksum() {
    let tab = Crc64Polynomial::ISO.make_table();
    assert_eq!(checksum(b"welcome to china", &tab), 1747484016367373810u64);
}

#[test]
fn test_crc64_custom_matches_iso() {
    let tab = Crc64Polynomial::Custom(0xD800000000000000).make_table();
    assert_eq!(checksum(b"welcome to china", &tab), 1747484016367373810u64);
}

#[test]
fn test_crc64_empty_and_sizes() {
    let h = Crc64::new(Crc64Polynomial::ECMA);
    assert_eq!(h.digest(), vec![0u8, 0, 0, 0, 0, 0, 0, 0]);
    assert_eq!(h.size(), 8);
    assert_eq!(h.block_size(), 1);
}

#[test]
fn test_crc64_nondestructive_digest() {
    let mut h = Crc64::new(Crc64Polynomial::ISO);
    h.write(b"welcome");
    let first = h.digest();
    assert_eq!(first, h.digest());
    h.write(b" to china");
    assert_eq!(h.digest(), vec![24u8, 64, 79, 116, 78, 64, 13, 242]);
}
