use crypto::hash::Digest;
use crypto::hash::adler32::Adler32;
use crypto::hash::adler32::checksum;

#[test]
fn adler32_test_checksum() {
    assert_eq!(checksum(b"welcome to china"), 884934163u32);
}

#[test]
fn test_adler32() {
    let mut h = Adler32::new();
    h.write(b"welcome to china");
    assert_eq!(h.digest(), vec![52u8, 191, 6, 19]);
    h.reset();
}

#[test]
fn test_adler32_empty() {
    let h = Adler32::new();
    assert_eq!(h.digest(), vec![0u8, 0, 0, 1]);
    assert_eq!(h.hexdigest(), "00000001");
}

#[test]
fn test_adler32_reset_matches_fresh() {
    let mut h = Adler32::new();
    h.write(b"anything at all");
    h.reset();
    h.write(b"welcome to china");
    let mut fresh = Adler32::new();
    fresh.write(b"welcome to china");
    assert_eq!(h.digest(), fresh.digest());
    assert_eq!(h.hexdigest(), "34bf0613");
}

#[test]
fn test_adler32_sizes() {
    let h = Adler32::new();
    assert_eq!(h.size(), 4);
    assert_eq!(h.block_size(), 1);
}
