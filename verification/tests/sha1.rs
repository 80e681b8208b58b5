use crypto::hash::Digest;
use crypto::sha1::Sha1;

#[test]
fn test_sha1() {
    let mut h = Sha1::new();
    h.write("".as_bytes());
    assert_eq!(h.hexdigest(), "da39a3ee5e6b4b0d3255bfef95601890afd80709");
    h.write("we".as_bytes());
    assert_eq!(h.hexdigest(), "676e6f35cfc173f73fea9fe27699cf8185397f0c");
}

#[test]
fn test_sha1_long() {
    let mut h = Sha1::new();
    h.write("welcome to china".repeat(10001).as_bytes());
    assert_eq!(h.hexdigest(), "da3884df7c84378ebf72b86e3fe43b2a4664d73a");
}

#[test]
fn test_sha1_chunking_invariance() {
    let msg = "welcome to china".repeat(9);
    let bytes = msg.as_bytes();
    let mut whole = Sha1::new();
    whole.write(bytes);
    let mut pieces = Sha1::new();
    for c in bytes.chunks(13) {
        pieces.write(c);
    }
    assert_eq!(whole.digest(), pieces.digest());
}

#[test]
fn test_sha1_nondestructive_digest() {
    let mut h = Sha1::new();
    h.write(b"welcome");
    let first = h.digest();
    assert_eq!(first, h.digest());
    h.write(b" to china");
    let mut fresh = Sha1::new();
    fresh.write(b"welcome to china");
    assert_eq!(h.digest(), fresh.digest());
}

#[test]
fn test_sha1_reset() {
    let mut h = Sha1::new();
    h.write(b"prior input that is discarded");
    h.reset();
    assert_eq!(h.hexdigest(), "da39a3ee5e6b4b0d3255bfef95601890afd80709");
}

#[test]
fn test_sha1_sizes() {
    let h = Sha1::new();
    assert_eq!(h.size(), 20);
    assert_eq!(h.block_size(), 64);
    assert_eq!(h.digest().len(), 20);
}
