use crypto::hash::Digest;
use crypto::md5::Md5;

#[test]
fn test_md5() {
    let mut h = Md5::new();
    assert_eq!(h.hexdigest(), "d41d8cd98f00b204e9800998ecf8427e");
    h.write("a".as_bytes());
    assert_eq!(h.hexdigest(), "0cc175b9c0f1b6a831c399e269772661");
}

#[test]
fn test_md5_long() {
    let mut h = Md5::new();
    h.write("welcome to china".repeat(10001).as_bytes());
    assert_eq!(h.hexdigest(), "91fdcbaaf79739a20635cd24dd67e532");
}

#[test]
fn test_md5_chunking_invariance() {
    let msg = b"welcome to china";
    let mut whole = Md5::new();
    whole.write(msg);
    let mut pieces = Md5::new();
    for b in msg.iter() {
        pieces.write(&[*b]);
    }
    assert_eq!(whole.digest(), pieces.digest());
    let mut split = Md5::new();
    split.write(&msg[..7]);
    split.write(&msg[7..]);
    assert_eq!(whole.digest(), split.digest());
}

#[test]
fn test_md5_nondestructive_digest() {
    let mut h = Md5::new();
    h.write(b"welcome");
    let first = h.digest();
    let second = h.digest();
    assert_eq!(first, second);
    h.write(b" to china");
    let mut fresh = Md5::new();
    fresh.write(b"welcome to china");
    assert_eq!(h.digest(), fresh.digest());
}

#[test]
fn test_md5_reset() {
    let mut h = Md5::new();
    h.write(b"some earlier history, long enough to cross a block boundary....................");
    h.reset();
    h.write(b"a");
    assert_eq!(h.hexdigest(), "0cc175b9c0f1b6a831c399e269772661");
}

#[test]
fn test_md5_sizes() {
    let h = Md5::new();
    assert_eq!(h.size(), 16);
    assert_eq!(h.block_size(), 64);
    assert_eq!(h.digest().len(), 16);
}
