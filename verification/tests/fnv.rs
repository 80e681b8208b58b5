use crypto::hash::Digest;
use crypto::hash::fnv::Fnv1;
use crypto::hash::fnv::Fnv1a;
use crypto::hash::fnv::FnvHasher;

#[test]
fn test_fnv1_writer() {
    let mut h = Fnv1::<u32>::new();
    h.write(b"welcome to china");
    assert_eq!(h.hexdigest(), "07eb2b33");
}

#[test]
fn test_fnv1a_writer() {
    let mut h = Fnv1a::<u32>::new();
    h.write(b"welcome to china");
    assert_eq!(h.hexdigest(), "6b4088c1");
}

#[test]
fn test_fnv_empty_is_offset_basis() {
    let h = Fnv1::<u32>::new();
    let g = Fnv1a::<u32>::new();
    // 2166136261 is 0x811C9DC5, rendered little-endian.
    assert_eq!(h.hexdigest(), "c59d1c81");
    assert_eq!(g.hexdigest(), "c59d1c81");
    let w = Fnv1a::<u64>::new();
    // 14695981039346656037 is 0xCBF29CE484222325, rendered little-endian.
    assert_eq!(w.hexdigest(), "25232284e49cf2cb");
}

#[test]
fn test_fnv_constants() {
    assert_eq!(<u32 as FnvHasher>::prime(), 16777619u32);
    assert_eq!(<u32 as FnvHasher>::offset(), 2166136261u32);
    assert_eq!(<u64 as FnvHasher>::prime(), 1099511628211u64);
    assert_eq!(<u64 as FnvHasher>::offset(), 14695981039346656037u64);
}

#[test]
fn test_fnv_reset_and_sizes() {
    let mut h = Fnv1::<u64>::new();
    h.write(b"junk");
    h.reset();
    assert_eq!(h.size(), 8);
    assert_eq!(h.block_size(), 1);
    let fresh = Fnv1::<u64>::new();
    assert_eq!(h.digest(), fresh.digest());
}

#[test]
fn test_fnv_chunking_invariance() {
    let msg = b"welcome to china";
    let mut whole = Fnv1a::<u32>::new();
    whole.write(msg);
    let mut pieces = Fnv1a::<u32>::new();
    for b in msg.iter() {
        pieces.write(&[*b]);
    }
    assert_eq!(whole.digest(), pieces.digest());
}
