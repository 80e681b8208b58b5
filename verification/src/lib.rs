//! Streaming checksum and digest primitives behind one incremental-hashing
//! contract: bytes may be fed across any number of `write` calls, in any
//! chunk sizes, and the digest equals the digest of the concatenation.
//!
//! Every algorithm's `digest` is specified as a mathematical function of the
//! exact byte sequence submitted since the last `reset`, so chunking
//! invariance, non-destructive digests and reset idempotence are part of the
//! verified contracts rather than conventions.

pub mod words;
pub mod hash;
pub mod crypto;

pub use crate::crypto::md5;
pub use crate::crypto::sha1;
