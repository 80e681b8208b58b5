//! Block-based cryptographic digests: Merkle–Damgård style byte buffering
//! and padding over a per-algorithm block compression engine.

pub mod md5;
pub mod sha1;
