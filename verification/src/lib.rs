//! Content fingerprinting for archive files: a deterministic,
//! whitespace-insensitive 32-bit rolling hash.
pub mod hash;
