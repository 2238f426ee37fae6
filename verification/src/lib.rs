//! Recovery of the symmetric key protecting an encrypted game-asset archive.
//!
//! The crate parses the archive's fixed binary header, and searches a host
//! binary for a 32-byte window that decrypts the archive's payload to a
//! plaintext matching the stored checksum.

pub mod container;
pub mod reader;
pub mod search;
