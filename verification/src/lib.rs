//! Finds files with byte-identical content.
//!
//! The library fingerprints content with SHA-256, fed in bounded chunks, and
//! groups paths by fingerprint. Walking directories and reading files is left
//! to the caller, who hands over what was found as plain values.

pub mod enumerate;
pub mod error;
pub mod fingerprint;
pub mod group;
pub mod hasher;
pub mod hex;
pub mod scan;
