//! A brute-force hash search: candidate strings derived from a prefix, a round
//! index and a positional nonce are hashed with SHA-256, scored by the largest
//! byte of their digest, and reduced to the best candidate seen.

pub mod buffers;
pub mod decimal;
pub mod error;
pub mod grid;
pub mod kernel;
pub mod reducer;
pub mod search;
pub mod sha256;
