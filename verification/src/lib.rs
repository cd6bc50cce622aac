//! Post-quantum file protection: container and package framing, Reed-Solomon
//! fragmentation, Shamir secret sharing and metadata scrubbing, with the
//! cryptographic primitives of outside crates behind stated contracts.

pub mod commands;
pub mod crypto;
pub mod utils;
