//! Light-client wallet synchronisation for a shielded chain: a cache of compact
//! blocks, hash-chain validation, sequential scanning, and rewinding.

pub mod block;
pub mod chain;
pub mod constants;
pub mod encoding;
pub mod error;
pub mod keys;
pub mod metadata;
pub mod primitives;
pub mod proto;
pub mod scan;
pub mod text;
pub mod tze;
pub mod validate;
pub mod wallet;
pub mod wire;
