//! Verified core of a proof-of-work miner for an ERC-20 token whose mint
//! is gated by a Keccak-256 puzzle.
pub mod gpu;
pub mod hexfmt;
pub mod pow;
pub mod session;
pub mod signer;
pub mod status;
pub mod uint;
pub mod wallet;
