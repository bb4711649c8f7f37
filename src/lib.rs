//! Wallet primitives for a UTXO-based network: key material, address
//! derivation, network resolution and balance arithmetic.

pub mod address;
pub mod balance;
pub mod error;
pub mod hex_text;
pub mod keys;
pub mod network;
pub mod units;
