use vstd::prelude::*;

verus! {

/// The ways in which a wallet operation can fail.
#[derive(Debug, Clone, Copy, PartialEq, Eq, Structural)]
pub enum WalletError {
    /// The text is not an even-length run of hexadecimal digits.
    InvalidEncoding,
    /// The decoded secret is not 32 bytes long.
    InvalidKeyLength,
    /// The 32 secret bytes are not a valid scalar of the signing curve.
    InvalidKeyValue,
    /// The address text does not decode (bad checksum, prefix or structure).
    MalformedAddress,
    /// The requested amount exceeds what is available.
    InsufficientFunds { available: u64, requested: u64 },
    /// The amounts add up to more than a `u64` holds.
    BalanceOverflow,
}

} // verus!
