//! Errors returned by every fallible operation of the wallet.

use vstd::prelude::*;

verus! {

/// Everything that can go wrong in the wallet, as a value.
#[derive(Debug, Clone, PartialEq, Eq)]
pub enum WalletError {
    /// Bad key length, failed signature check, invalid mnemonic.
    Crypto(String),
    /// Raised by a persistence collaborator.
    Storage(String),
    /// Raised by a network collaborator.
    Network(String),
    /// Malformed base58 text or a decoded length other than 32 bytes.
    InvalidAddress(String),
    /// The inputs do not cover the outputs plus the fee.
    InsufficientFunds { required: u64, available: u64 },
    /// Missing inputs or outputs, double spend, unknown record.
    Transaction(String),
    AuthenticationFailed,
    KeyNotFound(String),
    KeyExists(String),
    NoDefaultKey,
    Serialization(String),
    /// Bad proof of work, bad merkle root, or a malformed transaction in a block.
    BlockValidation(String),
    /// The nonce search was exhausted.
    Consensus(String),
}

pub type WalletResult<T> = Result<T, WalletError>;

} // verus!
