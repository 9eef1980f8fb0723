//! Core of a single-node UTXO wallet: address encoding, note bookkeeping,
//! transaction construction and signing, and proof-of-work block checks.

use vstd::prelude::*;

pub mod address;
pub mod balance;
pub mod block;
pub mod bytes;
pub mod config;
pub mod error;
pub mod history;
pub mod keys;
pub mod mnemonic;
pub mod primitives;
pub mod transaction;

pub use address::Address;
pub use balance::{Balance, BalanceManager, Note};
pub use block::{calculate_merkle_root, difficulty_to_target, search_nonce, Block, BlockHeader};
pub use config::{BlockchainConfig, NetworkConfig, SecurityConfig, WalletConfig};
pub use error::{WalletError, WalletResult};
pub use history::{Transaction, TransactionManager, TransactionStatus};
pub use keys::{KeyManager, KeyPair, NockchainKeyManager, NockchainKeyPair};
pub use mnemonic::{
    derive_nockchain_child_key,
    generate_nockchain_master_key,
    generate_nockchain_mnemonic,
    mnemonic_to_nockchain_seed,
    nockchain_key_from_mnemonic,
    validate_mnemonic,
};
pub use transaction::{
    NockchainTransaction,
    OutPoint,
    SignedTransaction,
    TransactionBuilder,
    TransactionInput,
    TransactionOutput,
};

verus! {

/// Returns its argument unchanged.
pub fn echo_string(input: String) -> (r: String)
    ensures
        r == input,
{
    input
}

} // verus!
