//! BIP39 phrases and the wallet keys derived from them with HKDF-SHA512.

use vstd::prelude::*;
use vstd::utf8::encode_utf8;

use crate::bytes::append;
use crate::error::{WalletError, WalletResult};
use crate::keys::NockchainKeyPair;
use crate::primitives::{
    bip39_phrase,
    bip39_phrase_of,
    bip39_seed,
    bip39_seed_of,
    hkdf_sha512_32,
    hkdf_sha512_expand,
    random_entropy,
};

verus! {

/// ASCII decimal digits of `n`, most significant first, no leading zeros.
pub open spec fn decimal_ascii(n: nat) -> Seq<u8>
    decreases n,
{
    if n < 10 {
        seq![(48 + n) as u8]
    } else {
        decimal_ascii(n / 10).push((48 + n % 10) as u8)
    }
}

/// HKDF info for the wallet key derived from a phrase's seed.
pub open spec fn wallet_seed_info() -> Seq<u8> {
    encode_utf8("nockchain-wallet-seed"@)
}

/// HKDF info for child key `index`: `nockchain-child-key-` and the decimal index.
pub open spec fn child_key_info(index: u32) -> Seq<u8> {
    encode_utf8("nockchain-child-key-"@) + decimal_ascii(index as nat)
}

/// The wallet key of a phrase: HKDF-SHA512 of its BIP39 seed, or `None` for
/// an invalid phrase.
pub open spec fn wallet_key_of(phrase: Seq<char>) -> Option<Seq<u8>> {
    match bip39_seed_of(phrase) {
        Some(seed) => Some(hkdf_sha512_32(seed, wallet_seed_info())),
        None => None,
    }
}

fn push_decimal(buf: &mut Vec<u8>, n: u32)
    ensures
        final(buf)@ == old(buf)@ + decimal_ascii(n as nat),
    decreases n,
{
    if n >= 10 {
        push_decimal(buf, n / 10);
    }
    buf.push((48 + n % 10) as u8);
    proof {
        if n >= 10 {
            assert(final(buf)@ =~= old(buf)@ + decimal_ascii(n as nat));
        } else {
            assert(final(buf)@ =~= old(buf)@ + decimal_ascii(n as nat));
        }
    }
}

/// A fresh English phrase of 12 words (128 random bits).
pub fn generate_nockchain_mnemonic() -> (r: WalletResult<String>)
    ensures
        r matches Ok(s) && exists|e: Seq<u8>| e.len() == 16 && s@ == bip39_phrase_of(e),
        r matches Ok(s) && bip39_seed_of(s@) is Some,
{
    let entropy = random_entropy();
    match bip39_phrase(&entropy) {
        Ok(phrase) => Ok(phrase),
        Err(_) => Err(WalletError::Crypto("Failed to generate mnemonic".to_string())),
    }
}

/// Success exactly for a valid English BIP39 phrase; `Crypto` otherwise.
pub fn validate_mnemonic(phrase: &str) -> (r: WalletResult<()>)
    ensures
        r is Ok <==> bip39_seed_of(phrase@) is Some,
        r matches Err(e) ==> e matches WalletError::Crypto(_),
{
    match bip39_seed(phrase) {
        Ok(_) => Ok(()),
        Err(_) => Err(WalletError::Crypto("Invalid mnemonic".to_string())),
    }
}

/// The 32-byte wallet key of a phrase: its BIP39 seed (empty passphrase)
/// expanded with HKDF-SHA512 under the wallet seed label.
pub fn mnemonic_to_nockchain_seed(mnemonic: &str) -> (r: WalletResult<[u8; 32]>)
    ensures
        match wallet_key_of(mnemonic@) {
            Some(k) => r matches Ok(key) && key@ == k,
            None => r matches Err(WalletError::Crypto(_)),
        },
{
    let seed = match bip39_seed(mnemonic) {
        Ok(seed) => seed,
        Err(_) => {
            return Err(WalletError::Crypto("Invalid mnemonic".to_string()));
        },
    };
    match hkdf_sha512_expand(&seed, "nockchain-wallet-seed".as_bytes()) {
        Ok(key) => Ok(key),
        Err(_) => Err(WalletError::Crypto("Key derivation failed".to_string())),
    }
}

/// The key pair whose secret is the phrase's wallet key.
pub fn nockchain_key_from_mnemonic(mnemonic: &str) -> (r: WalletResult<NockchainKeyPair>)
    ensures
        match wallet_key_of(mnemonic@) {
            Some(k) => r matches Ok(pair) && pair@ == k,
            None => r matches Err(WalletError::Crypto(_)),
        },
{
    let seed = mnemonic_to_nockchain_seed(mnemonic)?;
    NockchainKeyPair::from_secret_bytes(&seed)
}

/// Child key `index` of a parent seed: HKDF-SHA512 of the parent under the
/// label `nockchain-child-key-<index>`. A flat derivation, not a tree.
pub fn derive_nockchain_child_key(parent_seed: &[u8; 32], index: u32) -> (r: WalletResult<[u8; 32]>)
    ensures
        r matches Ok(k) && k@ == hkdf_sha512_32(parent_seed@, child_key_info(index)),
{
    let mut info: Vec<u8> = Vec::new();
    append(&mut info, "nockchain-child-key-".as_bytes());
    push_decimal(&mut info, index);
    match hkdf_sha512_expand(parent_seed, info.as_slice()) {
        Ok(key) => Ok(key),
        Err(_) => Err(WalletError::Crypto("Child key derivation failed".to_string())),
    }
}

/// The wallet key of a freshly generated phrase.
pub fn generate_nockchain_master_key() -> (r: WalletResult<[u8; 32]>)
    ensures
        r matches Ok(k) && exists|e: Seq<u8>|
            e.len() == 16 && wallet_key_of(#[trigger] bip39_phrase_of(e)) == Some(k@),
{
    let mnemonic = generate_nockchain_mnemonic()?;
    mnemonic_to_nockchain_seed(mnemonic.as_str())
}

} // verus!
