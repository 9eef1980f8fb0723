//! Addresses: 32-byte public keys with a base58 text form.

use vstd::prelude::*;

use crate::bytes::{fit32, fit_to_32, same_bytes};
use crate::error::{WalletError, WalletResult};
use crate::primitives::{base58_decode, base58_decoded, base58_encode, base58_of};

verus! {

/// The 32 bytes that an address text stands for: its base58 decoding, where
/// that succeeds with exactly 32 bytes.
pub open spec fn parsed_address(text: Seq<char>) -> Option<Seq<u8>> {
    match base58_decoded(text) {
        Some(b) => if b.len() == 32 {
            Some(b)
        } else {
            None
        },
        None => None,
    }
}

/// An address: the 32 bytes of a public key. Two addresses are equal when
/// their bytes are.
#[derive(Debug, Clone, Copy, Hash)]
pub struct Address {
    pub public_key: [u8; 32],
}

impl Address {
    pub fn from_public_key(public_key: [u8; 32]) -> (r: Self)
        ensures
            r.public_key == public_key,
    {
        Self { public_key }
    }

    /// The first 32 bytes of `bytes`, zero-padded where it is shorter.
    pub fn from_bytes(bytes: &[u8]) -> (r: Self)
        ensures
            r.public_key@ == fit32(bytes@),
    {
        Self { public_key: fit_to_32(bytes) }
    }

    /// The canonical text form: base58 of the 32 bytes.
    pub fn to_string(&self) -> (r: String)
        ensures
            r@ == base58_of(self.public_key@),
            parsed_address(r@) == Some(self.public_key@),
    {
        base58_encode(&self.public_key)
    }

    /// Parses the base58 text form. Fails with `InvalidAddress` where the text
    /// is not base58 or does not decode to exactly 32 bytes.
    pub fn from_string(s: &str) -> (r: WalletResult<Self>)
        ensures
            match parsed_address(s@) {
                Some(b) => r matches Ok(a) && a.public_key@ == b,
                None => r matches Err(WalletError::InvalidAddress(_)),
            },
            base58_decoded(s@) matches Some(b) && b.len() != 32 ==> r matches Err(
                WalletError::InvalidAddress(_),
            ),
    {
        match base58_decode(s) {
            Ok(decoded) => {
                if decoded.len() != 32 {
                    return Err(WalletError::InvalidAddress("Invalid address length".to_string()));
                }
                let public_key = fit_to_32(decoded.as_slice());
                assert(public_key@ =~= decoded@);
                Ok(Self { public_key })
            },
            Err(_) => Err(WalletError::InvalidAddress("Base58 decode error".to_string())),
        }
    }
}

impl PartialEq for Address {
    fn eq(&self, other: &Address) -> (r: bool) {
        same_bytes(&self.public_key, &other.public_key)
    }
}

impl vstd::std_specs::cmp::PartialEqSpecImpl for Address {
    open spec fn obeys_eq_spec() -> bool {
        true
    }

    open spec fn eq_spec(&self, other: &Address) -> bool {
        self.public_key == other.public_key
    }
}

impl Eq for Address {

}

} // verus!
