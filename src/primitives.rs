//! The outside primitives the wallet builds on: hashing, base58 and hex text,
//! Ed25519 keys and signatures, BIP39 phrases, HKDF, randomness and the clock.
//!
//! Results that take pages to define are given names here; the rest of the
//! library states its contracts over those names.

use vstd::prelude::*;

verus! {

#[verifier::external_type_specification]
#[verifier::external_body]
pub struct ExBase58DecodeError(bs58::decode::Error);

#[verifier::external_type_specification]
#[verifier::external_body]
pub struct ExSignatureError(ed25519_dalek::SignatureError);

#[verifier::external_type_specification]
#[verifier::external_body]
pub struct ExBip39Error(bip39::Error);

#[verifier::external_type_specification]
#[verifier::external_body]
pub struct ExHkdfInvalidLength(hkdf::InvalidLength);

/// The SHA-256 digest of a byte string.
pub uninterp spec fn sha256_of(data: Seq<u8>) -> Seq<u8>;

/// Text of a byte string in the Bitcoin base58 alphabet.
pub uninterp spec fn base58_of(bytes: Seq<u8>) -> Seq<char>;

/// The bytes that a base58 text stands for, or `None` where it holds a
/// character outside the alphabet.
pub uninterp spec fn base58_decoded(text: Seq<char>) -> Option<Seq<u8>>;

/// The Ed25519 public key of a 32-byte secret key.
pub uninterp spec fn ed25519_public_of(secret: Seq<u8>) -> Seq<u8>;

/// The (deterministic) Ed25519 signature of a message under a secret key.
pub uninterp spec fn ed25519_signature_of(secret: Seq<u8>, message: Seq<u8>) -> Seq<u8>;

/// Whether a public key is a valid curve point under which the signature of
/// the message checks.
pub uninterp spec fn ed25519_accepts(public: Seq<u8>, message: Seq<u8>, signature: Seq<u8>) -> bool;

/// 32 bytes of HKDF-SHA512 output, no salt, for the key material and info string.
pub uninterp spec fn hkdf_sha512_32(ikm: Seq<u8>, info: Seq<u8>) -> Seq<u8>;

/// The English BIP39 phrase of the given entropy.
pub uninterp spec fn bip39_phrase_of(entropy: Seq<u8>) -> Seq<char>;

/// The 64-byte BIP39 seed (empty passphrase) of an English phrase, or `None`
/// where the phrase has a bad word count, an unknown word or a bad checksum.
pub uninterp spec fn bip39_seed_of(phrase: Seq<char>) -> Option<Seq<u8>>;

/// Relies on `sha2::Sha256::digest`: the digest of the bytes, 32 bytes long.
#[verifier::external_body]
pub(crate) fn sha256(data: &[u8]) -> (r: [u8; 32])
    ensures
        r@ == sha256_of(data@),
{
    <sha2::Sha256 as sha2::Digest>::digest(data).into()
}

/// Relies on `bs58::encode(..).into_string()`: base58 text of the bytes, which
/// `bs58::decode` turns back into the same bytes.
#[verifier::external_body]
pub(crate) fn base58_encode(bytes: &[u8]) -> (r: String)
    ensures
        r@ == base58_of(bytes@),
        base58_decoded(r@) == Some(bytes@),
{
    bs58::encode(bytes).into_string()
}

/// Relies on `bs58::decode(..).into_vec()`: the decoded bytes, or an error on a
/// character outside the alphabet.
#[verifier::external_body]
pub(crate) fn base58_decode(text: &str) -> (r: Result<Vec<u8>, bs58::decode::Error>)
    ensures
        match r {
            Ok(v) => base58_decoded(text@) == Some(v@),
            Err(_) => base58_decoded(text@) is None,
        },
{
    bs58::decode(text).into_vec()
}

/// The lowercase hexadecimal digit of a value below 16.
pub open spec fn hex_digit(n: int) -> char {
    seq!['0', '1', '2', '3', '4', '5', '6', '7', '8', '9', 'a', 'b', 'c', 'd', 'e', 'f'][n]
}

/// Two lowercase hexadecimal digits per byte, high nibble first.
pub open spec fn hex_lower(bytes: Seq<u8>) -> Seq<char>
    decreases bytes.len(),
{
    if bytes.len() == 0 {
        seq![]
    } else {
        hex_lower(bytes.drop_last()) + seq![
            hex_digit(bytes.last() as int / 16),
            hex_digit(bytes.last() as int % 16),
        ]
    }
}

/// Relies on `hex::encode`: lowercase hexadecimal text of the bytes.
#[verifier::external_body]
pub(crate) fn hex_encode(bytes: &[u8]) -> (r: String)
    ensures
        r@ == hex_lower(bytes@),
{
    hex::encode(bytes)
}

/// Relies on `ed25519_dalek::SigningKey::from_bytes(..).verifying_key()`: the
/// public key of the secret key.
#[verifier::external_body]
pub(crate) fn ed25519_public_key(secret: &[u8; 32]) -> (r: [u8; 32])
    ensures
        r@ == ed25519_public_of(secret@),
{
    ed25519_dalek::SigningKey::from_bytes(secret).verifying_key().to_bytes()
}

/// Relies on `ed25519_dalek::Signer::sign` for `SigningKey`: the signature of
/// the message, a function of key and message.
#[verifier::external_body]
pub(crate) fn ed25519_sign(secret: &[u8; 32], message: &[u8]) -> (r: [u8; 64])
    ensures
        r@ == ed25519_signature_of(secret@, message@),
{
    let key = ed25519_dalek::SigningKey::from_bytes(secret);
    ed25519_dalek::Signer::sign(&key, message).to_bytes()
}

/// Relies on `ed25519_dalek::VerifyingKey::from_bytes` and
/// `ed25519_dalek::Verifier::verify`: success exactly when the key decodes and
/// the signature checks.
#[verifier::external_body]
pub(crate) fn ed25519_verify(public: &[u8; 32], message: &[u8], signature: &[u8; 64]) -> (r: Result<
    (),
    ed25519_dalek::SignatureError,
>)
    ensures
        r is Ok <==> ed25519_accepts(public@, message@, signature@),
{
    match ed25519_dalek::VerifyingKey::from_bytes(public) {
        Ok(key) => ed25519_dalek::Verifier::verify(
            &key,
            message,
            &ed25519_dalek::Signature::from_bytes(signature),
        ),
        Err(e) => Err(e),
    }
}

/// Relies on `ed25519_dalek::SigningKey::generate` with the operating system's
/// random source: fresh secret key bytes.
#[verifier::external_body]
pub(crate) fn random_secret_key() -> (r: [u8; 32]) {
    ed25519_dalek::SigningKey::generate(&mut rand::rngs::OsRng).to_bytes()
}

/// Relies on `rand::Rng::fill` with `rand::thread_rng()`: 16 random bytes.
#[verifier::external_body]
pub(crate) fn random_entropy() -> (r: [u8; 16]) {
    let mut entropy = [0u8; 16];
    rand::Rng::fill(&mut rand::thread_rng(), &mut entropy);
    entropy
}

/// Relies on `chrono::Utc::now().timestamp_millis()`: the wall clock, in
/// milliseconds since the Unix epoch.
#[verifier::external_body]
pub(crate) fn now_millis() -> (r: i64) {
    chrono::Utc::now().timestamp_millis()
}

/// Relies on `hkdf::Hkdf::<sha2::Sha512>::new(None, ..).expand`: expansion to
/// 32 bytes, which is under the limit of 255 blocks and so never fails.
#[verifier::external_body]
pub(crate) fn hkdf_sha512_expand(ikm: &[u8], info: &[u8]) -> (r: Result<[u8; 32], hkdf::InvalidLength>)
    ensures
        r is Ok,
        r matches Ok(k) ==> k@ == hkdf_sha512_32(ikm@, info@),
{
    let mut okm = [0u8; 32];
    match hkdf::Hkdf::<sha2::Sha512>::new(None, ikm).expand(info, &mut okm) {
        Ok(()) => Ok(okm),
        Err(e) => Err(e),
    }
}

/// Relies on `bip39::Mnemonic::from_entropy` and its `Display`: the English
/// phrase, which `parse_in_normalized` accepts; 16 bytes are a valid entropy
/// length, so this never fails.
#[verifier::external_body]
pub(crate) fn bip39_phrase(entropy: &[u8; 16]) -> (r: Result<String, bip39::Error>)
    ensures
        r is Ok,
        r matches Ok(s) ==> s@ == bip39_phrase_of(entropy@),
        r matches Ok(s) ==> bip39_seed_of(s@) is Some,
{
    match bip39::Mnemonic::from_entropy(entropy) {
        Ok(m) => Ok(m.to_string()),
        Err(e) => Err(e),
    }
}

/// Relies on `bip39::Mnemonic::parse_in_normalized` (English) and `to_seed("")`:
/// the seed of a valid phrase, or the parse error.
#[verifier::external_body]
pub(crate) fn bip39_seed(phrase: &str) -> (r: Result<[u8; 64], bip39::Error>)
    ensures
        match r {
            Ok(seed) => bip39_seed_of(phrase@) == Some(seed@),
            Err(_) => bip39_seed_of(phrase@) is None,
        },
{
    match bip39::Mnemonic::parse_in_normalized(bip39::Language::English, phrase) {
        Ok(m) => Ok(m.to_seed("")),
        Err(e) => Err(e),
    }
}

} // verus!
