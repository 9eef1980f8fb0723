use nock_wallet::{
    derive_nockchain_child_key, generate_nockchain_master_key, generate_nockchain_mnemonic,
    mnemonic_to_nockchain_seed, nockchain_key_from_mnemonic, validate_mnemonic, Address,
    KeyManager, KeyPair, WalletError,
};

const RFC_SECRET: &str = "9d61b19deffd5a60ba844af492ec2cc44449c5697b326919703bac031cae7f60";
const RFC_PUBLIC: &str = "d75a980182b10ab7d54bfed3c964073a0ee172f3daa62325af021a68f707511a";
const RFC_SIGNATURE: &str = "e5564300c360ac729086e2cc806e828a84877f1eb8e5d974d873e065224901555fb8821590a33bacc61e39701cf9b46bd25bf5f0595bbe24655141438e7a100b";
const PHRASE: &str = "abandon abandon abandon abandon abandon abandon abandon abandon abandon abandon abandon about";

fn rfc_secret() -> Vec<u8> {
    hex::decode(RFC_SECRET).unwrap()
}

#[test]
fn key_pair_from_known_secret() {
    let kp = KeyPair::from_secret_bytes(&rfc_secret()).unwrap();
    assert_eq!(hex::encode(kp.public_bytes()), RFC_PUBLIC);
    assert_eq!(hex::encode(kp.secret_bytes()), RFC_SECRET);
    assert_eq!(kp.address().public_key, kp.public_bytes());
    let expected = format!("nock_{}", bs58::encode(kp.public_bytes()).into_string());
    assert_eq!(kp.nockchain_address(), expected);
}

#[test]
fn key_pair_signs_known_vector() {
    let kp = KeyPair::from_secret_bytes(&rfc_secret()).unwrap();
    let sig = kp.sign(&[]).unwrap();
    assert_eq!(hex::encode(sig), RFC_SIGNATURE);
    assert_eq!(kp.verify(&[], &sig), Ok(()));
    let mut bad = sig;
    bad[0] ^= 1;
    assert!(matches!(kp.verify(&[], &bad), Err(WalletError::Crypto(_))));
    assert!(matches!(kp.verify(b"other", &sig), Err(WalletError::Crypto(_))));
}

#[test]
fn wrong_secret_length_is_crypto_error() {
    assert!(matches!(KeyPair::from_secret_bytes(&[1u8; 31]), Err(WalletError::Crypto(_))));
    assert!(matches!(KeyPair::from_secret_bytes(&[1u8; 33]), Err(WalletError::Crypto(_))));
}

#[test]
fn generated_key_pairs_sign_and_verify() {
    let kp = KeyPair::generate().unwrap();
    let sig = kp.sign(b"message").unwrap();
    assert_eq!(kp.verify(b"message", &sig), Ok(()));
    let again = KeyPair::from_secret_bytes(&kp.secret_bytes()).unwrap();
    assert_eq!(again.public_bytes(), kp.public_bytes());
}

#[test]
fn key_manager_registry() {
    let mut km = KeyManager::new();
    let a = km.generate_key("main".to_string()).unwrap();
    assert!(matches!(km.generate_key("main".to_string()), Err(WalletError::KeyExists(_))));
    let b = km.import_key("imported".to_string(), &rfc_secret()).unwrap();
    assert_eq!(hex::encode(b.public_key), RFC_PUBLIC);
    assert!(matches!(km.import_key("bad".to_string(), &[0u8; 5]), Err(WalletError::Crypto(_))));
    assert_eq!(km.list_keys(), vec!["main".to_string(), "imported".to_string()]);
    assert_eq!(km.get_addresses(), vec![a, b]);
    assert_eq!(km.get_nockchain_addresses()[1], format!("nock_{}", b.to_string()));
    assert_eq!(km.get_key("main").unwrap().address(), a);
    assert!(matches!(km.get_key("none"), Err(WalletError::KeyNotFound(_))));

    let sig = km.sign_with_key("imported", &[]).unwrap();
    assert_eq!(hex::encode(sig), RFC_SIGNATURE);
    assert_eq!(km.sign_nockchain_transaction("imported", &[]).unwrap(), sig.to_vec());
    assert!(matches!(km.sign_with_key("none", b"m"), Err(WalletError::KeyNotFound(_))));

    km.remove_key("main").unwrap();
    assert!(matches!(km.remove_key("main"), Err(WalletError::KeyNotFound(_))));
    assert_eq!(km.list_keys(), vec!["imported".to_string()]);

    let replaced = km.import_key("imported".to_string(), &[7u8; 32]).unwrap();
    assert_ne!(replaced, b);
    assert_eq!(km.list_keys().len(), 1);
}

#[test]
fn address_text_round_trip() {
    let a = Address::from_public_key([0u8; 32]);
    assert_eq!(a.to_string(), "11111111111111111111111111111111");
    let kp = KeyPair::from_secret_bytes(&rfc_secret()).unwrap();
    for addr in [a, kp.address(), Address::from_public_key([255u8; 32])] {
        assert_eq!(Address::from_string(&addr.to_string()), Ok(addr));
    }
}

#[test]
fn address_text_of_wrong_length_is_rejected() {
    let short = bs58::encode([1u8; 31]).into_string();
    assert!(matches!(Address::from_string(&short), Err(WalletError::InvalidAddress(_))));
    let long = bs58::encode([1u8; 33]).into_string();
    assert!(matches!(Address::from_string(&long), Err(WalletError::InvalidAddress(_))));
    assert!(matches!(Address::from_string("0OIl"), Err(WalletError::InvalidAddress(_))));
    assert!(matches!(Address::from_string(""), Err(WalletError::InvalidAddress(_))));
}

#[test]
fn address_from_bytes_pads_and_cuts() {
    let a = Address::from_bytes(&[1, 2, 3]);
    let mut expected = [0u8; 32];
    expected[..3].copy_from_slice(&[1, 2, 3]);
    assert_eq!(a.public_key, expected);
    let b = Address::from_bytes(&[9u8; 40]);
    assert_eq!(b.public_key, [9u8; 32]);
}

fn expected_wallet_key(phrase: &str) -> [u8; 32] {
    let m = bip39::Mnemonic::parse_in_normalized(bip39::Language::English, phrase).unwrap();
    let seed = m.to_seed("");
    let hk = hkdf::Hkdf::<sha2::Sha512>::new(None, &seed);
    let mut key = [0u8; 32];
    hk.expand(b"nockchain-wallet-seed", &mut key).unwrap();
    key
}

#[test]
fn mnemonic_validation() {
    assert_eq!(validate_mnemonic(PHRASE), Ok(()));
    let bad_checksum = PHRASE.replace("about", "abandon");
    assert!(matches!(validate_mnemonic(&bad_checksum), Err(WalletError::Crypto(_))));
    assert!(matches!(validate_mnemonic("not a phrase"), Err(WalletError::Crypto(_))));
}

#[test]
fn mnemonic_seed_and_key() {
    let key = mnemonic_to_nockchain_seed(PHRASE).unwrap();
    assert_eq!(key, expected_wallet_key(PHRASE));
    let kp = nockchain_key_from_mnemonic(PHRASE).unwrap();
    assert_eq!(kp.secret_bytes(), key);
    assert!(matches!(mnemonic_to_nockchain_seed("zzz"), Err(WalletError::Crypto(_))));
    assert!(matches!(nockchain_key_from_mnemonic("zzz"), Err(WalletError::Crypto(_))));
}

#[test]
fn generated_mnemonic_is_valid() {
    let phrase = generate_nockchain_mnemonic().unwrap();
    assert_eq!(phrase.split_whitespace().count(), 12);
    assert_eq!(validate_mnemonic(&phrase), Ok(()));
    assert_eq!(mnemonic_to_nockchain_seed(&phrase).unwrap(), expected_wallet_key(&phrase));
    let master = generate_nockchain_master_key().unwrap();
    assert_eq!(master.len(), 32);
}

#[test]
fn child_keys_use_decimal_index_label() {
    let parent = [3u8; 32];
    for index in [0u32, 7, 10, 1234, u32::MAX] {
        let hk = hkdf::Hkdf::<sha2::Sha512>::new(None, &parent);
        let mut expected = [0u8; 32];
        hk.expand(format!("nockchain-child-key-{}", index).as_bytes(), &mut expected).unwrap();
        assert_eq!(derive_nockchain_child_key(&parent, index).unwrap(), expected);
    }
    assert_ne!(
        derive_nockchain_child_key(&parent, 1).unwrap(),
        derive_nockchain_child_key(&parent, 2).unwrap()
    );
}

#[test]
fn registry_errors_carry_the_name() {
    let mut km = KeyManager::new();
    km.generate_key("main".to_string()).unwrap();
    assert_eq!(km.generate_key("main".to_string()), Err(WalletError::KeyExists("main".to_string())));
    assert_eq!(km.remove_key("gone"), Err(WalletError::KeyNotFound("gone".to_string())));
    assert_eq!(km.get_key("gone").err(), Some(WalletError::KeyNotFound("gone".to_string())));
}
