//! Signing identities: Ed25519 key pairs and the named registry that holds them.

use vstd::prelude::*;

use crate::address::Address;
use crate::error::{WalletError, WalletResult};
use crate::primitives::{
    base58_encode,
    base58_of,
    ed25519_accepts,
    ed25519_public_key,
    ed25519_public_of,
    ed25519_sign,
    ed25519_signature_of,
    ed25519_verify,
    random_secret_key,
};
use crate::transaction::{
    input_models,
    output_models,
    transaction_hash,
    transaction_hash_of,
    TransactionInput,
    TransactionOutput,
};

verus! {

/// The chain-native address text of a public key: `nock_` and its base58.
pub open spec fn nock_address_of(public: Seq<u8>) -> Seq<char> {
    "nock_"@ + base58_of(public)
}

/// A key pair, held as its 32 secret bytes together with what they
/// determine: the public key, the address and the chain-native address text.
#[derive(Debug)]
pub struct NockchainKeyPair {
    secret: [u8; 32],
    public: [u8; 32],
    address: Address,
    nockchain_address: String,
}

pub type KeyPair = NockchainKeyPair;

impl View for NockchainKeyPair {
    type V = Seq<u8>;

    /// The secret key bytes.
    closed spec fn view(&self) -> Seq<u8> {
        self.secret@
    }
}

impl NockchainKeyPair {
    #[verifier::type_invariant]
    closed spec fn derived(&self) -> bool {
        &&& self.public@ == ed25519_public_of(self.secret@)
        &&& self.address.public_key == self.public
        &&& self.nockchain_address@ == nock_address_of(self.public@)
    }

    fn from_secret(secret: [u8; 32]) -> (r: Self)
        ensures
            r@ == secret@,
    {
        let public = ed25519_public_key(&secret);
        let encoded = base58_encode(&public);
        let mut nockchain_address = "nock_".to_string();
        nockchain_address.append(encoded.as_str());
        NockchainKeyPair {
            secret,
            public,
            address: Address::from_public_key(public),
            nockchain_address,
        }
    }

    /// A fresh key pair from the operating system's random source.
    pub fn generate() -> (r: WalletResult<Self>)
        ensures
            r is Ok,
    {
        Ok(Self::from_secret(random_secret_key()))
    }

    /// The key pair of 32 secret bytes; `Crypto` for any other length.
    pub fn from_secret_bytes(secret_bytes: &[u8]) -> (r: WalletResult<Self>)
        ensures
            secret_bytes@.len() == 32 ==> (r matches Ok(k) && k@ == secret_bytes@),
            secret_bytes@.len() != 32 ==> r matches Err(WalletError::Crypto(_)),
    {
        if secret_bytes.len() != 32 {
            return Err(WalletError::Crypto("Invalid secret key length".to_string()));
        }
        let secret = crate::bytes::fit_to_32(secret_bytes);
        assert(secret@ =~= secret_bytes@);
        Ok(Self::from_secret(secret))
    }

    /// The deterministic Ed25519 signature of the message.
    pub fn sign(&self, message: &[u8]) -> (r: WalletResult<[u8; 64]>)
        ensures
            r matches Ok(s) && s@ == ed25519_signature_of(self@, message@),
    {
        Ok(ed25519_sign(&self.secret, message))
    }

    /// Checks a signature of the message under this key pair's public key;
    /// `Crypto` where it does not hold.
    pub fn verify(&self, message: &[u8], signature: &[u8; 64]) -> (r: WalletResult<()>)
        ensures
            r is Ok <==> ed25519_accepts(ed25519_public_of(self@), message@, signature@),
            r matches Err(e) ==> e matches WalletError::Crypto(_),
    {
        proof {
            use_type_invariant(self);
        }
        match ed25519_verify(&self.public, message, signature) {
            Ok(()) => Ok(()),
            Err(_) => Err(WalletError::Crypto("Signature verification failed".to_string())),
        }
    }

    pub fn secret_bytes(&self) -> (r: [u8; 32])
        ensures
            r@ == self@,
    {
        self.secret
    }

    pub fn public_bytes(&self) -> (r: [u8; 32])
        ensures
            r@ == ed25519_public_of(self@),
    {
        proof {
            use_type_invariant(self);
        }
        self.public
    }

    /// The address of the public key.
    pub fn address(&self) -> (r: Address)
        ensures
            r.public_key@ == ed25519_public_of(self@),
    {
        proof {
            use_type_invariant(self);
        }
        self.address
    }

    /// The chain-native address text: `nock_` and the base58 of the public key.
    pub fn nockchain_address(&self) -> (r: String)
        ensures
            r@ == nock_address_of(ed25519_public_of(self@)),
    {
        proof {
            use_type_invariant(self);
        }
        self.nockchain_address.clone()
    }
}

pub open spec fn names_of(entries: Seq<(String, NockchainKeyPair)>) -> Seq<Seq<char>> {
    entries.map_values(|e: (String, NockchainKeyPair)| e.0@)
}

pub open spec fn unique_names(entries: Seq<(String, NockchainKeyPair)>) -> bool {
    forall|i: int, j: int|
        0 <= i < entries.len() && 0 <= j < entries.len() && i != j ==> (#[trigger] entries[i]).0@
            != (#[trigger] entries[j]).0@
}

/// Name to secret key, for entries with unique names.
pub open spec fn key_map(entries: Seq<(String, NockchainKeyPair)>) -> Map<Seq<char>, Seq<u8>> {
    Map::new(
        |k: Seq<char>| exists|i: int| 0 <= i < entries.len() && (#[trigger] entries[i]).0@ == k,
        |k: Seq<char>|
            entries[choose|i: int| 0 <= i < entries.len() && (#[trigger] entries[i]).0@ == k].1@,
    )
}

proof fn lemma_key_map_at(entries: Seq<(String, NockchainKeyPair)>, i: int)
    requires
        unique_names(entries),
        0 <= i < entries.len(),
    ensures
        key_map(entries).contains_key(entries[i].0@),
        key_map(entries)[entries[i].0@] == entries[i].1@,
{
    let k = entries[i].0@;
    assert(key_map(entries).dom().contains(k));
    let j = choose|j: int| 0 <= j < entries.len() && (#[trigger] entries[j]).0@ == k;
    if j != i {
        assert(entries[j].0@ != entries[i].0@);
    }
}

proof fn lemma_key_map_set(
    old_entries: Seq<(String, NockchainKeyPair)>,
    new_entries: Seq<(String, NockchainKeyPair)>,
    at: int,
)
    requires
        unique_names(old_entries),
        unique_names(new_entries),
        0 <= at < new_entries.len(),
        at == old_entries.len() ==> new_entries == old_entries.push(new_entries[at]),
        at < old_entries.len() ==> new_entries == old_entries.update(at, new_entries[at])
            && old_entries[at].0@ == new_entries[at].0@,
        at <= old_entries.len(),
    ensures
        key_map(new_entries) == key_map(old_entries).insert(new_entries[at].0@, new_entries[at].1@),
{
    let name = new_entries[at].0@;
    let m = key_map(old_entries).insert(name, new_entries[at].1@);
    assert forall|k: Seq<char>| #[trigger] key_map(new_entries).contains_key(k) <==> m.contains_key(k) by {
        if key_map(new_entries).contains_key(k) {
            let j = choose|j: int| 0 <= j < new_entries.len() && (#[trigger] new_entries[j]).0@ == k;
            if j != at {
                assert(old_entries[j] == new_entries[j]);
                assert(key_map(old_entries).contains_key(k));
            }
        }
        if m.contains_key(k) && k != name {
            let j = choose|j: int| 0 <= j < old_entries.len() && (#[trigger] old_entries[j]).0@ == k;
            assert(new_entries[j] == old_entries[j]);
            assert(key_map(new_entries).contains_key(k));
        }
        if k == name {
            assert(key_map(new_entries).contains_key(k));
        }
    }
    assert forall|k: Seq<char>| #[trigger] key_map(new_entries).contains_key(k) implies key_map(
        new_entries,
    )[k] == m[k] by {
        let j = choose|j: int| 0 <= j < new_entries.len() && (#[trigger] new_entries[j]).0@ == k;
        lemma_key_map_at(new_entries, j);
        if j != at {
            assert(old_entries[j] == new_entries[j]);
            lemma_key_map_at(old_entries, j);
            assert(k != name);
        }
    }
    assert(key_map(new_entries) =~= m);
}

proof fn lemma_key_map_remove(entries: Seq<(String, NockchainKeyPair)>, at: int)
    requires
        unique_names(entries),
        0 <= at < entries.len(),
    ensures
        unique_names(entries.remove(at)),
        key_map(entries.remove(at)) == key_map(entries).remove(entries[at].0@),
{
    let rest = entries.remove(at);
    let name = entries[at].0@;
    let m = key_map(entries).remove(name);
    assert forall|i: int, j: int|
        0 <= i < rest.len() && 0 <= j < rest.len() && i != j implies (#[trigger] rest[i]).0@
        != (#[trigger] rest[j]).0@ by {
        let a = if i < at { i } else { i + 1 };
        let b = if j < at { j } else { j + 1 };
        assert(rest[i] == entries[a] && rest[j] == entries[b]);
    }
    assert forall|k: Seq<char>| #[trigger] key_map(rest).contains_key(k) <==> m.contains_key(k) by {
        if key_map(rest).contains_key(k) {
            let j = choose|j: int| 0 <= j < rest.len() && (#[trigger] rest[j]).0@ == k;
            let a = if j < at { j } else { j + 1 };
            assert(rest[j] == entries[a]);
            assert(key_map(entries).contains_key(k));
            assert(entries[a].0@ != entries[at].0@);
        }
        if m.contains_key(k) {
            let j = choose|j: int| 0 <= j < entries.len() && (#[trigger] entries[j]).0@ == k;
            assert(j != at);
            let r = if j < at { j } else { j - 1 };
            assert(rest[r] == entries[j]);
            assert(key_map(rest).contains_key(k));
        }
    }
    assert forall|k: Seq<char>| #[trigger] key_map(rest).contains_key(k) implies key_map(rest)[k]
        == m[k] by {
        let j = choose|j: int| 0 <= j < rest.len() && (#[trigger] rest[j]).0@ == k;
        let a = if j < at { j } else { j + 1 };
        assert(rest[j] == entries[a]);
        lemma_key_map_at(rest, j);
        lemma_key_map_at(entries, a);
    }
    assert(key_map(rest) =~= m);
}

/// A registry of key pairs by name.
#[derive(Debug)]
pub struct NockchainKeyManager {
    keys: Vec<(String, NockchainKeyPair)>,
}

pub type KeyManager = NockchainKeyManager;

impl View for NockchainKeyManager {
    type V = Map<Seq<char>, Seq<u8>>;

    /// Each registered name with its secret key.
    closed spec fn view(&self) -> Map<Seq<char>, Seq<u8>> {
        key_map(self.keys@)
    }
}

impl NockchainKeyManager {
    /// The registered names in order of registration.
    pub closed spec fn names(&self) -> Seq<Seq<char>> {
        names_of(self.keys@)
    }

    /// Names are unique; the names in order are the map's keys.
    pub closed spec fn wf(&self) -> bool {
        unique_names(self.keys@)
    }

    pub fn new() -> (r: Self)
        ensures
            r.wf(),
            r@ == Map::<Seq<char>, Seq<u8>>::empty(),
    {
        let r = NockchainKeyManager { keys: Vec::new() };
        assert(r@ =~= Map::<Seq<char>, Seq<u8>>::empty());
        r
    }

    fn find(&self, name: &String) -> (r: Option<usize>)
        requires
            self.wf(),
        ensures
            match r {
                Some(i) => i < self.keys@.len() && self.keys@[i as int].0@ == name@,
                None => !self@.contains_key(name@),
            },
    {
        let mut i: usize = 0;
        while i < self.keys.len()
            invariant
                i <= self.keys@.len(),
                forall|k: int| 0 <= k < i ==> (#[trigger] self.keys@[k]).0@ != name@,
            decreases self.keys@.len() - i,
        {
            if self.keys[i].0 == *name {
                return Some(i);
            }
            i += 1;
        }
        None
    }

    fn put(&mut self, name: String, keypair: NockchainKeyPair)
        requires
            old(self).wf(),
        ensures
            final(self).wf(),
            final(self)@ == old(self)@.insert(name@, keypair@),
    {
        let ghost old_entries = self.keys@;
        let ghost kp = keypair@;
        let ghost nm = name@;
        match self.find(&name) {
            Some(i) => {
                self.keys[i] = (name, keypair);
                proof {
                    assert forall|a: int, b: int|
                        0 <= a < self.keys@.len() && 0 <= b < self.keys@.len() && a != b implies (#[trigger] self.keys@[a]).0@
                        != (#[trigger] self.keys@[b]).0@ by {
                        assert(old_entries[a].0@ != old_entries[b].0@);
                    }
                    lemma_key_map_set(old_entries, self.keys@, i as int);
                }
            },
            None => {
                self.keys.push((name, keypair));
                proof {
                    assert forall|a: int, b: int|
                        0 <= a < self.keys@.len() && 0 <= b < self.keys@.len() && a != b implies (#[trigger] self.keys@[a]).0@
                        != (#[trigger] self.keys@[b]).0@ by {
                        if a < old_entries.len() && b < old_entries.len() {
                            assert(old_entries[a].0@ != old_entries[b].0@);
                        } else if a < old_entries.len() {
                            assert(key_map(old_entries).contains_key(old_entries[a].0@));
                        } else {
                            assert(key_map(old_entries).contains_key(old_entries[b].0@));
                        }
                    }
                    lemma_key_map_set(old_entries, self.keys@, old_entries.len() as int);
                }
            },
        }
    }

    /// Registers a fresh random key pair under `name` and returns its
    /// address; `KeyExists`, changing nothing, where the name is taken.
    pub fn generate_key(&mut self, name: String) -> (r: WalletResult<Address>)
        requires
            old(self).wf(),
        ensures
            final(self).wf(),
            old(self)@.contains_key(name@) ==> (r matches Err(WalletError::KeyExists(s)) && s@
                == name@ && final(self)@ == old(self)@),
            !old(self)@.contains_key(name@) ==> (r matches Ok(a) && exists|secret: Seq<u8>|
                final(self)@ == old(self)@.insert(name@, secret) && a.public_key@
                    == ed25519_public_of(secret)),
    {
        if self.find(&name).is_some() {
            return Err(WalletError::KeyExists(name));
        }
        let keypair = NockchainKeyPair::from_secret(random_secret_key());
        let address = keypair.address();
        self.put(name, keypair);
        Ok(address)
    }

    /// Registers the key pair of 32 secret bytes under `name`, replacing any
    /// pair of that name, and returns its address; `Crypto`, changing
    /// nothing, for another length.
    pub fn import_key(&mut self, name: String, secret_bytes: &[u8]) -> (r: WalletResult<Address>)
        requires
            old(self).wf(),
        ensures
            final(self).wf(),
            secret_bytes@.len() == 32 ==> (r matches Ok(a) && a.public_key@ == ed25519_public_of(
                secret_bytes@,
            ) && final(self)@ == old(self)@.insert(name@, secret_bytes@)),
            secret_bytes@.len() != 32 ==> (r matches Err(WalletError::Crypto(_)) && final(self)@
                == old(self)@),
    {
        let keypair = NockchainKeyPair::from_secret_bytes(secret_bytes)?;
        let address = keypair.address();
        self.put(name, keypair);
        Ok(address)
    }

    /// The key pair registered under `name`; `KeyNotFound` where there is none.
    pub fn get_key(&self, name: &str) -> (r: WalletResult<&NockchainKeyPair>)
        requires
            self.wf(),
        ensures
            self@.contains_key(name@) ==> (r matches Ok(k) && k@ == self@[name@]),
            !self@.contains_key(name@) ==> (r matches Err(WalletError::KeyNotFound(s)) && s@
                == name@),
    {
        let owned = name.to_string();
        match self.find(&owned) {
            Some(i) => {
                proof {
                    lemma_key_map_at(self.keys@, i as int);
                }
                Ok(&self.keys[i].1)
            },
            None => Err(WalletError::KeyNotFound(owned)),
        }
    }

    /// The registered names, in order of registration.
    pub fn list_keys(&self) -> (r: Vec<String>)
        requires
            self.wf(),
        ensures
            r@.map_values(|s: String| s@) == self.names(),
    {
        let mut out: Vec<String> = Vec::new();
        let mut i: usize = 0;
        while i < self.keys.len()
            invariant
                i <= self.keys@.len(),
                out@.len() == i,
                forall|k: int| 0 <= k < i ==> (#[trigger] out@[k])@ == self.keys@[k].0@,
            decreases self.keys@.len() - i,
        {
            out.push(self.keys[i].0.clone());
            i += 1;
        }
        assert(out@.map_values(|s: String| s@) =~= self.names());
        out
    }

    /// The address of every registered key pair, in order of registration.
    pub fn get_addresses(&self) -> (r: Vec<Address>)
        requires
            self.wf(),
        ensures
            r@.len() == self.names().len(),
            forall|k: int|
                0 <= k < r@.len() ==> (#[trigger] r@[k]).public_key@ == ed25519_public_of(
                    self@[self.names()[k]],
                ),
    {
        let mut out: Vec<Address> = Vec::new();
        let mut i: usize = 0;
        while i < self.keys.len()
            invariant
                self.wf(),
                i <= self.keys@.len(),
                out@.len() == i,
                forall|k: int|
                    0 <= k < i ==> (#[trigger] out@[k]).public_key@ == ed25519_public_of(
                        self@[self.names()[k]],
                    ),
            decreases self.keys@.len() - i,
        {
            proof {
                lemma_key_map_at(self.keys@, i as int);
            }
            out.push(self.keys[i].1.address());
            i += 1;
        }
        out
    }

    /// The chain-native address text of every registered key pair, in order
    /// of registration.
    pub fn get_nockchain_addresses(&self) -> (r: Vec<String>)
        requires
            self.wf(),
        ensures
            r@.len() == self.names().len(),
            forall|k: int|
                0 <= k < r@.len() ==> (#[trigger] r@[k])@ == nock_address_of(
                    ed25519_public_of(self@[self.names()[k]]),
                ),
    {
        let mut out: Vec<String> = Vec::new();
        let mut i: usize = 0;
        while i < self.keys.len()
            invariant
                self.wf(),
                i <= self.keys@.len(),
                out@.len() == i,
                forall|k: int|
                    0 <= k < i ==> (#[trigger] out@[k])@ == nock_address_of(
                        ed25519_public_of(self@[self.names()[k]]),
                    ),
            decreases self.keys@.len() - i,
        {
            proof {
                lemma_key_map_at(self.keys@, i as int);
            }
            out.push(self.keys[i].1.nockchain_address());
            i += 1;
        }
        out
    }

    /// Removes the key pair registered under `name`; `KeyNotFound`,
    /// changing nothing, where there is none.
    pub fn remove_key(&mut self, name: &str) -> (r: WalletResult<()>)
        requires
            old(self).wf(),
        ensures
            final(self).wf(),
            old(self)@.contains_key(name@) ==> (r is Ok && final(self)@ == old(self)@.remove(name@)),
            !old(self)@.contains_key(name@) ==> (r matches Err(WalletError::KeyNotFound(s)) && s@
                == name@ && final(self)@ == old(self)@),
    {
        let owned = name.to_string();
        match self.find(&owned) {
            Some(i) => {
                proof {
                    lemma_key_map_remove(self.keys@, i as int);
                }
                let _removed = self.keys.remove(i);
                Ok(())
            },
            None => Err(WalletError::KeyNotFound(owned)),
        }
    }

    /// The signature of the message under the key pair named `name`;
    /// `KeyNotFound` where there is none.
    pub fn sign_with_key(&self, key_name: &str, message: &[u8]) -> (r: WalletResult<[u8; 64]>)
        requires
            self.wf(),
        ensures
            self@.contains_key(key_name@) ==> (r matches Ok(s) && s@ == ed25519_signature_of(
                self@[key_name@],
                message@,
            )),
            !self@.contains_key(key_name@) ==> (r matches Err(WalletError::KeyNotFound(s)) && s@
                == key_name@),
    {
        let keypair = self.get_key(key_name)?;
        keypair.sign(message)
    }

    /// The same signature, as a byte vector.
    pub fn sign_nockchain_transaction(&self, key_name: &str, transaction_bytes: &[u8]) -> (r:
        WalletResult<Vec<u8>>)
        requires
            self.wf(),
        ensures
            self@.contains_key(key_name@) ==> (r matches Ok(s) && s@ == ed25519_signature_of(
                self@[key_name@],
                transaction_bytes@,
            )),
            !self@.contains_key(key_name@) ==> (r matches Err(WalletError::KeyNotFound(s)) && s@
                == key_name@),
    {
        let signature = self.sign_with_key(key_name, transaction_bytes)?;
        Ok(vstd::slice::slice_to_vec(&signature))
    }

    /// SHA-256 over every input (id text, output index, signature, public
    /// key, amount), every output (amount, recipient text, script) and the
    /// fee, integers little-endian.
    pub fn create_transaction_hash(
        &self,
        inputs: &[TransactionInput],
        outputs: &[TransactionOutput],
        fee: u64,
    ) -> (r: Vec<u8>)
        ensures
            r@ == transaction_hash_of(input_models(inputs@), output_models(outputs@), fee),
            r@.len() == 32,
    {
        transaction_hash(inputs, outputs, fee)
    }
}

} // verus!
