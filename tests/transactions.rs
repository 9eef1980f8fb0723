use nock_wallet::{
    Address, Balance, BalanceManager, KeyManager, NockchainTransaction, Note, OutPoint,
    SignedTransaction, TransactionBuilder, TransactionInput, TransactionManager,
    TransactionOutput, TransactionStatus, WalletError,
};
use sha2::{Digest, Sha256};

fn input(id: &str, index: u32, amount: u64) -> TransactionInput {
    TransactionInput {
        previous_output: OutPoint { transaction_id: id.to_string(), output_index: index },
        signature: vec![0xaa, 0xbb],
        public_key: [4; 32],
        amount,
    }
}

fn output(amount: u64, to: &str) -> TransactionOutput {
    TransactionOutput { amount, recipient_address: to.to_string(), script_pubkey: vec![0x51] }
}

fn reference_hash(inputs: &[TransactionInput], outputs: &[TransactionOutput], fee: u64) -> Vec<u8> {
    let mut h = Sha256::new();
    for i in inputs {
        h.update(i.previous_output.transaction_id.as_bytes());
        h.update(i.previous_output.output_index.to_le_bytes());
        h.update(&i.signature);
        h.update(i.public_key);
        h.update(i.amount.to_le_bytes());
    }
    for o in outputs {
        h.update(o.amount.to_le_bytes());
        h.update(o.recipient_address.as_bytes());
        h.update(&o.script_pubkey);
    }
    h.update(fee.to_le_bytes());
    h.finalize().to_vec()
}

#[test]
fn builder_totals() {
    let mut b = TransactionBuilder::new();
    assert_eq!(b.total_input(), 0);
    b.add_input(input("a", 0, 30));
    b.add_input(input("b", 1, 12));
    b.add_output(output(40, "x"));
    b.set_fee(2);
    assert_eq!(b.total_input(), 42);
    assert_eq!(b.total_output(), 40);
    assert_eq!(b.validate(), Ok(()));
}

#[test]
fn validate_needs_inputs_and_outputs() {
    let mut b = TransactionBuilder::new();
    assert_eq!(b.validate(), Err(WalletError::Transaction("No inputs provided".to_string())));
    b.add_input(input("a", 0, 30));
    assert_eq!(b.validate(), Err(WalletError::Transaction("No outputs provided".to_string())));
}

#[test]
fn validate_reports_exact_shortfall() {
    let mut b = TransactionBuilder::new();
    b.add_input(input("a", 0, 100));
    b.add_output(output(95, "x"));
    b.set_fee(10);
    assert_eq!(b.validate(), Err(WalletError::InsufficientFunds { required: 105, available: 100 }));
    b.set_fee(5);
    assert_eq!(b.validate(), Ok(()));
}

#[test]
fn transaction_hash_matches_reference_and_is_deterministic() {
    let km = KeyManager::new();
    let inputs = vec![input("prev-1", 3, 70), input("prev-2", 0, 5)];
    let outputs = vec![output(60, "recipient"), output(10, "change")];
    let h1 = km.create_transaction_hash(&inputs, &outputs, 5);
    let h2 = km.create_transaction_hash(&inputs, &outputs, 5);
    assert_eq!(h1, h2);
    assert_eq!(h1, reference_hash(&inputs, &outputs, 5));
    assert_eq!(h1.len(), 32);
}

#[test]
fn transaction_hash_changes_with_any_byte() {
    let km = KeyManager::new();
    let inputs = vec![input("prev-1", 3, 70)];
    let outputs = vec![output(60, "recipient")];
    let base = km.create_transaction_hash(&inputs, &outputs, 5);
    assert_ne!(km.create_transaction_hash(&inputs, &outputs, 6), base);

    let mut changed = inputs.clone();
    changed[0].previous_output.transaction_id = "prev-2".to_string();
    assert_ne!(km.create_transaction_hash(&changed, &outputs, 5), base);
    let mut changed = inputs.clone();
    changed[0].previous_output.output_index = 4;
    assert_ne!(km.create_transaction_hash(&changed, &outputs, 5), base);
    let mut changed = inputs.clone();
    changed[0].signature[1] ^= 1;
    assert_ne!(km.create_transaction_hash(&changed, &outputs, 5), base);
    let mut changed = inputs.clone();
    changed[0].public_key[31] ^= 1;
    assert_ne!(km.create_transaction_hash(&changed, &outputs, 5), base);
    let mut changed = inputs.clone();
    changed[0].amount = 71;
    assert_ne!(km.create_transaction_hash(&changed, &outputs, 5), base);

    let mut changed = outputs.clone();
    changed[0].amount = 61;
    assert_ne!(km.create_transaction_hash(&inputs, &changed, 5), base);
    let mut changed = outputs.clone();
    changed[0].recipient_address = "recipienT".to_string();
    assert_ne!(km.create_transaction_hash(&inputs, &changed, 5), base);
    let mut changed = outputs.clone();
    changed[0].script_pubkey[0] = 0x52;
    assert_ne!(km.create_transaction_hash(&inputs, &changed, 5), base);
}

#[test]
fn legacy_hash_omits_amounts_and_fee() {
    let inputs = vec![input("p", 1, 70)];
    let outputs = vec![output(60, "r")];
    let mut h = Sha256::new();
    h.update(b"p");
    h.update(1u32.to_le_bytes());
    h.update([0xaa, 0xbb]);
    h.update([4u8; 32]);
    h.update(60u64.to_le_bytes());
    h.update(b"r");
    h.update([0x51]);
    let expected = h.finalize().to_vec();
    assert_eq!(NockchainTransaction::create_transaction_hash(&inputs, &outputs), expected);
}

fn confirmed_note(id: u128, owner: Address, amount: u64) -> Note {
    Note {
        id,
        address: owner,
        amount,
        block_height: Some(10),
        transaction_id: format!("funding-{}", id),
        output_index: id as u32,
        spent: false,
        locked: false,
        created_at: 0,
    }
}

#[test]
fn end_to_end_spend() {
    let mut km = KeyManager::new();
    let owner = km.generate_key("alice".to_string()).unwrap();
    let recipient = Address::from_public_key([8; 32]);

    let mut ledger = BalanceManager::new();
    ledger.add_note(confirmed_note(1, owner, 100)).unwrap();
    ledger.add_note(confirmed_note(2, owner, 50)).unwrap();
    assert_eq!(ledger.get_balance(&owner), Balance { confirmed: 150, unconfirmed: 0, locked: 0 });

    let selected = ledger.get_spendable_notes(&owner, 120);
    let amounts: Vec<u64> = selected.iter().map(|n| n.amount).collect();
    assert_eq!(amounts, vec![100, 50]);
    assert!(amounts.iter().sum::<u64>() >= 120);

    let mut builder = TransactionBuilder::new();
    for n in &selected {
        builder.add_input(TransactionInput {
            previous_output: OutPoint {
                transaction_id: n.transaction_id.clone(),
                output_index: n.output_index,
            },
            signature: vec![],
            public_key: owner.public_key,
            amount: n.amount,
        });
    }
    builder.add_output(TransactionOutput {
        amount: 140,
        recipient_address: recipient.to_string(),
        script_pubkey: vec![],
    });
    builder.set_fee(10);
    assert_eq!(builder.validate(), Ok(()));

    let signed: SignedTransaction = builder.build_and_sign(&km, "alice").unwrap();
    let inputs: Vec<TransactionInput> = selected
        .iter()
        .map(|n| TransactionInput {
            previous_output: OutPoint {
                transaction_id: n.transaction_id.clone(),
                output_index: n.output_index,
            },
            signature: vec![],
            public_key: owner.public_key,
            amount: n.amount,
        })
        .collect();
    let expected = reference_hash(&inputs, &signed.outputs, 10);
    assert_eq!(signed.hash, expected);
    assert_eq!(signed.id, hex::encode(&expected));
    assert_eq!(signed.fee, 10);
    assert_eq!(signed.inputs.len(), 2);
    assert_eq!(signed.signature, km.sign_with_key("alice", &expected).unwrap().to_vec());
    let sig: [u8; 64] = signed.signature.clone().try_into().unwrap();
    assert_eq!(km.get_key("alice").unwrap().verify(&signed.hash, &sig), Ok(()));

    for n in &selected {
        ledger.spend_note(n.id).unwrap();
    }
    assert_eq!(ledger.get_balance(&owner), Balance::new());

    let mut history = TransactionManager::new();
    history.add_pending_transaction(signed, true);
    let pending = history.get_pending_transactions();
    assert_eq!(pending.len(), 1);
    assert_eq!(pending[0].amount, 140);
    assert_eq!(pending[0].fee, 10);
    assert_eq!(pending[0].to_address, Some(recipient));
    assert_eq!(pending[0].id, hex::encode(&expected));
    let id = pending[0].id.clone();
    history.confirm_transaction(&id, 11).unwrap();
    assert!(history.get_pending_transactions().is_empty());
    let confirmed = history.get_confirmed_transactions();
    assert!(matches!(confirmed[0].status, TransactionStatus::Confirmed { block_height: 11 }));
    assert!(confirmed[0].confirmed_at.is_some());
}

#[test]
fn build_and_sign_errors() {
    let km = KeyManager::new();
    let mut builder = TransactionBuilder::new();
    assert!(matches!(builder.build_and_sign(&km, "k"), Err(WalletError::Transaction(_))));
    builder.add_input(input("a", 0, 10));
    builder.add_output(output(5, "x"));
    assert!(matches!(builder.build_and_sign(&km, "k"), Err(WalletError::KeyNotFound(_))));
    builder.set_fee(6);
    assert_eq!(
        builder.build_and_sign(&km, "k").err(),
        Some(WalletError::InsufficientFunds { required: 11, available: 10 })
    );
}

fn signed(id: &str, outputs: Vec<TransactionOutput>) -> SignedTransaction {
    SignedTransaction {
        id: id.to_string(),
        inputs: vec![],
        outputs,
        fee: 1,
        signature: vec![],
        hash: vec![],
    }
}

#[test]
fn history_records_and_confirms() {
    let mut h = TransactionManager::new();
    h.add_pending_transaction_at(signed("t1", vec![output(3, "nope"), output(4, "x")]), false, 100);
    h.add_pending_transaction_at(signed("t2", vec![]), true, 300);
    h.add_pending_transaction_at(signed("t1", vec![output(1, "y")]), true, 200);
    let p = h.get_pending_transactions();
    assert_eq!(p[0].amount, 7);
    assert_eq!(p[0].to_address, None);
    assert_eq!(p[0].from_address, None);
    assert_eq!(p[0].status, TransactionStatus::Pending);
    assert_eq!(p[1].amount, 0);
    assert!(p[1].is_outgoing);

    assert!(matches!(h.confirm_transaction_at("zz", 5, 999), Err(WalletError::Transaction(_))));
    assert_eq!(h.get_pending_transactions().len(), 3);

    h.confirm_transaction_at("t1", 5, 400).unwrap();
    let p = h.get_pending_transactions();
    assert_eq!(p.len(), 2);
    assert_eq!(p[1].created_at, 200);
    let c = h.get_confirmed_transactions();
    assert_eq!(c[0].created_at, 100);
    assert_eq!(c[0].confirmed_at, Some(400));
    assert_eq!(c[0].status, TransactionStatus::Confirmed { block_height: 5 });

    let all = h.get_all_transactions();
    let times: Vec<i64> = all.iter().map(|t| t.created_at).collect();
    assert_eq!(times, vec![300, 200, 100]);
}

#[test]
fn validate_reports_overflowing_amounts_as_values() {
    let mut b = TransactionBuilder::new();
    b.add_output(output(u64::MAX, "x"));
    b.set_fee(1);
    assert_eq!(b.validate(), Err(WalletError::Transaction("No inputs provided".to_string())));
    b.add_input(input("a", 0, 5));
    assert_eq!(b.validate(), Err(WalletError::Transaction("Amount overflow".to_string())));
    b.set_fee(0);
    b.add_output(output(1, "y"));
    assert_eq!(b.validate(), Err(WalletError::Transaction("Amount overflow".to_string())));

    let mut big = TransactionBuilder::new();
    big.add_input(input("a", 0, u64::MAX));
    big.add_input(input("b", 1, u64::MAX));
    big.add_output(output(u64::MAX - 3, "x"));
    big.set_fee(3);
    assert_eq!(big.validate(), Ok(()));
    big.set_fee(0);
    big.add_output(output(4, "y"));
    assert_eq!(big.validate(), Err(WalletError::Transaction("Amount overflow".to_string())));
}

#[test]
fn missing_key_errors_carry_the_name() {
    let km = KeyManager::new();
    let mut builder = TransactionBuilder::new();
    builder.add_input(input("a", 0, 10));
    builder.add_output(output(5, "x"));
    assert_eq!(
        builder.build_and_sign(&km, "nobody").err(),
        Some(WalletError::KeyNotFound("nobody".to_string()))
    );
    assert_eq!(km.sign_with_key("nobody", b"m"), Err(WalletError::KeyNotFound("nobody".to_string())));
    assert_eq!(km.create_transaction_hash(&[], &[], 0).len(), 32);
}
