use nock_wallet::{Address, Balance, BalanceManager, Note, WalletError};

fn addr(b: u8) -> Address {
    Address::from_public_key([b; 32])
}

fn note(id: u128, owner: Address, amount: u64, height: Option<u64>) -> Note {
    Note {
        id,
        address: owner,
        amount,
        block_height: height,
        transaction_id: format!("tx{}", id),
        output_index: 0,
        spent: false,
        locked: false,
        created_at: 0,
    }
}

#[test]
fn balance_new_total_available() {
    let b = Balance::new();
    assert_eq!(b, Balance { confirmed: 0, unconfirmed: 0, locked: 0 });
    let b = Balance { confirmed: 70, unconfirmed: 30, locked: 20 };
    assert_eq!(b.total(), 100);
    assert_eq!(b.available(), 50);
    let b = Balance { confirmed: 10, unconfirmed: 0, locked: 25 };
    assert_eq!(b.available(), 0);
}

#[test]
fn balances_follow_add_and_spend() {
    let a = addr(1);
    let b = addr(2);
    let mut m = BalanceManager::new();
    assert_eq!(m.get_balance(&a), Balance::new());
    m.add_note(note(1, a, 100, Some(5))).unwrap();
    m.add_note(note(2, a, 40, None)).unwrap();
    m.add_note(note(3, b, 7, Some(6))).unwrap();
    assert_eq!(m.get_balance(&a), Balance { confirmed: 100, unconfirmed: 40, locked: 0 });
    assert_eq!(m.get_balance(&b), Balance { confirmed: 7, unconfirmed: 0, locked: 0 });
    m.spend_note(1).unwrap();
    assert_eq!(m.get_balance(&a), Balance { confirmed: 0, unconfirmed: 40, locked: 0 });
    m.spend_note(2).unwrap();
    assert_eq!(m.get_balance(&a), Balance::new());
    assert_eq!(m.get_total_balance(), Balance { confirmed: 7, unconfirmed: 0, locked: 0 });
    assert_eq!(m.get_balance(&addr(9)), Balance::new());
}

#[test]
fn double_spend_is_rejected_and_changes_nothing() {
    let a = addr(1);
    let mut m = BalanceManager::new();
    m.add_note(note(1, a, 100, Some(1))).unwrap();
    m.add_note(note(2, a, 50, Some(1))).unwrap();
    m.spend_note(1).unwrap();
    let before = m.get_balance(&a);
    match m.spend_note(1) {
        Err(WalletError::Transaction(msg)) => assert_eq!(msg, "Note already spent"),
        other => panic!("unexpected {:?}", other),
    }
    assert_eq!(m.get_balance(&a), before);
    assert_eq!(before.confirmed, 50);
    let notes = m.get_notes_for_address(&a);
    assert_eq!(notes.len(), 2);
    assert!(notes[0].spent);
    assert!(!notes[1].spent);
}

#[test]
fn spending_unknown_note_is_key_not_found() {
    let mut m = BalanceManager::new();
    assert!(matches!(m.spend_note(42), Err(WalletError::KeyNotFound(_))));
}

#[test]
fn duplicate_note_id_is_rejected() {
    let a = addr(1);
    let mut m = BalanceManager::new();
    m.add_note(note(1, a, 10, Some(1))).unwrap();
    assert!(matches!(m.add_note(note(1, a, 99, Some(1))), Err(WalletError::Transaction(_))));
    assert_eq!(m.get_balance(&a).confirmed, 10);
}

#[test]
fn ledger_overflow_is_rejected() {
    let a = addr(1);
    let b = addr(2);
    let mut m = BalanceManager::new();
    m.add_note(note(1, a, u64::MAX - 5, Some(1))).unwrap();
    assert!(matches!(m.add_note(note(2, b, 6, None)), Err(WalletError::Transaction(_))));
    m.add_note(note(3, b, 5, None)).unwrap();
    let total = m.get_total_balance();
    assert_eq!(total.total(), u64::MAX);
}

#[test]
fn spent_note_added_leaves_balance() {
    let a = addr(1);
    let mut m = BalanceManager::new();
    let mut n = note(1, a, 10, Some(1));
    n.spent = true;
    m.add_note(n).unwrap();
    assert_eq!(m.get_balance(&a), Balance::new());
    assert_eq!(m.get_notes_for_address(&a).len(), 1);
}

#[test]
fn spendable_notes_largest_first_minimal_prefix() {
    let a = addr(1);
    let mut m = BalanceManager::new();
    m.add_note(note(1, a, 30, Some(1))).unwrap();
    m.add_note(note(2, a, 100, Some(1))).unwrap();
    m.add_note(note(3, a, 50, Some(1))).unwrap();
    m.add_note(note(4, a, 500, None)).unwrap();
    let mut locked = note(5, a, 400, Some(1));
    locked.locked = true;
    m.add_note(locked).unwrap();
    m.add_note(note(6, addr(2), 1000, Some(1))).unwrap();
    m.add_note(note(7, a, 60, Some(1))).unwrap();
    m.spend_note(7).unwrap();

    let picked = m.get_spendable_notes(&a, 120);
    let ids: Vec<u128> = picked.iter().map(|n| n.id).collect();
    assert_eq!(ids, vec![2, 3]);

    let picked = m.get_spendable_notes(&a, 100);
    let ids: Vec<u128> = picked.iter().map(|n| n.id).collect();
    assert_eq!(ids, vec![2]);

    let picked = m.get_spendable_notes(&a, 1000);
    let ids: Vec<u128> = picked.iter().map(|n| n.id).collect();
    assert_eq!(ids, vec![2, 3, 1]);

    assert!(m.get_spendable_notes(&a, 0).is_empty());
}

#[test]
fn notes_for_address_in_arrival_order() {
    let a = addr(1);
    let mut m = BalanceManager::new();
    m.add_note(note(5, a, 1, None)).unwrap();
    m.add_note(note(6, addr(2), 2, None)).unwrap();
    m.add_note(note(7, a, 3, Some(2))).unwrap();
    let ids: Vec<u128> = m.get_notes_for_address(&a).iter().map(|n| n.id).collect();
    assert_eq!(ids, vec![5, 7]);
}
