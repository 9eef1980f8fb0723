//! Notes (unspent transaction outputs) and the per-address balances they add
//! up to.

use vstd::prelude::*;

use crate::address::Address;
use crate::error::{WalletError, WalletResult};

verus! {

/// Amounts held by one address. `confirmed` and `unconfirmed` are the unspent
/// note amounts with and without a block height.
#[derive(Debug, Clone, Copy, PartialEq, Eq, Structural)]
pub struct Balance {
    pub confirmed: u64,
    pub unconfirmed: u64,
    pub locked: u64,
}

impl Balance {
    pub fn new() -> (r: Self)
        ensures
            r.confirmed == 0,
            r.unconfirmed == 0,
            r.locked == 0,
    {
        Balance { confirmed: 0, unconfirmed: 0, locked: 0 }
    }

    /// `confirmed + unconfirmed`.
    pub fn total(&self) -> (r: u64)
        requires
            self.confirmed + self.unconfirmed <= u64::MAX,
        ensures
            r == self.confirmed + self.unconfirmed,
    {
        self.confirmed + self.unconfirmed
    }

    /// `confirmed - locked`, or zero where `locked` is larger.
    pub fn available(&self) -> (r: u64)
        ensures
            r == (if self.confirmed >= self.locked {
                self.confirmed - self.locked
            } else {
                0
            }),
    {
        self.confirmed.saturating_sub(self.locked)
    }
}

/// An output that the wallet can see: confirmed when it has a block height.
#[derive(Debug)]
pub struct Note {
    pub id: u128,
    pub address: Address,
    pub amount: u64,
    pub block_height: Option<u64>,
    pub transaction_id: String,
    pub output_index: u32,
    pub spent: bool,
    pub locked: bool,
    /// Milliseconds since the Unix epoch.
    pub created_at: i64,
}

impl Clone for Note {
    fn clone(&self) -> (r: Self)
        ensures
            r == *self,
    {
        Note {
            id: self.id,
            address: self.address,
            amount: self.amount,
            block_height: self.block_height,
            transaction_id: self.transaction_id.clone(),
            output_index: self.output_index,
            spent: self.spent,
            locked: self.locked,
            created_at: self.created_at,
        }
    }
}

/// The note, marked spent.
pub open spec fn spent_note(n: Note) -> Note {
    Note {
        id: n.id,
        address: n.address,
        amount: n.amount,
        block_height: n.block_height,
        transaction_id: n.transaction_id,
        output_index: n.output_index,
        spent: true,
        locked: n.locked,
        created_at: n.created_at,
    }
}

/// Sum of the amounts of the notes that satisfy `p`.
pub open spec fn sum_where(notes: Seq<Note>, p: spec_fn(Note) -> bool) -> nat
    decreases notes.len(),
{
    if notes.len() == 0 {
        0
    } else {
        sum_where(notes.drop_last(), p) + if p(notes.last()) {
            notes.last().amount as nat
        } else {
            0
        }
    }
}

/// Unspent notes, confirmed (with a block height) or not as `confirmed` says.
pub open spec fn is_unspent_in(n: Note, confirmed: bool) -> bool {
    !n.spent && n.block_height.is_some() == confirmed
}

/// Sum of the unspent notes of `address` in the confirmed or unconfirmed bucket.
pub open spec fn unspent_sum(notes: Seq<Note>, address: Address, confirmed: bool) -> nat {
    sum_where(notes, |n: Note| n.address == address && is_unspent_in(n, confirmed))
}

/// Sum of all unspent notes in the confirmed or unconfirmed bucket.
pub open spec fn unspent_total(notes: Seq<Note>, confirmed: bool) -> nat {
    sum_where(notes, |n: Note| is_unspent_in(n, confirmed))
}

/// Every unspent amount the ledger holds, both buckets.
pub open spec fn ledger_total(notes: Seq<Note>) -> nat {
    unspent_total(notes, true) + unspent_total(notes, false)
}

pub open spec fn has_note(notes: Seq<Note>, id: u128) -> bool {
    exists|i: int| 0 <= i < notes.len() && (#[trigger] notes[i]).id == id
}

/// Sum of the amounts of a note sequence.
pub open spec fn amounts(notes: Seq<Note>) -> nat
    decreases notes.len(),
{
    if notes.len() == 0 {
        0
    } else {
        amounts(notes.drop_last()) + notes.last().amount as nat
    }
}

/// A note that may be selected to pay from `address`: the address's own,
/// unspent, unlocked and confirmed.
pub open spec fn spendable(n: Note, address: Address) -> bool {
    n.address == address && !n.spent && !n.locked && n.block_height is Some
}

pub open spec fn bucket(b: Balance, confirmed: bool) -> u64 {
    if confirmed {
        b.confirmed
    } else {
        b.unconfirmed
    }
}

/// Sum of one bucket over balance entries.
pub open spec fn entries_sum(entries: Seq<(Address, Balance)>, confirmed: bool) -> nat
    decreases entries.len(),
{
    if entries.len() == 0 {
        0
    } else {
        entries_sum(entries.drop_last(), confirmed) + bucket(entries.last().1, confirmed) as nat
    }
}

proof fn lemma_sum_where_update(s: Seq<Note>, i: int, n: Note, p: spec_fn(Note) -> bool)
    requires
        0 <= i < s.len(),
    ensures
        sum_where(s.update(i, n), p) + (if p(s[i]) {
            s[i].amount as nat
        } else {
            0
        }) == sum_where(s, p) + (if p(n) {
            n.amount as nat
        } else {
            0
        }),
    decreases s.len(),
{
    let t = s.update(i, n);
    if i == s.len() - 1 {
        assert(t.drop_last() =~= s.drop_last());
    } else {
        lemma_sum_where_update(s.drop_last(), i, n, p);
        assert(t.drop_last() =~= s.drop_last().update(i, n));
    }
}

proof fn lemma_sum_where_mono(s: Seq<Note>, p: spec_fn(Note) -> bool, q: spec_fn(Note) -> bool)
    requires
        forall|n: Note| #[trigger] p(n) ==> q(n),
    ensures
        sum_where(s, p) <= sum_where(s, q),
    decreases s.len(),
{
    if s.len() > 0 {
        lemma_sum_where_mono(s.drop_last(), p, q);
    }
}

proof fn lemma_sum_where_none(s: Seq<Note>, p: spec_fn(Note) -> bool)
    requires
        forall|i: int| 0 <= i < s.len() ==> !p(#[trigger] s[i]),
    ensures
        sum_where(s, p) == 0,
    decreases s.len(),
{
    if s.len() > 0 {
        lemma_sum_where_none(s.drop_last(), p);
    }
}

proof fn lemma_entries_update(s: Seq<(Address, Balance)>, i: int, e: (Address, Balance), c: bool)
    requires
        0 <= i < s.len(),
    ensures
        entries_sum(s.update(i, e), c) + bucket(s[i].1, c) == entries_sum(s, c) + bucket(e.1, c),
    decreases s.len(),
{
    let t = s.update(i, e);
    if i == s.len() - 1 {
        assert(t.drop_last() =~= s.drop_last());
    } else {
        lemma_entries_update(s.drop_last(), i, e, c);
        assert(t.drop_last() =~= s.drop_last().update(i, e));
    }
}

proof fn lemma_entries_prefix(s: Seq<(Address, Balance)>, i: int, c: bool)
    requires
        0 <= i <= s.len(),
    ensures
        entries_sum(s.take(i), c) <= entries_sum(s, c),
    decreases s.len(),
{
    if i < s.len() {
        lemma_entries_prefix(s.drop_last(), i, c);
        assert(s.drop_last().take(i) =~= s.take(i));
    } else {
        assert(s.take(i) =~= s);
    }
}

pub open spec fn count_false(s: Seq<bool>) -> nat
    decreases s.len(),
{
    if s.len() == 0 {
        0
    } else {
        count_false(s.drop_last()) + if s.last() {
            0nat
        } else {
            1nat
        }
    }
}

proof fn lemma_count_false_set(s: Seq<bool>, i: int)
    requires
        0 <= i < s.len(),
        !s[i],
    ensures
        count_false(s.update(i, true)) + 1 == count_false(s),
    decreases s.len(),
{
    let t = s.update(i, true);
    if i == s.len() - 1 {
        assert(t.drop_last() =~= s.drop_last());
    } else {
        lemma_count_false_set(s.drop_last(), i);
        assert(t.drop_last() =~= s.drop_last().update(i, true));
    }
}

/// The ledger: every note it has seen, in arrival order, and one balance
/// entry per address that has had a note.
#[derive(Debug)]
pub struct BalanceManager {
    notes: Vec<Note>,
    balances: Vec<(Address, Balance)>,
}

impl View for BalanceManager {
    type V = Seq<Note>;

    closed spec fn view(&self) -> Seq<Note> {
        self.notes@
    }
}

impl BalanceManager {
    /// The balance recorded for `address`; zero where it has none.
    pub closed spec fn recorded_balance(&self, address: Address) -> Balance {
        if exists|j: int| 0 <= j < self.balances@.len() && (#[trigger] self.balances@[j]).0 == address {
            let j = choose|j: int| 0 <= j < self.balances@.len() && (#[trigger] self.balances@[j]).0 == address;
            self.balances@[j].1
        } else {
            Balance { confirmed: 0, unconfirmed: 0, locked: 0 }
        }
    }

    /// Note ids are unique; each address has at most one entry, and every
    /// note's address has one; each entry holds the unspent sums of its
    /// address's notes; and the unspent amounts together fit in a `u64`.
    pub closed spec fn wf(&self) -> bool {
        let notes = self.notes@;
        let entries = self.balances@;
        &&& forall|i: int, j: int|
            0 <= i < notes.len() && 0 <= j < notes.len() && i != j ==> (#[trigger] notes[i]).id
                != (#[trigger] notes[j]).id
        &&& forall|i: int, j: int|
            0 <= i < entries.len() && 0 <= j < entries.len() && i != j ==> (#[trigger] entries[i]).0
                != (#[trigger] entries[j]).0
        &&& forall|i: int|
            0 <= i < notes.len() ==> exists|j: int|
                0 <= j < entries.len() && (#[trigger] entries[j]).0 == (#[trigger] notes[i]).address
        &&& forall|j: int|
            0 <= j < entries.len() ==> {
                &&& (#[trigger] entries[j]).1.confirmed == unspent_sum(notes, entries[j].0, true)
                &&& entries[j].1.unconfirmed == unspent_sum(notes, entries[j].0, false)
                &&& entries[j].1.locked == 0
            }
        &&& entries_sum(entries, true) == unspent_total(notes, true)
        &&& entries_sum(entries, false) == unspent_total(notes, false)
        &&& ledger_total(notes) <= u64::MAX
    }

    pub fn new() -> (r: Self)
        ensures
            r.wf(),
            r@ == Seq::<Note>::empty(),
    {
        BalanceManager { notes: Vec::new(), balances: Vec::new() }
    }

    fn find_entry(&self, address: &Address) -> (r: Option<usize>)
        ensures
            match r {
                Some(j) => j < self.balances@.len() && self.balances@[j as int].0 == *address,
                None => forall|j: int|
                    0 <= j < self.balances@.len() ==> (#[trigger] self.balances@[j]).0 != *address,
            },
    {
        let mut j: usize = 0;
        while j < self.balances.len()
            invariant
                j <= self.balances@.len(),
                forall|k: int| 0 <= k < j ==> (#[trigger] self.balances@[k]).0 != *address,
            decreases self.balances@.len() - j,
        {
            if self.balances[j].0 == *address {
                return Some(j);
            }
            j += 1;
        }
        None
    }

    fn find_note(&self, id: u128) -> (r: Option<usize>)
        ensures
            match r {
                Some(i) => i < self.notes@.len() && self.notes@[i as int].id == id,
                None => !has_note(self.notes@, id),
            },
    {
        let mut i: usize = 0;
        while i < self.notes.len()
            invariant
                i <= self.notes@.len(),
                forall|k: int| 0 <= k < i ==> (#[trigger] self.notes@[k]).id != id,
            decreases self.notes@.len() - i,
        {
            if self.notes[i].id == id {
                return Some(i);
            }
            i += 1;
        }
        None
    }

    /// Records a note. Its amount is added to its address's confirmed balance
    /// (with a block height) or unconfirmed balance (without), unless it is
    /// already spent. Fails with `Transaction`, changing nothing, where a note
    /// with the same id is recorded or where the unspent amounts of the whole
    /// ledger would no longer fit in a `u64`.
    pub fn add_note(&mut self, note: Note) -> (r: WalletResult<()>)
        requires
            old(self).wf(),
        ensures
            final(self).wf(),
            r is Ok <==> !has_note(old(self)@, note.id) && (note.spent || ledger_total(old(self)@)
                + note.amount <= u64::MAX),
            r is Ok ==> final(self)@ == old(self)@.push(note),
            r matches Err(e) ==> e matches WalletError::Transaction(_) && *final(self) == *old(self),
    {
        if self.find_note(note.id).is_some() {
            return Err(WalletError::Transaction("Note already exists".to_string()));
        }
        let counted = !note.spent;
        if counted {
            let total = self.get_total_balance();
            if note.amount > u64::MAX - (total.confirmed + total.unconfirmed) {
                return Err(WalletError::Transaction("Balance overflow".to_string()));
            }
        }
        let confirmed = note.block_height.is_some();
        let amount = note.amount;
        let address = note.address;
        let ghost old_notes = self.notes@;
        let ghost old_entries = self.balances@;
        proof {
            lemma_sum_where_mono(
                old_notes,
                |n: Note| n.address == address && is_unspent_in(n, true),
                |n: Note| is_unspent_in(n, true),
            );
            lemma_sum_where_mono(
                old_notes,
                |n: Note| n.address == address && is_unspent_in(n, false),
                |n: Note| is_unspent_in(n, false),
            );
        }
        let found = self.find_entry(&address);
        match found {
            Some(j) => {
                let mut b = self.balances[j].1;
                if counted {
                    if confirmed {
                        b.confirmed = b.confirmed + amount;
                    } else {
                        b.unconfirmed = b.unconfirmed + amount;
                    }
                }
                self.balances[j] = (address, b);
                proof {
                    assert(self.balances@ == old_entries.update(j as int, (address, b)));
                    lemma_entries_update(old_entries, j as int, (address, b), true);
                    lemma_entries_update(old_entries, j as int, (address, b), false);
                }
            },
            None => {
                let mut b = Balance::new();
                if counted {
                    if confirmed {
                        b.confirmed = amount;
                    } else {
                        b.unconfirmed = amount;
                    }
                }
                self.balances.push((address, b));
                proof {
                    assert(self.balances@.drop_last() =~= old_entries);
                    assert forall|i: int| 0 <= i < old_notes.len() implies (#[trigger] old_notes[i]).address
                        != address by {
                        let k = choose|k: int|
                            0 <= k < old_entries.len() && (#[trigger] old_entries[k]).0
                                == old_notes[i].address;
                    }
                    lemma_sum_where_none(
                        old_notes,
                        |n: Note| n.address == address && is_unspent_in(n, true),
                    );
                    lemma_sum_where_none(
                        old_notes,
                        |n: Note| n.address == address && is_unspent_in(n, false),
                    );
                }
            },
        }
        self.notes.push(note);
        proof {
            let notes = self.notes@;
            let entries = self.balances@;
            assert(notes.drop_last() =~= old_notes);
            assert forall|x: Address, c: bool|
                #[trigger] unspent_sum(notes, x, c) == unspent_sum(old_notes, x, c) + (if note.address
                    == x && is_unspent_in(note, c) {
                    note.amount as nat
                } else {
                    0
                }) by {}
            assert forall|c: bool|
                #[trigger] unspent_total(notes, c) == unspent_total(old_notes, c) + (if is_unspent_in(
                    note,
                    c,
                ) {
                    note.amount as nat
                } else {
                    0
                }) by {}
            assert(unspent_total(notes, true) == unspent_total(old_notes, true) + (if is_unspent_in(
                note,
                true,
            ) {
                note.amount as nat
            } else {
                0
            }));
            assert(unspent_total(notes, false) == unspent_total(old_notes, false) + (
            if is_unspent_in(note, false) {
                note.amount as nat
            } else {
                0
            }));
            assert forall|i: int| 0 <= i < notes.len() implies exists|j: int|
                0 <= j < entries.len() && (#[trigger] entries[j]).0 == (#[trigger] notes[i]).address by {
                if i < old_notes.len() {
                    let k = choose|k: int|
                        0 <= k < old_entries.len() && (#[trigger] old_entries[k]).0
                            == old_notes[i].address;
                    assert(entries[k].0 == notes[i].address);
                } else {
                    match found {
                        Some(j) => {
                            assert(entries[j as int].0 == notes[i].address);
                        },
                        None => {
                            assert(entries[old_entries.len() as int].0 == notes[i].address);
                        },
                    }
                }
            }
            assert forall|k: int| 0 <= k < entries.len() implies {
                &&& (#[trigger] entries[k]).1.confirmed == unspent_sum(notes, entries[k].0, true)
                &&& entries[k].1.unconfirmed == unspent_sum(notes, entries[k].0, false)
                &&& entries[k].1.locked == 0
            } by {
                assert(unspent_sum(notes, entries[k].0, true) == unspent_sum(old_notes, entries[k].0, true)
                    + (if note.address == entries[k].0 && is_unspent_in(note, true) {
                    note.amount as nat
                } else {
                    0
                }));
                assert(unspent_sum(notes, entries[k].0, false) == unspent_sum(
                    old_notes,
                    entries[k].0,
                    false,
                ) + (if note.address == entries[k].0 && is_unspent_in(note, false) {
                    note.amount as nat
                } else {
                    0
                }));
                if k < old_entries.len() {
                    assert(old_entries[k].1.confirmed == unspent_sum(old_notes, old_entries[k].0, true));
                }
            }
            assert forall|i: int, j: int|
                0 <= i < notes.len() && 0 <= j < notes.len() && i != j implies (#[trigger] notes[i]).id
                != (#[trigger] notes[j]).id by {
                if i < old_notes.len() && j < old_notes.len() {
                    assert(old_notes[i].id != old_notes[j].id);
                } else if i < old_notes.len() {
                    assert(old_notes[i].id != note.id);
                } else {
                    assert(old_notes[j].id != note.id);
                }
            }
            assert forall|i: int, j: int|
                0 <= i < entries.len() && 0 <= j < entries.len() && i != j implies (#[trigger] entries[i]).0
                != (#[trigger] entries[j]).0 by {
                if i < old_entries.len() && j < old_entries.len() {
                    assert(old_entries[i].0 != old_entries[j].0);
                }
            }
        }
        Ok(())
    }

    /// Marks the note with this id spent and takes its amount off its
    /// address's balance. Fails, changing nothing, with `KeyNotFound` where no
    /// note has the id and with `Transaction("Note already spent")` where the
    /// note is spent already.
    pub fn spend_note(&mut self, note_id: u128) -> (r: WalletResult<()>)
        requires
            old(self).wf(),
        ensures
            final(self).wf(),
            !has_note(old(self)@, note_id) ==> r matches Err(WalletError::KeyNotFound(_)),
            forall|i: int|
                0 <= i < old(self)@.len() && (#[trigger] old(self)@[i]).id == note_id ==> {
                    &&& old(self)@[i].spent ==> (r matches Err(WalletError::Transaction(m)) && m@
                        == "Note already spent"@)
                    &&& !old(self)@[i].spent ==> r is Ok && final(self)@ == old(self)@.update(
                        i,
                        spent_note(old(self)@[i]),
                    )
                },
            r is Err ==> *final(self) == *old(self),
    {
        let i = match self.find_note(note_id) {
            Some(i) => i,
            None => {
                return Err(WalletError::KeyNotFound("Note not found".to_string()));
            },
        };
        if self.notes[i].spent {
            return Err(WalletError::Transaction("Note already spent".to_string()));
        }
        let ghost old_notes = self.notes@;
        let ghost old_entries = self.balances@;
        let updated = Note { spent: true, ..self.notes[i].clone() };
        assert(updated == spent_note(old_notes[i as int]));
        let address = updated.address;
        let amount = updated.amount;
        let confirmed = updated.block_height.is_some();
        proof {
            let k = choose|k: int|
                0 <= k < old_entries.len() && (#[trigger] old_entries[k]).0 == old_notes[i as int].address;
        }
        let j = match self.find_entry(&address) {
            Some(j) => j,
            None => {
                return Err(WalletError::Storage("Address balance not found".to_string()));
            },
        };
        proof {
            lemma_sum_where_update(
                old_notes,
                i as int,
                updated,
                |n: Note| n.address == address && is_unspent_in(n, confirmed),
            );
        }
        let mut b = self.balances[j].1;
        if confirmed {
            b.confirmed = b.confirmed - amount;
        } else {
            b.unconfirmed = b.unconfirmed - amount;
        }
        self.balances[j] = (address, b);
        self.notes[i] = updated;
        proof {
            let notes = self.notes@;
            let entries = self.balances@;
            assert(notes == old_notes.update(i as int, updated));
            assert(entries == old_entries.update(j as int, (address, b)));
            lemma_entries_update(old_entries, j as int, (address, b), true);
            lemma_entries_update(old_entries, j as int, (address, b), false);
            lemma_sum_where_update(old_notes, i as int, updated, |n: Note| is_unspent_in(n, true));
            lemma_sum_where_update(old_notes, i as int, updated, |n: Note| is_unspent_in(n, false));
            assert forall|x: Address, c: bool|
                #[trigger] unspent_sum(notes, x, c) + (if address == x && is_unspent_in(
                    old_notes[i as int],
                    c,
                ) {
                    amount as nat
                } else {
                    0
                }) == unspent_sum(old_notes, x, c) by {
                lemma_sum_where_update(
                    old_notes,
                    i as int,
                    updated,
                    |n: Note| n.address == x && is_unspent_in(n, c),
                );
            }
            assert forall|k: int| 0 <= k < entries.len() implies {
                &&& (#[trigger] entries[k]).1.confirmed == unspent_sum(notes, entries[k].0, true)
                &&& entries[k].1.unconfirmed == unspent_sum(notes, entries[k].0, false)
                &&& entries[k].1.locked == 0
            } by {
                assert(unspent_sum(notes, entries[k].0, true) + (if address == entries[k].0
                    && is_unspent_in(old_notes[i as int], true) {
                    amount as nat
                } else {
                    0
                }) == unspent_sum(old_notes, entries[k].0, true));
                assert(unspent_sum(notes, entries[k].0, false) + (if address == entries[k].0
                    && is_unspent_in(old_notes[i as int], false) {
                    amount as nat
                } else {
                    0
                }) == unspent_sum(old_notes, entries[k].0, false));
                assert(old_entries[k].1.confirmed == unspent_sum(old_notes, old_entries[k].0, true));
                if k != j {
                    assert(old_entries[k].0 != old_entries[j as int].0);
                }
            }
            assert forall|a: int| 0 <= a < notes.len() implies exists|e: int|
                0 <= e < entries.len() && (#[trigger] entries[e]).0 == (#[trigger] notes[a]).address by {
                let k = choose|k: int|
                    0 <= k < old_entries.len() && (#[trigger] old_entries[k]).0 == old_notes[a].address;
                assert(entries[k].0 == notes[a].address);
            }
            assert forall|a: int, c: int|
                0 <= a < notes.len() && 0 <= c < notes.len() && a != c implies (#[trigger] notes[a]).id
                != (#[trigger] notes[c]).id by {
                assert(old_notes[a].id != old_notes[c].id);
            }
            assert forall|a: int, c: int|
                0 <= a < entries.len() && 0 <= c < entries.len() && a != c implies (#[trigger] entries[a]).0
                != (#[trigger] entries[c]).0 by {
                assert(old_entries[a].0 != old_entries[c].0);
            }
            assert forall|k: int| 0 <= k < old_notes.len() && (#[trigger] old_notes[k]).id == note_id
                implies k == i by {
                if k != i {
                    assert(old_notes[k].id != old_notes[i as int].id);
                }
            }
        }
        Ok(())
    }

    /// Coin selection, largest first: the spendable notes of `address`
    /// (unspent, unlocked, confirmed) in order of decreasing amount, cut after
    /// the first prefix whose sum reaches `amount`; all of them where their sum
    /// stays below it. No note left out is larger than one selected.
    pub fn get_spendable_notes(&self, address: &Address, amount: u64) -> (r: Vec<Note>)
        requires
            self.wf(),
        ensures
            forall|k: int|
                0 <= k < r@.len() ==> self@.contains(#[trigger] r@[k]) && spendable(r@[k], *address),
            forall|k1: int, k2: int|
                0 <= k1 < k2 < r@.len() ==> (#[trigger] r@[k1]).id != (#[trigger] r@[k2]).id
                    && r@[k1].amount >= r@[k2].amount,
            forall|i: int, k: int|
                0 <= i < self@.len() && 0 <= k < r@.len() && spendable(#[trigger] self@[i], *address)
                    && (forall|m: int| 0 <= m < r@.len() ==> (#[trigger] r@[m]).id != self@[i].id)
                    ==> self@[i].amount <= (#[trigger] r@[k]).amount,
            amounts(r@) >= amount || forall|i: int|
                0 <= i < self@.len() && spendable(#[trigger] self@[i], *address) ==> exists|k: int|
                    0 <= k < r@.len() && (#[trigger] r@[k]).id == self@[i].id,
            r@.len() > 0 ==> amounts(r@.drop_last()) < amount,
    {
        let notes = &self.notes;
        let n = notes.len();
        let mut picked: Vec<bool> = Vec::new();
        while picked.len() < n
            invariant
                picked@.len() <= n,
                forall|j: int| 0 <= j < picked@.len() ==> !(#[trigger] picked@[j]),
            decreases n - picked@.len(),
        {
            picked.push(false);
        }
        let mut out: Vec<Note> = Vec::new();
        let mut acc: u128 = 0;
        let ghost mut idx: Seq<int> = Seq::empty();
        while acc < amount as u128
            invariant
                self.wf(),
                notes == &self.notes,
                n == notes@.len(),
                picked@.len() == n,
                idx.len() == out@.len(),
                forall|k: int|
                    0 <= k < idx.len() ==> 0 <= #[trigger] idx[k] < n && out@[k] == notes@[idx[k]]
                        && picked@[idx[k]],
                forall|k: int| 0 <= k < out@.len() ==> spendable(#[trigger] out@[k], *address),
                forall|j: int|
                    0 <= j < n && #[trigger] picked@[j] ==> spendable(notes@[j], *address)
                        && exists|k: int| 0 <= k < idx.len() && idx[k] == j,
                forall|k1: int, k2: int|
                    0 <= k1 < idx.len() && 0 <= k2 < idx.len() && k1 != k2 ==> #[trigger] idx[k1]
                        != #[trigger] idx[k2],
                forall|k1: int, k2: int|
                    0 <= k1 < k2 < out@.len() ==> (#[trigger] out@[k1]).amount >= (#[trigger] out@[k2]).amount,
                forall|j: int, k: int|
                    0 <= j < n && 0 <= k < out@.len() && !(#[trigger] picked@[j]) && spendable(
                        notes@[j],
                        *address,
                    ) ==> notes@[j].amount <= (#[trigger] out@[k]).amount,
                acc == amounts(out@),
                out@.len() > 0 ==> amounts(out@.drop_last()) < amount,
            ensures
                acc >= amount || forall|j: int|
                    0 <= j < n && spendable(#[trigger] notes@[j], *address) ==> picked@[j],
            decreases count_false(picked@),
        {
            let mut best: usize = n;
            let mut j: usize = 0;
            while j < n
                invariant
                    n == notes@.len(),
                    picked@.len() == n,
                    j <= n,
                    best == n || (best < j && !picked@[best as int] && spendable(
                        notes@[best as int],
                        *address,
                    )),
                    forall|k: int|
                        0 <= k < j && !(#[trigger] picked@[k]) && spendable(notes@[k], *address)
                            ==> best < n && notes@[k].amount <= notes@[best as int].amount,
                decreases n - j,
            {
                let note = &notes[j];
                if !picked[j] && note.address == *address && !note.spent && !note.locked
                    && note.block_height.is_some() {
                    if best == n || note.amount > notes[best].amount {
                        best = j;
                    }
                }
                j += 1;
            }
            if best == n {
                break;
            }
            proof {
                lemma_count_false_set(picked@, best as int);
            }
            let chosen = notes[best].clone();
            let ghost prev = out@;
            out.push(chosen);
            proof {
                assert(out@.drop_last() =~= prev);
            }
            acc = acc + notes[best].amount as u128;
            picked[best] = true;
            proof {
                let old_idx = idx;
                idx = idx.push(best as int);
                assert forall|j: int|
                    0 <= j < n && #[trigger] picked@[j] implies spendable(notes@[j], *address)
                        && exists|k: int| 0 <= k < idx.len() && idx[k] == j by {
                    if j == best {
                        assert(idx[idx.len() - 1] == j);
                    } else {
                        let k = choose|k: int| 0 <= k < old_idx.len() && old_idx[k] == j;
                        assert(idx[k] == j);
                    }
                }
            }
        }
        proof {
            assert forall|k1: int, k2: int|
                0 <= k1 < k2 < out@.len() implies (#[trigger] out@[k1]).id != (#[trigger] out@[k2]).id by {
                assert(idx[k1] != idx[k2]);
            }
            assert forall|k: int| 0 <= k < out@.len() implies self@.contains(#[trigger] out@[k]) by {
                assert(self@[idx[k]] == out@[k]);
            }
            assert forall|i: int, k: int|
                0 <= i < self@.len() && 0 <= k < out@.len() && spendable(#[trigger] self@[i], *address)
                    && (forall|m: int| 0 <= m < out@.len() ==> (#[trigger] out@[m]).id != self@[i].id)
                    implies self@[i].amount <= (#[trigger] out@[k]).amount by {
                if picked@[i] {
                    let m = choose|m: int| 0 <= m < idx.len() && idx[m] == i;
                    assert(out@[m].id == self@[i].id);
                }
            }
            if acc < amount {
                assert forall|i: int|
                    0 <= i < self@.len() && spendable(#[trigger] self@[i], *address) implies exists|k: int|
                        0 <= k < out@.len() && (#[trigger] out@[k]).id == self@[i].id by {
                    assert(picked@[i]);
                    let m = choose|m: int| 0 <= m < idx.len() && idx[m] == i;
                    assert(out@[m].id == self@[i].id);
                }
            }
        }
        out
    }

    /// Every note of `address`, spent or not, in arrival order.
    pub fn get_notes_for_address(&self, address: &Address) -> (r: Vec<Note>)
        ensures
            r@ == self@.filter(|n: Note| n.address == *address),
    {
        let ghost f = |n: Note| n.address == *address;
        let mut out: Vec<Note> = Vec::new();
        let mut i: usize = 0;
        while i < self.notes.len()
            invariant
                i <= self@.len(),
                self@ == self.notes@,
                f == (|n: Note| n.address == *address),
                out@ == self@.take(i as int).filter(f),
            decreases self@.len() - i,
        {
            let ghost before = out@;
            if self.notes[i].address == *address {
                out.push(self.notes[i].clone());
            }
            proof {
                reveal(Seq::filter);
                let t = self@.take(i + 1);
                assert(t.drop_last() =~= self@.take(i as int));
                assert(t.last() == self@[i as int]);
                assert(t.filter(f) == if f(t.last()) {
                    t.drop_last().filter(f).push(t.last())
                } else {
                    t.drop_last().filter(f)
                });
            }
            i += 1;
        }
        assert(self@.take(self@.len() as int) =~= self@);
        out
    }

    /// The balance of `address`: its unspent confirmed and unconfirmed sums;
    /// zero for an address the ledger has not seen.
    pub fn get_balance(&self, address: &Address) -> (r: Balance)
        requires
            self.wf(),
        ensures
            r == self.recorded_balance(*address),
            r.confirmed == unspent_sum(self@, *address, true),
            r.unconfirmed == unspent_sum(self@, *address, false),
            r.locked == 0,
    {
        proof {
            balances_track_unspent_notes(self, *address);
        }
        match self.find_entry(address) {
            Some(j) => {
                proof {
                    let entries = self.balances@;
                    assert(entries[j as int].0 == *address);
                    let k = choose|k: int| 0 <= k < entries.len() && (#[trigger] entries[k]).0 == *address;
                    assert(k == j);
                }
                self.balances[j].1
            },
            None => Balance::new(),
        }
    }

    /// The sums of all unspent notes, confirmed and unconfirmed, over every
    /// address.
    pub fn get_total_balance(&self) -> (r: Balance)
        requires
            self.wf(),
        ensures
            r.confirmed == unspent_total(self@, true),
            r.unconfirmed == unspent_total(self@, false),
            r.locked == 0,
            r.confirmed + r.unconfirmed <= u64::MAX,
    {
        let mut total = Balance::new();
        let mut j: usize = 0;
        let ghost entries = self.balances@;
        while j < self.balances.len()
            invariant
                self.wf(),
                entries == self.balances@,
                j <= entries.len(),
                total.confirmed == entries_sum(entries.take(j as int), true),
                total.unconfirmed == entries_sum(entries.take(j as int), false),
                total.locked == 0,
            decreases entries.len() - j,
        {
            proof {
                assert(entries.take(j + 1).drop_last() =~= entries.take(j as int));
                lemma_entries_prefix(entries, j + 1, true);
                lemma_entries_prefix(entries, j + 1, false);
            }
            let b = self.balances[j].1;
            total.confirmed = total.confirmed + b.confirmed;
            total.unconfirmed = total.unconfirmed + b.unconfirmed;
            total.locked = total.locked + b.locked;
            j += 1;
        }
        assert(entries.take(entries.len() as int) =~= entries);
        total
    }
}

/// In every well-formed ledger, whatever sequence of calls built it, the
/// balance recorded for an address is the sum of its unspent confirmed notes
/// and the sum of its unspent unconfirmed notes, with nothing locked.
pub proof fn balances_track_unspent_notes(m: &BalanceManager, address: Address)
    requires
        m.wf(),
    ensures
        m.recorded_balance(address).confirmed == unspent_sum(m@, address, true),
        m.recorded_balance(address).unconfirmed == unspent_sum(m@, address, false),
        m.recorded_balance(address).locked == 0,
{
    let notes = m.notes@;
    let entries = m.balances@;
    if exists|j: int| 0 <= j < entries.len() && (#[trigger] entries[j]).0 == address {
        let j = choose|j: int| 0 <= j < entries.len() && (#[trigger] entries[j]).0 == address;
        assert(entries[j].1.confirmed == unspent_sum(notes, entries[j].0, true));
    } else {
        assert forall|i: int| 0 <= i < notes.len() implies (#[trigger] notes[i]).address != address by {
            let j = choose|j: int|
                0 <= j < entries.len() && (#[trigger] entries[j]).0 == notes[i].address;
        }
        lemma_sum_where_none(notes, |n: Note| n.address == address && is_unspent_in(n, true));
        lemma_sum_where_none(notes, |n: Note| n.address == address && is_unspent_in(n, false));
    }
}

} // verus!
