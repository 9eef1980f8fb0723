//! The wallet's transaction history: pending records and confirmed ones.

use vstd::prelude::*;

use crate::address::{parsed_address, Address};
use crate::error::{WalletError, WalletResult};
use crate::primitives::now_millis;
use crate::transaction::{output_models, output_total, sum_outputs, SignedTransaction, TransactionOutput};

verus! {

/// Where a transaction stands.
#[derive(Debug, PartialEq, Eq)]
pub enum TransactionStatus {
    Pending,
    Confirmed { block_height: u64 },
    Failed { reason: String },
}

impl Clone for TransactionStatus {
    fn clone(&self) -> (r: Self)
        ensures
            r == *self,
    {
        match self {
            TransactionStatus::Pending => TransactionStatus::Pending,
            TransactionStatus::Confirmed { block_height } => TransactionStatus::Confirmed {
                block_height: *block_height,
            },
            TransactionStatus::Failed { reason } => TransactionStatus::Failed {
                reason: reason.clone(),
            },
        }
    }
}

/// A history entry. Times are milliseconds since the Unix epoch.
#[derive(Debug, PartialEq, Eq)]
pub struct Transaction {
    pub id: String,
    pub status: TransactionStatus,
    pub amount: u64,
    pub fee: u64,
    pub from_address: Option<Address>,
    pub to_address: Option<Address>,
    pub created_at: i64,
    pub confirmed_at: Option<i64>,
    pub is_outgoing: bool,
}

impl Clone for Transaction {
    fn clone(&self) -> (r: Self)
        ensures
            r == *self,
    {
        Transaction {
            id: self.id.clone(),
            status: self.status.clone(),
            amount: self.amount,
            fee: self.fee,
            from_address: self.from_address,
            to_address: self.to_address,
            created_at: self.created_at,
            confirmed_at: self.confirmed_at,
            is_outgoing: self.is_outgoing,
        }
    }
}

/// The address that the first output's recipient text names, if it parses.
pub open spec fn first_recipient_is(outputs: Seq<TransactionOutput>, to: Option<Address>) -> bool {
    if outputs.len() == 0 {
        to is None
    } else {
        match parsed_address(outputs[0].recipient_address@) {
            Some(b) => to matches Some(a) && a.public_key@ == b,
            None => to is None,
        }
    }
}

/// The pending record of a signed transaction created at `created_at`.
pub open spec fn is_pending_record(t: Transaction, tx: SignedTransaction, is_outgoing: bool, created_at: i64) -> bool {
    &&& t.id == tx.id
    &&& t.status == TransactionStatus::Pending
    &&& t.amount == output_total(output_models(tx.outputs@))
    &&& t.fee == tx.fee
    &&& t.from_address is None
    &&& first_recipient_is(tx.outputs@, t.to_address)
    &&& t.created_at == created_at
    &&& t.confirmed_at is None
    &&& t.is_outgoing == is_outgoing
}

/// The record confirmed at a height and time.
pub open spec fn confirmed_record(t: Transaction, block_height: u64, confirmed_at: i64) -> Transaction {
    Transaction {
        id: t.id,
        status: TransactionStatus::Confirmed { block_height },
        amount: t.amount,
        fee: t.fee,
        from_address: t.from_address,
        to_address: t.to_address,
        created_at: t.created_at,
        confirmed_at: Some(confirmed_at),
        is_outgoing: t.is_outgoing,
    }
}

/// The first pending record with this id is at `i`.
pub open spec fn first_with_id(records: Seq<Transaction>, id: Seq<char>, i: int) -> bool {
    &&& 0 <= i < records.len()
    &&& records[i].id@ == id
    &&& forall|j: int| 0 <= j < i ==> (#[trigger] records[j]).id@ != id
}

/// Newest first.
pub open spec fn newest_first(records: Seq<Transaction>) -> bool {
    forall|a: int, b: int|
        0 <= a < b < records.len() ==> (#[trigger] records[a]).created_at >= (#[trigger] records[b]).created_at
}

/// Inserts a record after every record at least as new, keeping the order
/// newest first and equal times in arrival order.
fn insert_newest_first(out: &mut Vec<Transaction>, record: Transaction)
    requires
        newest_first(old(out)@),
    ensures
        final(out)@.to_multiset() == old(out)@.to_multiset().insert(record),
        newest_first(final(out)@),
{
    let mut p: usize = 0;
    while p < out.len() && out[p].created_at >= record.created_at
        invariant
            p <= out@.len(),
            forall|j: int| 0 <= j < p ==> (#[trigger] out@[j]).created_at >= record.created_at,
        decreases out@.len() - p,
    {
        p += 1;
    }
    let ghost before = out@;
    let ghost rec = record;
    out.insert(p, record);
    proof {
        vstd::seq_lib::to_multiset_insert(before, p as int, rec);
        assert forall|a: int, b: int| 0 <= a < b < out@.len() implies (#[trigger] out@[a]).created_at
            >= (#[trigger] out@[b]).created_at by {
            if b < p {
                assert(out@[a] == before[a] && out@[b] == before[b]);
            } else if b == p {
                assert(out@[a] == before[a]);
            } else if a < p {
                assert(out@[a] == before[a] && out@[b] == before[b - 1]);
            } else if a == p {
                assert(out@[b] == before[b - 1]);
                assert(before[p as int].created_at < rec.created_at);
                assert(before[p as int].created_at >= before[b - 1].created_at || p == b - 1);
            } else {
                assert(out@[a] == before[a - 1] && out@[b] == before[b - 1]);
            }
        }
    }
}

/// Pending and confirmed history records, each in the order they arrived.
#[derive(Debug)]
pub struct TransactionManager {
    pending_transactions: Vec<Transaction>,
    confirmed_transactions: Vec<Transaction>,
}

impl TransactionManager {
    pub closed spec fn pending(&self) -> Seq<Transaction> {
        self.pending_transactions@
    }

    pub closed spec fn confirmed(&self) -> Seq<Transaction> {
        self.confirmed_transactions@
    }

    pub fn new() -> (r: Self)
        ensures
            r.pending() == Seq::<Transaction>::empty(),
            r.confirmed() == Seq::<Transaction>::empty(),
    {
        TransactionManager { pending_transactions: Vec::new(), confirmed_transactions: Vec::new() }
    }

    /// Appends a pending record of the signed transaction, stamped with the
    /// current time.
    pub fn add_pending_transaction(&mut self, signed_tx: SignedTransaction, is_outgoing: bool)
        requires
            output_total(output_models(signed_tx.outputs@)) <= u64::MAX,
        ensures
            final(self).pending().len() == old(self).pending().len() + 1,
            final(self).pending().drop_last() == old(self).pending(),
            is_pending_record(
                final(self).pending().last(),
                signed_tx,
                is_outgoing,
                final(self).pending().last().created_at,
            ),
            final(self).confirmed() == old(self).confirmed(),
    {
        let now = now_millis();
        self.add_pending_transaction_at(signed_tx, is_outgoing, now);
    }

    /// Appends the pending record of the signed transaction created at
    /// `created_at`: the sum of its output amounts, its fee, and the address
    /// that its first output names, if that text parses.
    pub fn add_pending_transaction_at(&mut self, signed_tx: SignedTransaction, is_outgoing: bool, created_at: i64)
        requires
            output_total(output_models(signed_tx.outputs@)) <= u64::MAX,
        ensures
            final(self).pending() == old(self).pending().push(final(self).pending().last()),
            is_pending_record(final(self).pending().last(), signed_tx, is_outgoing, created_at),
            final(self).confirmed() == old(self).confirmed(),
    {
        let amount = sum_outputs(&signed_tx.outputs);
        let to_address = if signed_tx.outputs.len() == 0 {
            None
        } else {
            match Address::from_string(signed_tx.outputs[0].recipient_address.as_str()) {
                Ok(a) => Some(a),
                Err(_) => None,
            }
        };
        let record = Transaction {
            id: signed_tx.id,
            status: TransactionStatus::Pending,
            amount,
            fee: signed_tx.fee,
            from_address: None,
            to_address,
            created_at,
            confirmed_at: None,
            is_outgoing,
        };
        self.pending_transactions.push(record);
    }

    /// Moves the first pending record with this id to the confirmed records,
    /// stamped with the block height and the current time; fails with
    /// `Transaction`, changing nothing, where no pending record has the id.
    pub fn confirm_transaction(&mut self, tx_id: &str, block_height: u64) -> (r: WalletResult<()>)
        ensures
            forall|i: int|
                #[trigger] first_with_id(old(self).pending(), tx_id@, i) ==> {
                    &&& r is Ok
                    &&& final(self).pending() == old(self).pending().remove(i)
                    &&& final(self).confirmed() == old(self).confirmed().push(
                        confirmed_record(
                            old(self).pending()[i],
                            block_height,
                            final(self).confirmed().last().confirmed_at->Some_0,
                        ),
                    )
                },
            (forall|i: int| 0 <= i < old(self).pending().len() ==> (#[trigger] old(self).pending()[i]).id@
                != tx_id@) ==> {
                &&& r matches Err(WalletError::Transaction(_))
                &&& final(self).pending() == old(self).pending()
                &&& final(self).confirmed() == old(self).confirmed()
            },
    {
        let now = now_millis();
        let ghost before = *self;
        let r = self.confirm_transaction_at(tx_id, block_height, now);
        proof {
            assert forall|i: int| #[trigger] first_with_id(before.pending(), tx_id@, i) implies self.confirmed()
                == before.confirmed().push(
                confirmed_record(before.pending()[i], block_height, self.confirmed().last().confirmed_at->Some_0),
            ) by {
                let rec = confirmed_record(before.pending()[i], block_height, now);
                assert(self.confirmed() == before.confirmed().push(rec));
                assert(self.confirmed().last() == rec);
            }
        }
        r
    }

    /// `confirm_transaction` with the confirmation time given.
    pub fn confirm_transaction_at(&mut self, tx_id: &str, block_height: u64, confirmed_at: i64) -> (r:
        WalletResult<()>)
        ensures
            forall|i: int|
                #[trigger] first_with_id(old(self).pending(), tx_id@, i) ==> {
                    &&& r is Ok
                    &&& final(self).pending() == old(self).pending().remove(i)
                    &&& final(self).confirmed() == old(self).confirmed().push(
                        confirmed_record(old(self).pending()[i], block_height, confirmed_at),
                    )
                },
            (forall|i: int| 0 <= i < old(self).pending().len() ==> (#[trigger] old(self).pending()[i]).id@
                != tx_id@) ==> {
                &&& r matches Err(WalletError::Transaction(_))
                &&& final(self).pending() == old(self).pending()
                &&& final(self).confirmed() == old(self).confirmed()
            },
    {
        let wanted = tx_id.to_string();
        let mut i: usize = 0;
        while i < self.pending_transactions.len()
            invariant
                i <= self.pending_transactions@.len(),
                wanted@ == tx_id@,
                self.pending_transactions@ == old(self).pending_transactions@,
                self.confirmed_transactions@ == old(self).confirmed_transactions@,
                forall|j: int| 0 <= j < i ==> (#[trigger] self.pending_transactions@[j]).id@ != tx_id@,
            decreases self.pending_transactions@.len() - i,
        {
            if self.pending_transactions[i].id == wanted {
                let ghost before = self.pending_transactions@;
                let mut record = self.pending_transactions.remove(i);
                record.status = TransactionStatus::Confirmed { block_height };
                record.confirmed_at = Some(confirmed_at);
                self.confirmed_transactions.push(record);
                proof {
                    assert forall|k: int| first_with_id(before, tx_id@, k) implies k == i by {
                        if k < i {
                        } else if k > i {
                            assert(before[i as int].id@ == tx_id@);
                        }
                    }
                }
                return Ok(());
            }
            i += 1;
        }
        Err(WalletError::Transaction("Transaction not found".to_string()))
    }

    /// Every record, pending and confirmed, newest first.
    pub fn get_all_transactions(&self) -> (r: Vec<Transaction>)
        ensures
            r@.to_multiset() == (self.pending() + self.confirmed()).to_multiset(),
            newest_first(r@),
    {
        let mut out: Vec<Transaction> = Vec::new();
        let mut k: usize = 0;
        assert(out@ =~= self.pending().take(0));
        while k < self.pending_transactions.len()
            invariant
                k <= self.pending().len(),
                out@.to_multiset() == self.pending().take(k as int).to_multiset(),
                newest_first(out@),
            decreases self.pending().len() - k,
        {
            let record = self.pending_transactions[k].clone();
            insert_newest_first(&mut out, record);
            proof {
                vstd::seq_lib::to_multiset_build(self.pending().take(k as int), record);
                assert(self.pending().take(k + 1) =~= self.pending().take(k as int).push(record));
            }
            k += 1;
        }
        assert(self.pending().take(self.pending().len() as int) =~= self.pending());
        assert(self.pending() + self.confirmed().take(0) =~= self.pending());
        let mut c: usize = 0;
        while c < self.confirmed_transactions.len()
            invariant
                c <= self.confirmed().len(),
                out@.to_multiset() == (self.pending() + self.confirmed().take(c as int)).to_multiset(),
                newest_first(out@),
            decreases self.confirmed().len() - c,
        {
            let record = self.confirmed_transactions[c].clone();
            insert_newest_first(&mut out, record);
            proof {
                vstd::seq_lib::to_multiset_build(self.pending() + self.confirmed().take(c as int), record);
                assert(self.pending() + self.confirmed().take(c + 1) =~= (self.pending()
                    + self.confirmed().take(c as int)).push(record));
            }
            c += 1;
        }
        assert(self.confirmed().take(self.confirmed().len() as int) =~= self.confirmed());
        out
    }

    pub fn get_pending_transactions(&self) -> (r: &[Transaction])
        ensures
            r@ == self.pending(),
    {
        self.pending_transactions.as_slice()
    }

    pub fn get_confirmed_transactions(&self) -> (r: &[Transaction])
        ensures
            r@ == self.confirmed(),
    {
        self.confirmed_transactions.as_slice()
    }
}

} // verus!
