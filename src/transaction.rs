//! Transaction inputs and outputs, their canonical byte encoding and hash,
//! and the transactions that blocks carry.

use vstd::prelude::*;
use vstd::bytes::{spec_u32_to_le_bytes, spec_u64_to_le_bytes, u32_to_le_bytes, u64_to_le_bytes};
use vstd::utf8::encode_utf8;

use crate::bytes::append;
use crate::error::{WalletError, WalletResult};
use crate::keys::NockchainKeyManager;
use crate::primitives::{ed25519_signature_of, hex_encode, hex_lower, now_millis, sha256, sha256_of};

verus! {

/// A reference to an output of an earlier transaction.
#[derive(Debug)]
pub struct OutPoint {
    pub transaction_id: String,
    pub output_index: u32,
}

impl Clone for OutPoint {
    fn clone(&self) -> (r: Self)
        ensures
            r == *self,
    {
        OutPoint { transaction_id: self.transaction_id.clone(), output_index: self.output_index }
    }
}

/// A spent output: where it came from, its signature and key, and its value.
#[derive(Debug)]
pub struct TransactionInput {
    pub previous_output: OutPoint,
    pub signature: Vec<u8>,
    pub public_key: [u8; 32],
    pub amount: u64,
}

/// The value of a `TransactionInput`.
pub ghost struct InputModel {
    pub transaction_id: Seq<char>,
    pub output_index: u32,
    pub signature: Seq<u8>,
    pub public_key: Seq<u8>,
    pub amount: u64,
}

impl View for TransactionInput {
    type V = InputModel;

    open spec fn view(&self) -> InputModel {
        InputModel {
            transaction_id: self.previous_output.transaction_id@,
            output_index: self.previous_output.output_index,
            signature: self.signature@,
            public_key: self.public_key@,
            amount: self.amount,
        }
    }
}

impl Clone for TransactionInput {
    fn clone(&self) -> (r: Self)
        ensures
            r@ == self@,
    {
        let signature = self.signature.clone();
        assert(signature@ =~= self.signature@);
        TransactionInput {
            previous_output: self.previous_output.clone(),
            signature,
            public_key: self.public_key,
            amount: self.amount,
        }
    }
}

/// A new output: its value, the recipient's address text and a locking script.
#[derive(Debug)]
pub struct TransactionOutput {
    pub amount: u64,
    pub recipient_address: String,
    pub script_pubkey: Vec<u8>,
}

/// The value of a `TransactionOutput`.
pub ghost struct OutputModel {
    pub amount: u64,
    pub recipient_address: Seq<char>,
    pub script_pubkey: Seq<u8>,
}

impl View for TransactionOutput {
    type V = OutputModel;

    open spec fn view(&self) -> OutputModel {
        OutputModel {
            amount: self.amount,
            recipient_address: self.recipient_address@,
            script_pubkey: self.script_pubkey@,
        }
    }
}

impl Clone for TransactionOutput {
    fn clone(&self) -> (r: Self)
        ensures
            r@ == self@,
    {
        let script_pubkey = self.script_pubkey.clone();
        assert(script_pubkey@ =~= self.script_pubkey@);
        TransactionOutput {
            amount: self.amount,
            recipient_address: self.recipient_address.clone(),
            script_pubkey,
        }
    }
}

pub open spec fn input_models(v: Seq<TransactionInput>) -> Seq<InputModel> {
    v.map_values(|i: TransactionInput| i@)
}

pub open spec fn output_models(v: Seq<TransactionOutput>) -> Seq<OutputModel> {
    v.map_values(|o: TransactionOutput| o@)
}

/// Sum of the amounts of the inputs.
pub open spec fn input_total(ins: Seq<InputModel>) -> nat
    decreases ins.len(),
{
    if ins.len() == 0 {
        0
    } else {
        input_total(ins.drop_last()) + ins.last().amount as nat
    }
}

/// Sum of the amounts of the outputs.
pub open spec fn output_total(outs: Seq<OutputModel>) -> nat
    decreases outs.len(),
{
    if outs.len() == 0 {
        0
    } else {
        output_total(outs.drop_last()) + outs.last().amount as nat
    }
}

/// Hashed bytes of one input: id text, output index, signature, public key,
/// and, where `with_amount`, the amount; integers little-endian.
pub open spec fn input_bytes(i: InputModel, with_amount: bool) -> Seq<u8> {
    encode_utf8(i.transaction_id) + spec_u32_to_le_bytes(i.output_index) + i.signature
        + i.public_key + if with_amount {
        spec_u64_to_le_bytes(i.amount)
    } else {
        Seq::empty()
    }
}

/// Hashed bytes of one output: amount (little-endian), recipient text, script.
pub open spec fn output_bytes(o: OutputModel) -> Seq<u8> {
    spec_u64_to_le_bytes(o.amount) + encode_utf8(o.recipient_address) + o.script_pubkey
}

pub open spec fn inputs_bytes(ins: Seq<InputModel>, with_amount: bool) -> Seq<u8>
    decreases ins.len(),
{
    if ins.len() == 0 {
        Seq::empty()
    } else {
        inputs_bytes(ins.drop_last(), with_amount) + input_bytes(ins.last(), with_amount)
    }
}

pub open spec fn outputs_bytes(outs: Seq<OutputModel>) -> Seq<u8>
    decreases outs.len(),
{
    if outs.len() == 0 {
        Seq::empty()
    } else {
        outputs_bytes(outs.drop_last()) + output_bytes(outs.last())
    }
}

/// The bytes whose SHA-256 is a transaction's hash: every input (with its
/// amount), then every output, then the fee, little-endian.
pub open spec fn transaction_preimage(ins: Seq<InputModel>, outs: Seq<OutputModel>, fee: u64) -> Seq<
    u8,
> {
    inputs_bytes(ins, true) + outputs_bytes(outs) + spec_u64_to_le_bytes(fee)
}

/// The same without input amounts and without fee.
pub open spec fn legacy_preimage(ins: Seq<InputModel>, outs: Seq<OutputModel>) -> Seq<u8> {
    inputs_bytes(ins, false) + outputs_bytes(outs)
}

pub open spec fn transaction_hash_of(ins: Seq<InputModel>, outs: Seq<OutputModel>, fee: u64) -> Seq<
    u8,
> {
    sha256_of(transaction_preimage(ins, outs, fee))
}

/// Transactions that differ only in their fee have different hashed bytes.
pub proof fn preimage_separates_fees(ins: Seq<InputModel>, outs: Seq<OutputModel>, f1: u64, f2: u64)
    requires
        f1 != f2,
    ensures
        transaction_preimage(ins, outs, f1) != transaction_preimage(ins, outs, f2),
{
    vstd::bytes::lemma_auto_spec_u64_to_from_le_bytes();
    let head = inputs_bytes(ins, true) + outputs_bytes(outs);
    let p1 = transaction_preimage(ins, outs, f1);
    let p2 = transaction_preimage(ins, outs, f2);
    assert(p1.subrange(head.len() as int, p1.len() as int) =~= spec_u64_to_le_bytes(f1));
    assert(p2.subrange(head.len() as int, p2.len() as int) =~= spec_u64_to_le_bytes(f2));
}

proof fn lemma_inputs_bytes_concat(a: Seq<InputModel>, b: Seq<InputModel>, w: bool)
    ensures
        inputs_bytes(a + b, w) == inputs_bytes(a, w) + inputs_bytes(b, w),
    decreases b.len(),
{
    if b.len() == 0 {
        assert(a + b =~= a);
        assert(inputs_bytes(a, w) + inputs_bytes(b, w) =~= inputs_bytes(a, w));
    } else {
        lemma_inputs_bytes_concat(a, b.drop_last(), w);
        assert((a + b).drop_last() =~= a + b.drop_last());
        assert((a + b).last() == b.last());
        assert(inputs_bytes(a + b, w) =~= inputs_bytes(a, w) + inputs_bytes(b, w));
    }
}

proof fn lemma_outputs_bytes_concat(a: Seq<OutputModel>, b: Seq<OutputModel>)
    ensures
        outputs_bytes(a + b) == outputs_bytes(a) + outputs_bytes(b),
    decreases b.len(),
{
    if b.len() == 0 {
        assert(a + b =~= a);
        assert(outputs_bytes(a) + outputs_bytes(b) =~= outputs_bytes(a));
    } else {
        lemma_outputs_bytes_concat(a, b.drop_last());
        assert((a + b).drop_last() =~= a + b.drop_last());
        assert((a + b).last() == b.last());
        assert(outputs_bytes(a + b) =~= outputs_bytes(a) + outputs_bytes(b));
    }
}

/// `p + x + q` and `p + y + q` differ where `x` and `y` have one length and differ.
proof fn lemma_middle_differs(p: Seq<u8>, x: Seq<u8>, y: Seq<u8>, q: Seq<u8>)
    requires
        x.len() == y.len(),
        x != y,
    ensures
        p + x + q != p + y + q,
{
    if p + x + q == p + y + q {
        assert((p + x + q).subrange(p.len() as int, (p.len() + x.len()) as int) =~= x);
        assert((p + y + q).subrange(p.len() as int, (p.len() + y.len()) as int) =~= y);
    }
}

/// Two inputs whose text id encodings, signatures and public keys have the
/// same lengths, and which differ, have different hashed bytes.
proof fn lemma_input_bytes_differ(x: InputModel, y: InputModel)
    requires
        encode_utf8(x.transaction_id).len() == encode_utf8(y.transaction_id).len(),
        x.signature.len() == y.signature.len(),
        x.public_key.len() == y.public_key.len(),
        x != y,
    ensures
        input_bytes(x, true) != input_bytes(y, true),
{
    if input_bytes(x, true) == input_bytes(y, true) {
        vstd::bytes::lemma_auto_spec_u32_to_from_le_bytes();
        vstd::bytes::lemma_auto_spec_u64_to_from_le_bytes();
        let bx = input_bytes(x, true);
        let by = input_bytes(y, true);
        let n0 = encode_utf8(x.transaction_id).len() as int;
        let n1 = n0 + 4;
        let n2 = n1 + x.signature.len();
        let n3 = n2 + x.public_key.len();
        assert(bx.subrange(0, n0) =~= encode_utf8(x.transaction_id));
        assert(by.subrange(0, n0) =~= encode_utf8(y.transaction_id));
        vstd::utf8::encode_utf8_decode_utf8(x.transaction_id);
        vstd::utf8::encode_utf8_decode_utf8(y.transaction_id);
        assert(bx.subrange(n0, n1) =~= spec_u32_to_le_bytes(x.output_index));
        assert(by.subrange(n0, n1) =~= spec_u32_to_le_bytes(y.output_index));
        assert(bx.subrange(n1, n2) =~= x.signature);
        assert(by.subrange(n1, n2) =~= y.signature);
        assert(bx.subrange(n2, n3) =~= x.public_key);
        assert(by.subrange(n2, n3) =~= y.public_key);
        assert(bx.subrange(n3, n3 + 8) =~= spec_u64_to_le_bytes(x.amount));
        assert(by.subrange(n3, n3 + 8) =~= spec_u64_to_le_bytes(y.amount));
    }
}

/// Two outputs whose recipient encodings and scripts have the same lengths,
/// and which differ, have different hashed bytes.
proof fn lemma_output_bytes_differ(x: OutputModel, y: OutputModel)
    requires
        encode_utf8(x.recipient_address).len() == encode_utf8(y.recipient_address).len(),
        x.script_pubkey.len() == y.script_pubkey.len(),
        x != y,
    ensures
        output_bytes(x) != output_bytes(y),
{
    if output_bytes(x) == output_bytes(y) {
        vstd::bytes::lemma_auto_spec_u64_to_from_le_bytes();
        let bx = output_bytes(x);
        let by = output_bytes(y);
        let n0 = 8int;
        let n1 = n0 + encode_utf8(x.recipient_address).len();
        assert(bx.subrange(0, 8) =~= spec_u64_to_le_bytes(x.amount));
        assert(by.subrange(0, 8) =~= spec_u64_to_le_bytes(y.amount));
        assert(bx.subrange(n0, n1) =~= encode_utf8(x.recipient_address));
        assert(by.subrange(n0, n1) =~= encode_utf8(y.recipient_address));
        vstd::utf8::encode_utf8_decode_utf8(x.recipient_address);
        vstd::utf8::encode_utf8_decode_utf8(y.recipient_address);
        assert(bx.subrange(n1, bx.len() as int) =~= x.script_pubkey);
        assert(by.subrange(n1, by.len() as int) =~= y.script_pubkey);
    }
}

/// Replacing one input by a different one of the same field lengths (a
/// changed byte in its id text, signature or key, or another index or
/// amount) changes the hashed bytes of the transaction.
pub proof fn preimage_separates_inputs(
    ins: Seq<InputModel>,
    k: int,
    x: InputModel,
    outs: Seq<OutputModel>,
    fee: u64,
)
    requires
        0 <= k < ins.len(),
        encode_utf8(x.transaction_id).len() == encode_utf8(ins[k].transaction_id).len(),
        x.signature.len() == ins[k].signature.len(),
        x.public_key.len() == ins[k].public_key.len(),
        x != ins[k],
    ensures
        transaction_preimage(ins.update(k, x), outs, fee) != transaction_preimage(ins, outs, fee),
{
    let changed = ins.update(k, x);
    let before = ins.take(k);
    let after = ins.skip(k + 1);
    assert(ins =~= before + seq![ins[k]] + after);
    assert(changed =~= before + seq![x] + after);
    lemma_inputs_bytes_concat(before + seq![ins[k]], after, true);
    lemma_inputs_bytes_concat(before, seq![ins[k]], true);
    lemma_inputs_bytes_concat(before + seq![x], after, true);
    lemma_inputs_bytes_concat(before, seq![x], true);
    assert(seq![ins[k]].drop_last() =~= Seq::<InputModel>::empty());
    assert(seq![x].drop_last() =~= Seq::<InputModel>::empty());
    vstd::bytes::lemma_auto_spec_u32_to_from_le_bytes();
    vstd::bytes::lemma_auto_spec_u64_to_from_le_bytes();
    assert(inputs_bytes(Seq::<InputModel>::empty(), true) == Seq::<u8>::empty());
    assert(inputs_bytes(seq![ins[k]], true) =~= input_bytes(ins[k], true));
    assert(inputs_bytes(seq![x], true) =~= input_bytes(x, true));
    lemma_input_bytes_differ(x, ins[k]);
    let tail = inputs_bytes(after, true) + outputs_bytes(outs) + spec_u64_to_le_bytes(fee);
    lemma_middle_differs(inputs_bytes(before, true), input_bytes(x, true), input_bytes(ins[k], true), tail);
    assert(transaction_preimage(changed, outs, fee) =~= inputs_bytes(before, true) + input_bytes(x, true) + tail);
    assert(transaction_preimage(ins, outs, fee) =~= inputs_bytes(before, true) + input_bytes(ins[k], true) + tail);
}

/// Replacing one output by a different one of the same field lengths (a
/// changed byte in its recipient text or script, or another amount) changes
/// the hashed bytes of the transaction.
pub proof fn preimage_separates_outputs(
    ins: Seq<InputModel>,
    outs: Seq<OutputModel>,
    k: int,
    x: OutputModel,
    fee: u64,
)
    requires
        0 <= k < outs.len(),
        encode_utf8(x.recipient_address).len() == encode_utf8(outs[k].recipient_address).len(),
        x.script_pubkey.len() == outs[k].script_pubkey.len(),
        x != outs[k],
    ensures
        transaction_preimage(ins, outs.update(k, x), fee) != transaction_preimage(ins, outs, fee),
{
    let changed = outs.update(k, x);
    let before = outs.take(k);
    let after = outs.skip(k + 1);
    assert(outs =~= before + seq![outs[k]] + after);
    assert(changed =~= before + seq![x] + after);
    lemma_outputs_bytes_concat(before + seq![outs[k]], after);
    lemma_outputs_bytes_concat(before, seq![outs[k]]);
    lemma_outputs_bytes_concat(before + seq![x], after);
    lemma_outputs_bytes_concat(before, seq![x]);
    assert(seq![outs[k]].drop_last() =~= Seq::<OutputModel>::empty());
    assert(seq![x].drop_last() =~= Seq::<OutputModel>::empty());
    vstd::bytes::lemma_auto_spec_u64_to_from_le_bytes();
    assert(outputs_bytes(Seq::<OutputModel>::empty()) == Seq::<u8>::empty());
    assert(outputs_bytes(seq![outs[k]]) =~= output_bytes(outs[k]));
    assert(outputs_bytes(seq![x]) =~= output_bytes(x));
    lemma_output_bytes_differ(x, outs[k]);
    let head = inputs_bytes(ins, true) + outputs_bytes(before);
    let tail = outputs_bytes(after) + spec_u64_to_le_bytes(fee);
    lemma_middle_differs(head, output_bytes(x), output_bytes(outs[k]), tail);
    assert(transaction_preimage(ins, changed, fee) =~= head + output_bytes(x) + tail);
    assert(transaction_preimage(ins, outs, fee) =~= head + output_bytes(outs[k]) + tail);
}

fn append_inputs(buf: &mut Vec<u8>, inputs: &[TransactionInput], with_amount: bool)
    ensures
        final(buf)@ == old(buf)@ + inputs_bytes(input_models(inputs@), with_amount),
{
    let ghost start = buf@;
    let ghost models = input_models(inputs@);
    let mut k: usize = 0;
    while k < inputs.len()
        invariant
            k <= inputs@.len(),
            models == input_models(inputs@),
            buf@ == start + inputs_bytes(models.take(k as int), with_amount),
        decreases inputs@.len() - k,
    {
        let input = &inputs[k];
        append(buf, input.previous_output.transaction_id.as_str().as_bytes());
        append(buf, u32_to_le_bytes(input.previous_output.output_index).as_slice());
        append(buf, input.signature.as_slice());
        append(buf, &input.public_key);
        if with_amount {
            append(buf, u64_to_le_bytes(input.amount).as_slice());
        }
        proof {
            assert(models.take(k + 1).drop_last() =~= models.take(k as int));
            assert(models.take(k + 1).last() == input@);
        }
        k += 1;
        assert(buf@ =~= start + inputs_bytes(models.take(k as int), with_amount));
    }
    assert(models.take(inputs@.len() as int) =~= models);
}

fn append_outputs(buf: &mut Vec<u8>, outputs: &[TransactionOutput])
    ensures
        final(buf)@ == old(buf)@ + outputs_bytes(output_models(outputs@)),
{
    let ghost start = buf@;
    let ghost models = output_models(outputs@);
    let mut k: usize = 0;
    while k < outputs.len()
        invariant
            k <= outputs@.len(),
            models == output_models(outputs@),
            buf@ == start + outputs_bytes(models.take(k as int)),
        decreases outputs@.len() - k,
    {
        let output = &outputs[k];
        append(buf, u64_to_le_bytes(output.amount).as_slice());
        append(buf, output.recipient_address.as_str().as_bytes());
        append(buf, output.script_pubkey.as_slice());
        proof {
            assert(models.take(k + 1).drop_last() =~= models.take(k as int));
            assert(models.take(k + 1).last() == output@);
        }
        k += 1;
        assert(buf@ =~= start + outputs_bytes(models.take(k as int)));
    }
    assert(models.take(outputs@.len() as int) =~= models);
}

/// SHA-256 over every input (with amount), every output and the fee.
pub fn transaction_hash(inputs: &[TransactionInput], outputs: &[TransactionOutput], fee: u64) -> (r:
    Vec<u8>)
    ensures
        r@ == transaction_hash_of(input_models(inputs@), output_models(outputs@), fee),
        r@.len() == 32,
{
    let mut buf: Vec<u8> = Vec::new();
    append_inputs(&mut buf, inputs, true);
    append_outputs(&mut buf, outputs);
    append(&mut buf, u64_to_le_bytes(fee).as_slice());
    assert(buf@ =~= transaction_preimage(input_models(inputs@), output_models(outputs@), fee));
    let digest = sha256(buf.as_slice());
    vstd::slice::slice_to_vec(&digest)
}

/// A transaction as a block carries it.
#[derive(Debug)]
pub struct NockchainTransaction {
    pub transaction_data: Vec<u8>,
    pub signatures: Vec<Vec<u8>>,
    pub hash: Vec<u8>,
    /// Creation time, milliseconds since the Unix epoch.
    pub timestamp: i64,
    pub inputs: Vec<TransactionInput>,
    pub outputs: Vec<TransactionOutput>,
    pub fee: u64,
}

impl NockchainTransaction {
    /// A transaction over raw data, hashed with SHA-256, stamped with the
    /// current time, with no signatures, inputs or outputs and no fee.
    pub fn new(transaction_data: Vec<u8>) -> (r: Self)
        ensures
            r.transaction_data@ == transaction_data@,
            r.hash@ == sha256_of(transaction_data@),
            r.hash@.len() == 32,
            r.signatures@.len() == 0,
            r.inputs@.len() == 0,
            r.outputs@.len() == 0,
            r.fee == 0,
    {
        let digest = sha256(transaction_data.as_slice());
        let hash = vstd::slice::slice_to_vec(&digest);
        NockchainTransaction {
            transaction_data,
            signatures: Vec::new(),
            hash,
            timestamp: now_millis(),
            inputs: Vec::new(),
            outputs: Vec::new(),
            fee: 0,
        }
    }

    /// SHA-256 over every input (without amount) and every output; no fee.
    pub fn create_transaction_hash(inputs: &[TransactionInput], outputs: &[TransactionOutput]) -> (r:
        Vec<u8>)
        ensures
            r@ == sha256_of(legacy_preimage(input_models(inputs@), output_models(outputs@))),
            r@.len() == 32,
    {
        let mut buf: Vec<u8> = Vec::new();
        append_inputs(&mut buf, inputs, false);
        append_outputs(&mut buf, outputs);
        let digest = sha256(buf.as_slice());
        vstd::slice::slice_to_vec(&digest)
    }

    /// Appends a signature.
    pub fn add_signature(&mut self, signature: Vec<u8>)
        ensures
            final(self).signatures@ == old(self).signatures@.push(signature),
            final(self).transaction_data == old(self).transaction_data,
            final(self).hash == old(self).hash,
            final(self).timestamp == old(self).timestamp,
            final(self).inputs == old(self).inputs,
            final(self).outputs == old(self).outputs,
            final(self).fee == old(self).fee,
    {
        self.signatures.push(signature);
    }
}

proof fn lemma_input_total_prefix(ins: Seq<InputModel>, i: int)
    requires
        0 <= i <= ins.len(),
    ensures
        input_total(ins.take(i)) <= input_total(ins),
    decreases ins.len(),
{
    if i < ins.len() {
        lemma_input_total_prefix(ins.drop_last(), i);
        assert(ins.drop_last().take(i) =~= ins.take(i));
    } else {
        assert(ins.take(i) =~= ins);
    }
}

proof fn lemma_output_total_prefix(outs: Seq<OutputModel>, i: int)
    requires
        0 <= i <= outs.len(),
    ensures
        output_total(outs.take(i)) <= output_total(outs),
    decreases outs.len(),
{
    if i < outs.len() {
        lemma_output_total_prefix(outs.drop_last(), i);
        assert(outs.drop_last().take(i) =~= outs.take(i));
    } else {
        assert(outs.take(i) =~= outs);
    }
}

/// The output sum, or `None` where it passes `u64::MAX`.
fn checked_output_total(outputs: &Vec<TransactionOutput>) -> (r: Option<u64>)
    ensures
        match r {
            Some(v) => v == output_total(output_models(outputs@)),
            None => output_total(output_models(outputs@)) > u64::MAX,
        },
{
    let ghost models = output_models(outputs@);
    let mut total: u64 = 0;
    let mut i: usize = 0;
    while i < outputs.len()
        invariant
            i <= outputs@.len(),
            models == output_models(outputs@),
            total == output_total(models.take(i as int)),
        decreases outputs@.len() - i,
    {
        proof {
            assert(models.take(i + 1).drop_last() =~= models.take(i as int));
            lemma_output_total_prefix(models, i + 1);
        }
        match total.checked_add(outputs[i].amount) {
            Some(v) => total = v,
            None => {
                return None;
            },
        }
        i += 1;
    }
    assert(models.take(outputs@.len() as int) =~= models);
    Some(total)
}

/// The input sum, or `None` where it passes `u64::MAX`.
fn checked_input_total(inputs: &Vec<TransactionInput>) -> (r: Option<u64>)
    ensures
        match r {
            Some(v) => v == input_total(input_models(inputs@)),
            None => input_total(input_models(inputs@)) > u64::MAX,
        },
{
    let ghost models = input_models(inputs@);
    let mut total: u64 = 0;
    let mut i: usize = 0;
    while i < inputs.len()
        invariant
            i <= inputs@.len(),
            models == input_models(inputs@),
            total == input_total(models.take(i as int)),
        decreases inputs@.len() - i,
    {
        proof {
            assert(models.take(i + 1).drop_last() =~= models.take(i as int));
            lemma_input_total_prefix(models, i + 1);
        }
        match total.checked_add(inputs[i].amount) {
            Some(v) => total = v,
            None => {
                return None;
            },
        }
        i += 1;
    }
    assert(models.take(inputs@.len() as int) =~= models);
    Some(total)
}

/// Sum of input amounts; the caller guarantees that it fits.
fn sum_inputs(inputs: &Vec<TransactionInput>) -> (r: u64)
    requires
        input_total(input_models(inputs@)) <= u64::MAX,
    ensures
        r == input_total(input_models(inputs@)),
{
    let ghost models = input_models(inputs@);
    let mut total: u64 = 0;
    let mut i: usize = 0;
    while i < inputs.len()
        invariant
            i <= inputs@.len(),
            models == input_models(inputs@),
            input_total(models) <= u64::MAX,
            total == input_total(models.take(i as int)),
        decreases inputs@.len() - i,
    {
        proof {
            assert(models.take(i + 1).drop_last() =~= models.take(i as int));
            lemma_input_total_prefix(models, i + 1);
        }
        total = total + inputs[i].amount;
        i += 1;
    }
    assert(models.take(inputs@.len() as int) =~= models);
    total
}

/// Sum of output amounts; the caller guarantees that it fits.
pub(crate) fn sum_outputs(outputs: &Vec<TransactionOutput>) -> (r: u64)
    requires
        output_total(output_models(outputs@)) <= u64::MAX,
    ensures
        r == output_total(output_models(outputs@)),
{
    let ghost models = output_models(outputs@);
    let mut total: u64 = 0;
    let mut i: usize = 0;
    while i < outputs.len()
        invariant
            i <= outputs@.len(),
            models == output_models(outputs@),
            output_total(models) <= u64::MAX,
            total == output_total(models.take(i as int)),
        decreases outputs@.len() - i,
    {
        proof {
            assert(models.take(i + 1).drop_last() =~= models.take(i as int));
            lemma_output_total_prefix(models, i + 1);
        }
        total = total + outputs[i].amount;
        i += 1;
    }
    assert(models.take(outputs@.len() as int) =~= models);
    total
}

fn copy_inputs(v: &Vec<TransactionInput>) -> (r: Vec<TransactionInput>)
    ensures
        input_models(r@) == input_models(v@),
{
    let mut out: Vec<TransactionInput> = Vec::new();
    let mut i: usize = 0;
    while i < v.len()
        invariant
            i <= v@.len(),
            out@.len() == i,
            forall|k: int| 0 <= k < i ==> (#[trigger] out@[k])@ == v@[k]@,
        decreases v@.len() - i,
    {
        out.push(v[i].clone());
        i += 1;
    }
    assert(input_models(out@) =~= input_models(v@));
    out
}

fn copy_outputs(v: &Vec<TransactionOutput>) -> (r: Vec<TransactionOutput>)
    ensures
        output_models(r@) == output_models(v@),
{
    let mut out: Vec<TransactionOutput> = Vec::new();
    let mut i: usize = 0;
    while i < v.len()
        invariant
            i <= v@.len(),
            out@.len() == i,
            forall|k: int| 0 <= k < i ==> (#[trigger] out@[k])@ == v@[k]@,
        decreases v@.len() - i,
    {
        out.push(v[i].clone());
        i += 1;
    }
    assert(output_models(out@) =~= output_models(v@));
    out
}

/// Collects inputs, outputs and a fee for a new transaction.
#[derive(Debug)]
pub struct TransactionBuilder {
    inputs: Vec<TransactionInput>,
    outputs: Vec<TransactionOutput>,
    fee: u64,
}

/// The value of a `TransactionBuilder`.
pub ghost struct BuilderModel {
    pub inputs: Seq<InputModel>,
    pub outputs: Seq<OutputModel>,
    pub fee: u64,
}

impl BuilderModel {
    /// What the transaction spends: its outputs plus its fee.
    pub open spec fn spent_total(self) -> nat {
        output_total(self.outputs) + self.fee as nat
    }

    /// Inputs and outputs are present, what is spent fits in a `u64`, and
    /// the inputs cover it.
    pub open spec fn is_valid(self) -> bool {
        &&& self.inputs.len() > 0
        &&& self.outputs.len() > 0
        &&& self.spent_total() <= u64::MAX
        &&& input_total(self.inputs) >= self.spent_total()
    }
}

impl View for TransactionBuilder {
    type V = BuilderModel;

    closed spec fn view(&self) -> BuilderModel {
        BuilderModel {
            inputs: input_models(self.inputs@),
            outputs: output_models(self.outputs@),
            fee: self.fee,
        }
    }
}

/// A transaction with its hash, lowercase hex id and signature.
#[derive(Debug)]
pub struct SignedTransaction {
    pub id: String,
    pub inputs: Vec<TransactionInput>,
    pub outputs: Vec<TransactionOutput>,
    pub fee: u64,
    pub signature: Vec<u8>,
    pub hash: Vec<u8>,
}

impl TransactionBuilder {
    pub fn new() -> (r: Self)
        ensures
            r@.inputs == Seq::<InputModel>::empty(),
            r@.outputs == Seq::<OutputModel>::empty(),
            r@.fee == 0,
    {
        let r = TransactionBuilder { inputs: Vec::new(), outputs: Vec::new(), fee: 0 };
        assert(r@.inputs =~= Seq::<InputModel>::empty());
        assert(r@.outputs =~= Seq::<OutputModel>::empty());
        r
    }

    pub fn add_input(&mut self, input: TransactionInput)
        ensures
            final(self)@.inputs == old(self)@.inputs.push(input@),
            final(self)@.outputs == old(self)@.outputs,
            final(self)@.fee == old(self)@.fee,
    {
        self.inputs.push(input);
        assert(final(self)@.inputs =~= old(self)@.inputs.push(input@));
    }

    pub fn add_output(&mut self, output: TransactionOutput)
        ensures
            final(self)@.outputs == old(self)@.outputs.push(output@),
            final(self)@.inputs == old(self)@.inputs,
            final(self)@.fee == old(self)@.fee,
    {
        self.outputs.push(output);
        assert(final(self)@.outputs =~= old(self)@.outputs.push(output@));
    }

    pub fn set_fee(&mut self, fee: u64)
        ensures
            final(self)@.fee == fee,
            final(self)@.inputs == old(self)@.inputs,
            final(self)@.outputs == old(self)@.outputs,
    {
        self.fee = fee;
    }

    pub fn total_input(&self) -> (r: u64)
        requires
            input_total(self@.inputs) <= u64::MAX,
        ensures
            r == input_total(self@.inputs),
    {
        sum_inputs(&self.inputs)
    }

    pub fn total_output(&self) -> (r: u64)
        requires
            output_total(self@.outputs) <= u64::MAX,
        ensures
            r == output_total(self@.outputs),
    {
        sum_outputs(&self.outputs)
    }

    /// `Transaction("No inputs provided")`, then `Transaction("No outputs
    /// provided")`, then `Transaction("Amount overflow")` where outputs plus
    /// fee pass `u64::MAX`, then `InsufficientFunds` where the inputs do not
    /// cover outputs plus fee; otherwise success. Sums are exact.
    pub fn validate(&self) -> (r: WalletResult<()>)
        ensures
            self@.inputs.len() == 0 ==> (r matches Err(WalletError::Transaction(m)) && m@
                == "No inputs provided"@),
            self@.inputs.len() > 0 && self@.outputs.len() == 0 ==> (r matches Err(
                WalletError::Transaction(m),
            ) && m@ == "No outputs provided"@),
            self@.inputs.len() > 0 && self@.outputs.len() > 0 && self@.spent_total() > u64::MAX
                ==> (r matches Err(WalletError::Transaction(m)) && m@ == "Amount overflow"@),
            self@.inputs.len() > 0 && self@.outputs.len() > 0 && self@.spent_total() <= u64::MAX
                && input_total(self@.inputs) < self@.spent_total() ==> (r matches Err(
                WalletError::InsufficientFunds { required, available },
            ) && required == self@.spent_total() && available == input_total(self@.inputs)),
            r matches Err(WalletError::InsufficientFunds { .. }) ==> input_total(self@.inputs)
                < self@.spent_total(),
            r is Ok <==> self@.is_valid(),
    {
        if self.inputs.len() == 0 {
            return Err(WalletError::Transaction("No inputs provided".to_string()));
        }
        if self.outputs.len() == 0 {
            return Err(WalletError::Transaction("No outputs provided".to_string()));
        }
        let total_output = match checked_output_total(&self.outputs) {
            Some(v) => v,
            None => {
                return Err(WalletError::Transaction("Amount overflow".to_string()));
            },
        };
        let required = match total_output.checked_add(self.fee) {
            Some(v) => v,
            None => {
                return Err(WalletError::Transaction("Amount overflow".to_string()));
            },
        };
        match checked_input_total(&self.inputs) {
            Some(available) => {
                if available < required {
                    return Err(WalletError::InsufficientFunds { required, available });
                }
                Ok(())
            },
            None => Ok(()),
        }
    }

    /// Validates, hashes the transaction canonically, signs the hash with
    /// the named key and names the result by the lowercase hex of the hash.
    pub fn build_and_sign(&self, key_manager: &NockchainKeyManager, key_name: &str) -> (r:
        WalletResult<SignedTransaction>)
        requires
            key_manager.wf(),
        ensures
            self@.inputs.len() == 0 ==> (r matches Err(WalletError::Transaction(m)) && m@
                == "No inputs provided"@),
            self@.inputs.len() > 0 && self@.outputs.len() == 0 ==> (r matches Err(
                WalletError::Transaction(m),
            ) && m@ == "No outputs provided"@),
            self@.inputs.len() > 0 && self@.outputs.len() > 0 && self@.spent_total() > u64::MAX
                ==> (r matches Err(WalletError::Transaction(m)) && m@ == "Amount overflow"@),
            self@.inputs.len() > 0 && self@.outputs.len() > 0 && self@.spent_total() <= u64::MAX
                && input_total(self@.inputs) < self@.spent_total() ==> (r matches Err(
                WalletError::InsufficientFunds { required, available },
            ) && required == self@.spent_total() && available == input_total(self@.inputs)),
            self@.is_valid() && !key_manager@.contains_key(key_name@) ==> (r matches Err(
                WalletError::KeyNotFound(s),
            ) && s@ == key_name@),
            r is Ok <==> self@.is_valid() && key_manager@.contains_key(key_name@),
            r matches Ok(t) ==> {
                &&& t.hash@ == transaction_hash_of(self@.inputs, self@.outputs, self@.fee)
                &&& t.hash@.len() == 32
                &&& t.id@ == hex_lower(t.hash@)
                &&& t.signature@ == ed25519_signature_of(key_manager@[key_name@], t.hash@)
                &&& input_models(t.inputs@) == self@.inputs
                &&& output_models(t.outputs@) == self@.outputs
                &&& t.fee == self@.fee
            },
    {
        self.validate()?;
        let hash = key_manager.create_transaction_hash(
            self.inputs.as_slice(),
            self.outputs.as_slice(),
            self.fee,
        );
        let signature = key_manager.sign_with_key(key_name, hash.as_slice())?;
        let id = hex_encode(hash.as_slice());
        Ok(
            SignedTransaction {
                id,
                inputs: copy_inputs(&self.inputs),
                outputs: copy_outputs(&self.outputs),
                fee: self.fee,
                signature: vstd::slice::slice_to_vec(&signature),
                hash,
            },
        )
    }
}

} // verus!
