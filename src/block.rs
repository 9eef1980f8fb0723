//! Block headers, merkle roots, compact difficulty targets and proof of work.

use vstd::prelude::*;
use vstd::bytes::{spec_u32_to_le_bytes, spec_u64_to_le_bytes, u32_to_le_bytes, u64_to_le_bytes};

use crate::bytes::{append, fit32, fit_to_32, same_bytes};
use crate::error::{WalletError, WalletResult};
use crate::primitives::{now_millis, sha256, sha256_of};
use crate::transaction::NockchainTransaction;

verus! {

/// A block header. `bits` is the compact difficulty: an exponent byte over a
/// 24-bit mantissa.
#[derive(Debug, Clone, Copy)]
pub struct BlockHeader {
    pub version: u32,
    pub previous_hash: [u8; 32],
    pub merkle_root: [u8; 32],
    pub timestamp: u64,
    pub bits: u32,
    pub nonce: u64,
    pub height: u64,
}

/// The hashed bytes of a header: every field in order, integers little-endian.
pub open spec fn header_bytes(h: BlockHeader) -> Seq<u8> {
    spec_u32_to_le_bytes(h.version) + h.previous_hash@ + h.merkle_root@ + spec_u64_to_le_bytes(
        h.timestamp,
    ) + spec_u32_to_le_bytes(h.bits) + spec_u64_to_le_bytes(h.nonce) + spec_u64_to_le_bytes(
        h.height,
    )
}

pub open spec fn header_hash(h: BlockHeader) -> Seq<u8> {
    sha256_of(header_bytes(h))
}

/// The 32-byte big-endian target that compact `bits` stand for: with exponent
/// `e` and mantissa `m`, an `e` of at most 3 puts `m >> 8 * (3 - e)` in the
/// last three bytes; an `e` below 32 puts the three bytes of `m` at offset
/// `32 - e`; a larger `e` gives zero.
pub open spec fn target_of(bits: u32) -> Seq<u8> {
    let e = (bits >> 24u32) & 0xffu32;
    let m = bits & 0x00ff_ffffu32;
    if e <= 3 {
        let v = m >> ((8 * (3 - e)) as u32);
        Seq::new(
            32,
            |i: int|
                if i == 29 {
                    (v >> 16u32) as u8
                } else if i == 30 {
                    (v >> 8u32) as u8
                } else if i == 31 {
                    v as u8
                } else {
                    0u8
                },
        )
    } else if e < 32 {
        let s = 32 - e;
        Seq::new(
            32,
            |i: int|
                if i == s {
                    (m >> 16u32) as u8
                } else if i == s + 1 {
                    (m >> 8u32) as u8
                } else if i == s + 2 {
                    m as u8
                } else {
                    0u8
                },
        )
    } else {
        Seq::new(32, |i: int| 0u8)
    }
}

/// `a` is at most `b` in lexicographic byte order (first difference decides;
/// equal strings count).
pub open spec fn bytes_at_most(a: Seq<u8>, b: Seq<u8>) -> bool
    decreases a.len(),
{
    if a.len() == 0 || b.len() == 0 {
        true
    } else if a[0] < b[0] {
        true
    } else if a[0] > b[0] {
        false
    } else {
        bytes_at_most(a.drop_first(), b.drop_first())
    }
}

/// The header's hash, read big-endian, is at most the target of its bits.
pub open spec fn meets_target(h: BlockHeader) -> bool {
    bytes_at_most(header_hash(h), target_of(h.bits))
}

/// One level of the merkle tree: each pair hashed together, an odd last hash
/// paired with itself.
pub open spec fn merkle_level(hs: Seq<Seq<u8>>) -> Seq<Seq<u8>> {
    Seq::new(
        ((hs.len() + 1) / 2) as nat,
        |k: int|
            sha256_of(
                hs[2 * k] + if 2 * k + 1 < hs.len() {
                    hs[2 * k + 1]
                } else {
                    hs[2 * k]
                },
            ),
    )
}

/// Folds levels until at most one hash is left.
pub open spec fn merkle_fold(hs: Seq<Seq<u8>>) -> Seq<u8>
    decreases hs.len(),
{
    if hs.len() == 0 {
        Seq::empty()
    } else if hs.len() == 1 {
        hs[0]
    } else {
        merkle_fold(merkle_level(hs))
    }
}

/// The leaves: each transaction's hash cut or zero-padded to 32 bytes.
pub open spec fn merkle_leaves(txs: Seq<NockchainTransaction>) -> Seq<Seq<u8>> {
    Seq::new(txs.len(), |i: int| fit32(txs[i].hash@))
}

/// The merkle root of a transaction sequence; 32 zero bytes when it is empty.
pub open spec fn merkle_root_of(txs: Seq<NockchainTransaction>) -> Seq<u8> {
    if txs.len() == 0 {
        Seq::new(32, |i: int| 0u8)
    } else {
        merkle_fold(merkle_leaves(txs))
    }
}

/// The header with another nonce.
pub open spec fn with_nonce(h: BlockHeader, nonce: u64) -> BlockHeader {
    BlockHeader {
        version: h.version,
        previous_hash: h.previous_hash,
        merkle_root: h.merkle_root,
        timestamp: h.timestamp,
        bits: h.bits,
        nonce,
        height: h.height,
    }
}

/// The header with another nonce and timestamp.
pub open spec fn with_nonce_at(h: BlockHeader, nonce: u64, timestamp: u64) -> BlockHeader {
    BlockHeader {
        version: h.version,
        previous_hash: h.previous_hash,
        merkle_root: h.merkle_root,
        timestamp,
        bits: h.bits,
        nonce,
        height: h.height,
    }
}

/// Under some timestamp the header with this nonce misses its target.
pub open spec fn nonce_missed(h: BlockHeader, nonce: u64) -> bool {
    exists|t: u64| !meets_target(#[trigger] with_nonce_at(h, nonce, t))
}

/// Every nonce below `end` was tried under some timestamp and missed the target.
pub open spec fn nonces_tried_below(h: BlockHeader, end: u64) -> bool {
    forall|n: u64| n < end ==> #[trigger] nonce_missed(h, n)
}

/// Some transaction of the sequence has no inputs or no outputs.
pub open spec fn has_empty_transaction(txs: Seq<NockchainTransaction>) -> bool {
    exists|i: int|
        0 <= i < txs.len() && ((#[trigger] txs[i]).inputs@.len() == 0 || txs[i].outputs@.len() == 0)
}

/// Nonces between two mining clock refreshes.
pub const NONCES_PER_TIMESTAMP: u64 = 100_000;

pub open spec fn arrays_view(v: Seq<[u8; 32]>) -> Seq<Seq<u8>> {
    Seq::new(v.len(), |i: int| v[i]@)
}

/// The merkle root of no transactions is 32 zero bytes.
pub proof fn merkle_root_of_nothing()
    ensures
        merkle_root_of(Seq::<NockchainTransaction>::empty()) == Seq::new(32, |i: int| 0u8),
{
}

/// The merkle root of one transaction is its hash, cut or zero-padded to 32
/// bytes.
pub proof fn merkle_root_of_one(tx: NockchainTransaction)
    ensures
        merkle_root_of(seq![tx]) == fit32(tx.hash@),
{
    assert(merkle_leaves(seq![tx]).len() == 1);
}

/// `256` to the power `n`.
pub open spec fn pow256(n: nat) -> nat
    decreases n,
{
    if n == 0 {
        1
    } else {
        256 * pow256((n - 1) as nat)
    }
}

/// A byte string read as a big-endian unsigned integer.
pub open spec fn be_value(s: Seq<u8>) -> nat
    decreases s.len(),
{
    if s.len() == 0 {
        0
    } else {
        be_value(s.drop_last()) * 256 + s.last() as nat
    }
}

proof fn lemma_be_value_concat(a: Seq<u8>, b: Seq<u8>)
    ensures
        be_value(a + b) == be_value(a) * pow256(b.len()) + be_value(b),
    decreases b.len(),
{
    if b.len() == 0 {
        assert(a + b =~= a);
        assert(be_value(b) == 0);
        assert(pow256(0) == 1);
        assert(be_value(a) * 1 == be_value(a));
    } else {
        let c = b.drop_last();
        lemma_be_value_concat(a, c);
        assert((a + b).drop_last() =~= a + c);
        assert((a + b).last() == b.last());
        let x = be_value(a);
        let p = pow256(c.len());
        let y = be_value(c);
        assert(pow256(b.len()) == 256 * p);
        assert(be_value(a + b) == be_value(a + c) * 256 + b.last() as nat);
        assert(be_value(b) == y * 256 + b.last() as nat);
        assert((x * p + y) * 256 == x * (256 * p) + y * 256) by (nonlinear_arith);
    }
}

proof fn lemma_be_value_zeros(n: nat)
    ensures
        be_value(Seq::new(n, |i: int| 0u8)) == 0,
    decreases n,
{
    if n > 0 {
        lemma_be_value_zeros((n - 1) as nat);
        assert(Seq::new(n, |i: int| 0u8).drop_last() =~= Seq::new((n - 1) as nat, |i: int| 0u8));
    }
}

proof fn lemma_three_bytes(v: u32)
    requires
        v < 0x100_0000,
    ensures
        be_value(seq![(v >> 16u32) as u8, (v >> 8u32) as u8, v as u8]) == v,
{
    let t = seq![(v >> 16u32) as u8, (v >> 8u32) as u8, v as u8];
    assert(t.drop_last().drop_last().drop_last() =~= Seq::<u8>::empty());
    assert(t.drop_last().drop_last() =~= seq![(v >> 16u32) as u8]);
    assert(t.drop_last() =~= seq![(v >> 16u32) as u8, (v >> 8u32) as u8]);
    let b0 = (v >> 16u32) as u8;
    let b1 = (v >> 8u32) as u8;
    let b2 = v as u8;
    assert(be_value(seq![b0]) == b0 as nat) by {
        assert(seq![b0].drop_last() =~= Seq::<u8>::empty());
        assert(be_value(Seq::<u8>::empty()) == 0);
        assert(seq![b0].last() == b0);
    }
    assert(be_value(seq![b0, b1]) == b0 as nat * 256 + b1 as nat);
    assert(be_value(t) == (b0 as nat * 256 + b1 as nat) * 256 + b2 as nat);
    assert(b0 as u32 * 65536 + b1 as u32 * 256 + b2 as u32 == v) by (bit_vector)
        requires
            v < 0x100_0000,
            b0 == (v >> 16u32) as u8,
            b1 == (v >> 8u32) as u8,
            b2 == v as u8,
    ;
}

/// Read as a big-endian integer, the target of compact `bits` with exponent
/// `e` and mantissa `m` is `m >> 8 * (3 - e)` for `e` up to 3, `m * 256^(e - 3)`
/// for `e` below 32, and zero above.
pub proof fn target_value(bits: u32)
    ensures
        ({
            let e = (bits >> 24u32) & 0xffu32;
            let m = bits & 0x00ff_ffffu32;
            be_value(target_of(bits)) == if e <= 3 {
                (m >> ((8 * (3 - e)) as u32)) as nat
            } else if e < 32 {
                m as nat * pow256((e - 3) as nat)
            } else {
                0
            }
        }),
{
    let e = (bits >> 24u32) & 0xffu32;
    let m = bits & 0x00ff_ffffu32;
    assert(m < 0x100_0000) by (bit_vector)
        requires
            m == bits & 0x00ff_ffffu32,
    ;
    let t = target_of(bits);
    if e <= 3 {
        let v = m >> ((8 * (3 - e)) as u32);
        assert(v <= m) by (bit_vector)
            requires
                v == m >> ((8 * (3 - e)) as u32),
        ;
        let z = Seq::new(29, |i: int| 0u8);
        let w = seq![(v >> 16u32) as u8, (v >> 8u32) as u8, v as u8];
        assert(t =~= z + w);
        lemma_be_value_concat(z, w);
        lemma_be_value_zeros(29);
        lemma_three_bytes(v);
    } else if e < 32 {
        let st = (32 - e) as nat;
        let z1 = Seq::new(st, |i: int| 0u8);
        let w = seq![(m >> 16u32) as u8, (m >> 8u32) as u8, m as u8];
        let z2 = Seq::new((e - 3) as nat, |i: int| 0u8);
        assert(t =~= z1 + w + z2);
        lemma_be_value_concat(z1 + w, z2);
        lemma_be_value_concat(z1, w);
        lemma_be_value_zeros(st);
        lemma_be_value_zeros((e - 3) as nat);
        lemma_three_bytes(m);
    } else {
        assert(t =~= Seq::new(32, |i: int| 0u8));
        lemma_be_value_zeros(32);
    }
}

impl BlockHeader {
    /// SHA-256 of the header's fields in order, integers little-endian.
    pub fn hash(&self) -> (r: [u8; 32])
        ensures
            r@ == header_hash(*self),
    {
        let mut buf: Vec<u8> = Vec::new();
        append(&mut buf, u32_to_le_bytes(self.version).as_slice());
        append(&mut buf, &self.previous_hash);
        append(&mut buf, &self.merkle_root);
        append(&mut buf, u64_to_le_bytes(self.timestamp).as_slice());
        append(&mut buf, u32_to_le_bytes(self.bits).as_slice());
        append(&mut buf, u64_to_le_bytes(self.nonce).as_slice());
        append(&mut buf, u64_to_le_bytes(self.height).as_slice());
        assert(buf@ =~= header_bytes(*self));
        sha256(buf.as_slice())
    }

    /// Whether the header hash, read big-endian, is at most the target of `bits`.
    pub fn meets_difficulty(&self) -> (r: bool)
        ensures
            r == meets_target(*self),
    {
        let hash = self.hash();
        let target = difficulty_to_target(self.bits);
        assert(hash@.skip(0) =~= hash@);
        assert(target@.skip(0) =~= target@);
        let mut i: usize = 0;
        while i < 32
            invariant
                i <= 32,
                hash@.len() == 32,
                target@.len() == 32,
                hash@ == header_hash(*self),
                target@ == target_of(self.bits),
                meets_target(*self) == bytes_at_most(hash@.skip(i as int), target@.skip(i as int)),
            decreases 32 - i,
        {
            let ghost a = hash@.skip(i as int);
            let ghost b = target@.skip(i as int);
            assert(a[0] == hash@[i as int] && b[0] == target@[i as int]);
            if hash[i] < target[i] {
                return true;
            }
            if hash[i] > target[i] {
                return false;
            }
            assert(a.drop_first() =~= hash@.skip(i + 1));
            assert(b.drop_first() =~= target@.skip(i + 1));
            i += 1;
        }
        assert(hash@.skip(32).len() == 0);
        true
    }
}

/// Decodes compact difficulty `bits` into a 32-byte big-endian target.
pub fn difficulty_to_target(bits: u32) -> (r: [u8; 32])
    ensures
        r@ == target_of(bits),
{
    let exponent = (bits >> 24u32) & 0xffu32;
    let mantissa = bits & 0x00ff_ffffu32;
    let mut target = [0u8; 32];
    if exponent <= 3 {
        let value = mantissa >> (8 * (3 - exponent));
        target[29] = (value >> 16u32) as u8;
        target[30] = (value >> 8u32) as u8;
        target[31] = value as u8;
    } else if exponent < 32 {
        let start = (32 - exponent) as usize;
        target[start] = (mantissa >> 16u32) as u8;
        target[start + 1] = (mantissa >> 8u32) as u8;
        target[start + 2] = mantissa as u8;
    }
    assert(target@ =~= target_of(bits));
    target
}

fn pair_hash(left: &[u8; 32], right: &[u8; 32]) -> (r: [u8; 32])
    ensures
        r@ == sha256_of(left@ + right@),
{
    let mut buf: Vec<u8> = Vec::new();
    append(&mut buf, left);
    append(&mut buf, right);
    assert(buf@ =~= left@ + right@);
    sha256(buf.as_slice())
}

fn next_level(hashes: &Vec<[u8; 32]>) -> (r: Vec<[u8; 32]>)
    ensures
        arrays_view(r@) == merkle_level(arrays_view(hashes@)),
{
    let ghost hs = arrays_view(hashes@);
    let n = hashes.len();
    let half = n / 2 + n % 2;
    let mut out: Vec<[u8; 32]> = Vec::new();
    let mut k: usize = 0;
    while k < half
        invariant
            n == hashes@.len(),
            half == (n + 1) / 2,
            hs == arrays_view(hashes@),
            k <= half,
            out@.len() == k,
            forall|j: int| 0 <= j < k ==> out@[j]@ == #[trigger] merkle_level(hs)[j],
        decreases half - k,
    {
        let left = &hashes[2 * k];
        let h = if 2 * k + 1 < n {
            pair_hash(left, &hashes[2 * k + 1])
        } else {
            pair_hash(left, left)
        };
        out.push(h);
        k += 1;
    }
    assert(arrays_view(out@) =~= merkle_level(hs));
    out
}

/// The merkle root of the transactions' hashes (each cut or zero-padded to
/// 32 bytes); pairs are hashed with SHA-256, an odd last hash with itself.
/// 32 zero bytes for no transactions.
pub fn calculate_merkle_root(transactions: &[NockchainTransaction]) -> (r: [u8; 32])
    ensures
        r@ == merkle_root_of(transactions@),
{
    if transactions.len() == 0 {
        let zero = [0u8; 32];
        assert(zero@ =~= merkle_root_of(transactions@));
        return zero;
    }
    let mut hashes: Vec<[u8; 32]> = Vec::new();
    let mut i: usize = 0;
    while i < transactions.len()
        invariant
            i <= transactions@.len(),
            hashes@.len() == i,
            forall|j: int|
                0 <= j < i ==> hashes@[j]@ == #[trigger] merkle_leaves(transactions@)[j],
        decreases transactions@.len() - i,
    {
        hashes.push(fit_to_32(transactions[i].hash.as_slice()));
        i += 1;
    }
    assert(arrays_view(hashes@) =~= merkle_leaves(transactions@));
    while hashes.len() > 1
        invariant
            hashes@.len() >= 1,
            merkle_fold(arrays_view(hashes@)) == merkle_fold(merkle_leaves(transactions@)),
        decreases hashes@.len(),
    {
        let next = next_level(&hashes);
        proof {
            let n = hashes@.len();
            assert(arrays_view(next@).len() == next@.len());
            assert(next@.len() == (n + 1) / 2);
            assert((n + 1) / 2 < n && (n + 1) / 2 >= 1);
            assert(arrays_view(hashes@).len() == n);
        }
        hashes = next;
    }
    hashes[0]
}

/// A block: a header and the ordered transactions it commits to.
#[derive(Debug)]
pub struct Block {
    pub header: BlockHeader,
    pub transactions: Vec<NockchainTransaction>,
}

/// The first nonce in `first..=last` under which the header meets its target,
/// or `None` where there is none. A bounded unit of mining work: a caller
/// can stop between two such searches.
pub fn search_nonce(header: &BlockHeader, first: u64, last: u64) -> (r: Option<u64>)
    requires
        first <= last,
    ensures
        match r {
            Some(n) => {
                &&& first <= n <= last
                &&& meets_target(with_nonce(*header, n))
                &&& forall|k: u64| first <= k < n ==> !meets_target(#[trigger] with_nonce(*header, k))
            },
            None => forall|k: u64|
                first <= k <= last ==> !meets_target(#[trigger] with_nonce(*header, k)),
        },
{
    let mut candidate = *header;
    let mut n = first;
    loop
        invariant
            first <= n <= last,
            candidate == with_nonce(*header, candidate.nonce),
            forall|k: u64| first <= k < n ==> !meets_target(#[trigger] with_nonce(*header, k)),
        decreases last - n,
    {
        candidate.nonce = n;
        if candidate.meets_difficulty() {
            return Some(n);
        }
        if n == last {
            return None;
        }
        n += 1;
    }
}

/// The clock in whole seconds since the Unix epoch (zero before it).
fn unix_seconds_now() -> u64 {
    let millis = now_millis();
    if millis < 0 {
        0
    } else {
        (millis / 1000) as u64
    }
}

impl Block {
    /// A version-1 block over the transactions, with their merkle root, nonce
    /// zero, and the current time.
    pub fn new(previous_hash: [u8; 32], transactions: Vec<NockchainTransaction>, height: u64, bits: u32) -> (r: Self)
        ensures
            r.header.version == 1,
            r.header.previous_hash == previous_hash,
            r.header.merkle_root@ == merkle_root_of(transactions@),
            r.header.bits == bits,
            r.header.nonce == 0,
            r.header.height == height,
            r.transactions@ == transactions@,
    {
        let merkle_root = calculate_merkle_root(transactions.as_slice());
        let header = BlockHeader {
            version: 1,
            previous_hash,
            merkle_root,
            timestamp: unix_seconds_now(),
            bits,
            nonce: 0,
            height,
        };
        Block { header, transactions }
    }

    /// Searches the nonces `0..u64::MAX` in order for one under which the
    /// header meets its target, refreshing the timestamp after nonce zero and
    /// after every multiple of `NONCES_PER_TIMESTAMP`. Fails with `Consensus`
    /// when the range is exhausted. Only the nonce and timestamp change.
    pub fn mine(&mut self) -> (r: WalletResult<()>)
        ensures
            match r {
                Ok(()) => meets_target(final(self).header),
                Err(e) => e matches WalletError::Consensus(_) && nonces_tried_below(
                    old(self).header,
                    u64::MAX,
                ),
            },
            meets_target(with_nonce(old(self).header, 0)) ==> r is Ok && final(self).header
                == with_nonce(old(self).header, 0),
            final(self).header.version == old(self).header.version,
            final(self).header.previous_hash == old(self).header.previous_hash,
            final(self).header.merkle_root == old(self).header.merkle_root,
            final(self).header.bits == old(self).header.bits,
            final(self).header.height == old(self).header.height,
            final(self).transactions == old(self).transactions,
    {
        let never = || -> (stop: bool)
            ensures
                !stop,
            { false };
        match self.mine_until(never) {
            Ok(true) => Ok(()),
            Ok(false) => Err(WalletError::Consensus("Mining stopped".to_string())),
            Err(e) => Err(e),
        }
    }

    /// `mine`, asking `should_stop` between two timestamp refreshes (at most
    /// `NONCES_PER_TIMESTAMP` nonces apart) whether to give up: `Ok(true)`
    /// when a nonce was found, `Ok(false)` when stopped.
    pub fn mine_until<F: Fn() -> bool>(&mut self, should_stop: F) -> (r: WalletResult<bool>)
        requires
            call_requires(should_stop, ()),
        ensures
            match r {
                Ok(true) => meets_target(final(self).header),
                Ok(false) => call_ensures(should_stop, (), true),
                Err(e) => e matches WalletError::Consensus(_) && nonces_tried_below(
                    old(self).header,
                    u64::MAX,
                ),
            },
            meets_target(with_nonce(old(self).header, 0)) ==> r == Ok::<bool, WalletError>(true)
                && final(self).header == with_nonce(old(self).header, 0),
            final(self).header.version == old(self).header.version,
            final(self).header.previous_hash == old(self).header.previous_hash,
            final(self).header.merkle_root == old(self).header.merkle_root,
            final(self).header.bits == old(self).header.bits,
            final(self).header.height == old(self).header.height,
            final(self).transactions == old(self).transactions,
    {
        let mut first: u64 = 0;
        while first < u64::MAX
            invariant
                call_requires(should_stop, ()),
                self.header.version == old(self).header.version,
                self.header.previous_hash == old(self).header.previous_hash,
                self.header.merkle_root == old(self).header.merkle_root,
                self.header.bits == old(self).header.bits,
                self.header.height == old(self).header.height,
                self.transactions == old(self).transactions,
                first == 0 ==> self.header == old(self).header,
                meets_target(with_nonce(old(self).header, 0)) ==> first == 0,
                nonces_tried_below(old(self).header, first),
            decreases u64::MAX - first,
        {
            let rem = first % NONCES_PER_TIMESTAMP;
            let mut last: u64 = if rem == 0 {
                first
            } else if first <= u64::MAX - (NONCES_PER_TIMESTAMP - rem) {
                first + (NONCES_PER_TIMESTAMP - rem)
            } else {
                u64::MAX
            };
            if last == u64::MAX {
                last = u64::MAX - 1;
            }
            assert(first == 0 ==> last == 0);
            match search_nonce(&self.header, first, last) {
                Some(n) => {
                    self.header.nonce = n;
                    proof {
                        if first == 0 {
                            assert(self.header == with_nonce(old(self).header, n));
                        }
                    }
                    return Ok(true);
                },
                None => {},
            }
            proof {
                let h = self.header;
                assert forall|n: u64| n < last + 1 implies #[trigger] nonce_missed(old(self).header, n) by {
                    if n >= first {
                        assert(with_nonce_at(old(self).header, n, h.timestamp) == with_nonce(h, n));
                        assert(!meets_target(with_nonce(h, n)));
                    }
                }
            }
            self.header.nonce = last;
            self.header.timestamp = unix_seconds_now();
            if should_stop() {
                return Ok(false);
            }
            first = last + 1;
        }
        Err(WalletError::Consensus("Failed to find valid nonce".to_string()))
    }

    /// Checks, in order: proof of work (`BlockValidation("Invalid proof of
    /// work")`), the merkle root (`BlockValidation("Invalid merkle root")`),
    /// and that every transaction has inputs and outputs (`BlockValidation`).
    pub fn validate(&self) -> (r: WalletResult<()>)
        ensures
            !meets_target(self.header) ==> (r matches Err(WalletError::BlockValidation(m)) && m@
                == "Invalid proof of work"@),
            meets_target(self.header) && self.header.merkle_root@ != merkle_root_of(
                self.transactions@,
            ) ==> (r matches Err(WalletError::BlockValidation(m)) && m@ == "Invalid merkle root"@),
            r is Ok <==> {
                &&& meets_target(self.header)
                &&& self.header.merkle_root@ == merkle_root_of(self.transactions@)
                &&& !has_empty_transaction(self.transactions@)
            },
            r matches Err(e) ==> e matches WalletError::BlockValidation(_),
    {
        if !self.header.meets_difficulty() {
            return Err(WalletError::BlockValidation("Invalid proof of work".to_string()));
        }
        let calculated = calculate_merkle_root(self.transactions.as_slice());
        if !same_bytes(&calculated, &self.header.merkle_root) {
            return Err(WalletError::BlockValidation("Invalid merkle root".to_string()));
        }
        let mut i: usize = 0;
        while i < self.transactions.len()
            invariant
                i <= self.transactions@.len(),
                meets_target(self.header),
                self.header.merkle_root@ == merkle_root_of(self.transactions@),
                forall|j: int|
                    0 <= j < i ==> (#[trigger] self.transactions@[j]).inputs@.len() != 0
                        && self.transactions@[j].outputs@.len() != 0,
            decreases self.transactions@.len() - i,
        {
            let tx = &self.transactions[i];
            if tx.inputs.len() == 0 {
                return Err(WalletError::BlockValidation("Transaction has no inputs".to_string()));
            }
            if tx.outputs.len() == 0 {
                return Err(WalletError::BlockValidation("Transaction has no outputs".to_string()));
            }
            i += 1;
        }
        Ok(())
    }

    /// The header hash.
    pub fn hash(&self) -> (r: [u8; 32])
        ensures
            r@ == header_hash(self.header),
    {
        self.header.hash()
    }
}

} // verus!
