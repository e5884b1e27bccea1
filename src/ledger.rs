//! The integrity ledger: a hash-chained log of transaction batches with
//! per-account credit balances, capsule provenance records and resource
//! leases.
//!
//! Credits are fixed-point millionths (`SCALE` is one credit). Times are
//! milliseconds supplied by the caller.
use vstd::prelude::*;
use crate::capsule::{MemoryCapsule, PrivacyLevel};
use crate::keyed::{lookup, unique_keys, lemma_lookup_at, lemma_lookup_update, lemma_lookup_push, lemma_lookup_absent, has_key};
use crate::numeric::{SCALE, min, div_trunc, hash_byte_slice, hash_step, hash_bytes, bytes_of, hash_combine, simple_hash};

verus! {

/// Hash recorded as the genesis block's own hash.
pub const GENESIS_HASH: u64 = 0x67656e65736973;

/// Merkle root recorded for a block without transactions.
pub const EMPTY_MERKLE: u64 = 0x656d707479;

/// Credit awarded per unit of quality times novelty on a capsule upload.
pub const BASE_REWARD: i64 = 1_000_000;

/// Lease cost per unit of duration: half a credit.
pub const LEASE_COST_NUM: u64 = 1;
pub const LEASE_COST_DEN: u64 = 2;

#[derive(Clone, Copy, Debug, PartialEq, Eq, Structural)]
pub enum TransactionType {
    MemoryUpload,
    NodeBorrowing,
    ContributionReward,
    PenaltyCharge,
    ContractExecution,
}

/// What a transaction carries besides its amount, one variant per kind of
/// transaction that the ledger produces.
#[derive(Clone, Debug)]
pub enum TxMetadata {
    Empty,
    CapsuleUpload { capsule_id: String, quality_score: i64 },
    Lease { borrowing_id: u64, node_id: String, duration: u64 },
}

#[derive(Clone, Debug)]
pub struct Transaction {
    pub tx_id: u64,
    pub from: String,
    pub to: String,
    pub amount: i64,
    pub tx_type: TransactionType,
    pub timestamp: u64,
    pub metadata: TxMetadata,
}

/// A block. `nonce` is filler kept for the record format: it carries no
/// proof of work and must not be relied on for tamper resistance.
#[derive(Clone, Debug)]
pub struct Block {
    pub index: u64,
    pub timestamp: u64,
    pub previous_hash: u64,
    pub hash: u64,
    pub transactions: Vec<Transaction>,
    pub merkle_root: u64,
    pub nonce: u64,
}

#[derive(Clone, Copy, Debug, PartialEq, Eq, Structural)]
pub enum ContractType {
    IncentiveDistribution,
    MemoryValidation,
    NodeBorrowingPermission,
    QualityAssessment,
    NetworkGovernance,
}

#[derive(Clone, Debug)]
pub struct SmartContract {
    pub contract_id: String,
    pub contract_type: ContractType,
    pub creator: String,
    pub code: String,
    pub is_active: bool,
    pub execution_cost: i64,
}

#[derive(Clone, Debug)]
pub struct MemoryRecord {
    pub capsule_id: String,
    pub uploader: String,
    pub timestamp: u64,
    pub hash: u64,
    pub privacy_level: PrivacyLevel,
    pub incentive_earned: i64,
    pub access_permissions: Vec<String>,
    pub quality_score: i64,
    pub usage_count: u32,
}

#[derive(Clone, Copy, Debug, PartialEq, Eq, Structural)]
pub enum BorrowingStatus {
    Requested,
    Approved,
    Active,
    Completed,
    Disputed,
}

#[derive(Clone, Debug)]
pub struct BorrowingRecord {
    pub borrowing_id: u64,
    pub borrower: String,
    pub node_owner: String,
    pub node_id: String,
    pub start_time: u64,
    pub duration: u64,
    pub cost: i64,
    pub status: BorrowingStatus,
    pub performance_metrics: Vec<(String, i64)>,
}

/// Why a lease request was turned down.
#[derive(Clone, Copy, Debug, PartialEq, Eq, Structural)]
pub enum LeaseError {
    InsufficientCredits,
    PermissionDenied,
}

#[derive(Clone, Copy, Debug, PartialEq, Eq, Structural)]
pub struct BlockchainStats {
    pub total_blocks: usize,
    pub total_transactions: usize,
    pub pending_transactions: usize,
    pub total_accounts: usize,
    pub total_memory_capsules: usize,
    pub total_borrowing_records: usize,
    pub total_smart_contracts: usize,
}

#[derive(Clone, Debug)]
pub struct Account {
    pub device_id: String,
    pub balance: i64,
}

pub struct BlockchainLedger {
    blocks: Vec<Block>,
    pending_transactions: Vec<Transaction>,
    smart_contracts: Vec<SmartContract>,
    account_balances: Vec<Account>,
    memory_registry: Vec<MemoryRecord>,
    node_borrowing_registry: Vec<BorrowingRecord>,
}

// ---------------------------------------------------------------- hashing

pub open spec fn type_code(t: TransactionType) -> u64 {
    match t {
        TransactionType::MemoryUpload => 1,
        TransactionType::NodeBorrowing => 2,
        TransactionType::ContributionReward => 3,
        TransactionType::PenaltyCharge => 4,
        TransactionType::ContractExecution => 5,
    }
}

/// The digest of one transaction: its id, amount, kind, time and both
/// parties.
pub open spec fn tx_digest(tx: Transaction) -> u64 {
    hash_step(
        hash_step(
            hash_step(
                hash_step(hash_step(tx.tx_id, tx.amount as u64), type_code(tx.tx_type)),
                tx.timestamp,
            ),
            hash_bytes(bytes_of(tx.from@)),
        ),
        hash_bytes(bytes_of(tx.to@)),
    )
}

/// The hash of a block: the block index folded with the digest of each
/// transaction in order.
pub open spec fn block_hash_of(index: u64, txs: Seq<Transaction>) -> u64
    decreases txs.len(),
{
    if txs.len() == 0 {
        index
    } else {
        hash_step(block_hash_of(index, txs.drop_last()), tx_digest(txs.last()))
    }
}

pub open spec fn id_fold(txs: Seq<Transaction>) -> u64
    decreases txs.len(),
{
    if txs.len() == 0 {
        0
    } else {
        hash_step(id_fold(txs.drop_last()), txs.last().tx_id)
    }
}

/// The Merkle root of a batch: the transaction ids folded in order.
pub open spec fn merkle_of(txs: Seq<Transaction>) -> u64 {
    if txs.len() == 0 {
        EMPTY_MERKLE
    } else {
        id_fold(txs)
    }
}

fn type_code_of(t: TransactionType) -> (r: u64)
    ensures
        r == type_code(t),
{
    match t {
        TransactionType::MemoryUpload => 1,
        TransactionType::NodeBorrowing => 2,
        TransactionType::ContributionReward => 3,
        TransactionType::PenaltyCharge => 4,
        TransactionType::ContractExecution => 5,
    }
}

pub fn transaction_digest(tx: &Transaction) -> (r: u64)
    ensures
        r == tx_digest(*tx),
{
    let h = hash_combine(tx.tx_id, tx.amount as u64);
    let h = hash_combine(h, type_code_of(tx.tx_type));
    let h = hash_combine(h, tx.timestamp);
    let h = hash_combine(h, simple_hash(tx.from.as_str()));
    hash_combine(h, simple_hash(tx.to.as_str()))
}

pub fn calculate_block_hash(index: u64, txs: &Vec<Transaction>) -> (r: u64)
    ensures
        r == block_hash_of(index, txs@),
{
    let mut h: u64 = index;
    let mut i: usize = 0;
    while i < txs.len()
        invariant
            0 <= i <= txs@.len(),
            h == block_hash_of(index, txs@.subrange(0, i as int)),
        decreases txs@.len() - i,
    {
        assert(txs@.subrange(0, i as int + 1).drop_last() == txs@.subrange(0, i as int));
        h = hash_combine(h, transaction_digest(&txs[i]));
        i += 1;
    }
    assert(txs@.subrange(0, txs@.len() as int) == txs@);
    h
}

pub fn calculate_merkle_root(txs: &Vec<Transaction>) -> (r: u64)
    ensures
        r == merkle_of(txs@),
{
    if txs.len() == 0 {
        return EMPTY_MERKLE;
    }
    let mut h: u64 = 0;
    let mut i: usize = 0;
    while i < txs.len()
        invariant
            0 <= i <= txs@.len(),
            h == id_fold(txs@.subrange(0, i as int)),
        decreases txs@.len() - i,
    {
        assert(txs@.subrange(0, i as int + 1).drop_last() == txs@.subrange(0, i as int));
        h = hash_combine(h, txs[i].tx_id);
        i += 1;
    }
    assert(txs@.subrange(0, txs@.len() as int) == txs@);
    h
}

// ------------------------------------------------------------ chain shape

/// Adjacent blocks are linked: each block after the first names its
/// predecessor's hash and carries the next index.
pub open spec fn chain_linked(blocks: Seq<Block>) -> bool {
    forall|i: int|
        1 <= i < blocks.len() ==> {
            &&& (#[trigger] blocks[i]).previous_hash == blocks[i - 1].hash
            &&& blocks[i].index == blocks[i - 1].index + 1
        }
}

/// Checks the linkage of a sequence of blocks; an empty or single-block
/// sequence is valid.
pub fn validate_blocks(blocks: &Vec<Block>) -> (r: bool)
    ensures
        r == chain_linked(blocks@),
{
    let mut i: usize = 1;
    while i < blocks.len()
        invariant
            1 <= i,
            i <= blocks@.len() || blocks@.len() == 0,
            forall|j: int|
                1 <= j < i && j < blocks@.len() ==> {
                    &&& (#[trigger] blocks@[j]).previous_hash == blocks@[j - 1].hash
                    &&& blocks@[j].index == blocks@[j - 1].index + 1
                },
        decreases blocks@.len() - i,
    {
        if blocks[i].previous_hash != blocks[i - 1].hash {
            return false;
        }
        if blocks[i - 1].index == u64::MAX || blocks[i].index != blocks[i - 1].index + 1 {
            return false;
        }
        i += 1;
    }
    true
}

/// Corrupting the predecessor hash recorded in any block after the first
/// of a linked chain leaves the chain unlinked.
pub proof fn lemma_corrupted_link_detected(blocks: Seq<Block>, i: int, bad_hash: u64)
    requires
        chain_linked(blocks),
        1 <= i < blocks.len(),
        bad_hash != blocks[i].previous_hash,
    ensures
        !chain_linked(blocks.update(i, Block { previous_hash: bad_hash, ..blocks[i] })),
{
    let b2 = blocks.update(i, Block { previous_hash: bad_hash, ..blocks[i] });
    assert(b2[i].previous_hash != b2[i - 1].hash);
}

// --------------------------------------------------------------- accounts

pub open spec fn account_key() -> spec_fn(Account) -> Seq<char> {
    |a: Account| a.device_id@
}

/// The balance held under `id`; an account never seen holds zero.
pub open spec fn balance_in(accts: Seq<Account>, id: Seq<char>) -> int {
    match lookup(accts, account_key(), id) {
        Some(a) => a.balance as int,
        None => 0,
    }
}

/// `a + b` held to the range of `i64`.
pub open spec fn sat_add(a: int, b: int) -> int {
    if a + b > i64::MAX {
        i64::MAX as int
    } else if a + b < i64::MIN {
        i64::MIN as int
    } else {
        a + b
    }
}

fn find_account(accts: &Vec<Account>, id: &String) -> (r: Option<usize>)
    ensures
        match r {
            Some(i) => i < accts@.len() && accts@[i as int].device_id@ == id@,
            None => forall|j: int| 0 <= j < accts@.len() ==> (#[trigger] accts@[j]).device_id@ != id@,
        },
{
    let mut i: usize = 0;
    while i < accts.len()
        invariant
            0 <= i <= accts@.len(),
            forall|j: int| 0 <= j < i ==> (#[trigger] accts@[j]).device_id@ != id@,
        decreases accts@.len() - i,
    {
        if accts[i].device_id == *id {
            return Some(i);
        }
        i += 1;
    }
    None
}

fn sat_add_i64(a: i64, b: i64) -> (r: i64)
    ensures
        r == sat_add(a as int, b as int),
{
    if b > 0 && a > i64::MAX - b {
        i64::MAX
    } else if b < 0 && a < i64::MIN - b {
        i64::MIN
    } else {
        a + b
    }
}

} // verus!

verus! {

pub open spec fn record_key() -> spec_fn(MemoryRecord) -> Seq<char> {
    |r: MemoryRecord| r.capsule_id@
}

pub open spec fn lease_key() -> spec_fn(BorrowingRecord) -> u64 {
    |l: BorrowingRecord| l.borrowing_id
}

/// The score that the memory validation contract gives a capsule, in
/// millionths: 0.5, plus 0.2 for novelty above 0.7, plus 0.2 for
/// importance above 0.8, plus 0.1 for more than three tags, at most 1.
pub open spec fn validation_score(novelty: int, importance: int, tag_count: int) -> int {
    min(
        500_000 + (if novelty > 700_000 { 200_000int } else { 0int }) + (if importance > 800_000 {
            200_000int
        } else {
            0int
        }) + (if tag_count > 3 { 100_000int } else { 0int }),
        SCALE as int,
    )
}

/// The credit earned by an upload: base reward times quality times novelty.
pub open spec fn upload_incentive(quality: int, novelty: int) -> int {
    BASE_REWARD as int * quality / (SCALE as int) * novelty / (SCALE as int)
}

/// The cost of a lease of `duration` (millionths of a time unit): half a
/// credit per unit.
pub open spec fn lease_cost(duration: int) -> int {
    duration * LEASE_COST_NUM as int / LEASE_COST_DEN as int
}

/// The digest recorded for a capsule: its id, time and payload.
pub open spec fn privacy_code(p: PrivacyLevel) -> u64 {
    match p {
        PrivacyLevel::Personal => 1,
        PrivacyLevel::Behavioral => 2,
        PrivacyLevel::Public => 3,
    }
}

/// `h` folded with each value in turn.
pub open spec fn fold_values(h: u64, v: Seq<i64>) -> u64
    decreases v.len(),
{
    if v.len() == 0 {
        h
    } else {
        hash_step(fold_values(h, v.drop_last()), v.last() as u64)
    }
}

/// `h` folded with the hash of each string in turn.
pub open spec fn fold_strings(h: u64, v: Seq<String>) -> u64
    decreases v.len(),
{
    if v.len() == 0 {
        h
    } else {
        hash_step(fold_strings(h, v.drop_last()), hash_bytes(bytes_of(v.last()@)))
    }
}

/// The digest recorded for a capsule: every field of it in turn (id, time,
/// cluster, privacy, context, tags, adaptation summary, payload, novelty,
/// importance).
pub open spec fn capsule_digest(c: MemoryCapsule) -> u64 {
    let a = c.adaptation_summary;
    let h = hash_step(hash_step(hash_bytes(bytes_of(c.capsule_id@)), c.timestamp), hash_bytes(bytes_of(c.cluster_id@)));
    let h = hash_step(h, privacy_code(c.privacy_level));
    let h = fold_strings(fold_values(h, c.context_vector@), c.semantic_tags@);
    let h = hash_step(hash_step(h, a.threshold_adaptations as u64), a.timer_adaptations as u64);
    let h = hash_step(hash_step(hash_step(h, a.weight_changes as u64), a.error_magnitude as u64), a.learning_rate_changes as u64);
    let h = hash_step(h, hash_bytes(c.compressed_data@));
    hash_step(hash_step(h, c.novelty_score as u64), c.importance_score as u64)
}

pub open spec fn metric_sum(m: Seq<(String, i64)>) -> int
    decreases m.len(),
{
    if m.len() == 0 {
        0
    } else {
        metric_sum(m.drop_last()) + m.last().1 as int
    }
}

/// The mean of the metrics exceeds 0.8 (an empty set has no mean).
pub open spec fn performs_well(m: Seq<(String, i64)>) -> bool {
    m.len() > 0 && metric_sum(m) > 800_000 * m.len()
}

/// A transaction of the given parties, amount and kind.
pub open spec fn tx_is(
    tx: Transaction,
    from: Seq<char>,
    to: Seq<char>,
    amount: int,
    kind: TransactionType,
    now: u64,
) -> bool {
    &&& tx.from@ == from
    &&& tx.to@ == to
    &&& tx.amount == amount
    &&& tx.tx_type == kind
    &&& tx.timestamp == now
}

pub fn memory_validation_score(capsule: &MemoryCapsule) -> (r: i64)
    requires
        capsule.in_range(),
    ensures
        r == validation_score(
            capsule.novelty_score as int,
            capsule.importance_score as int,
            capsule.semantic_tags@.len() as int,
        ),
        0 <= r <= SCALE,
{
    let mut q: i64 = 500_000;
    if capsule.novelty_score > 700_000 {
        q = q + 200_000;
    }
    if capsule.importance_score > 800_000 {
        q = q + 200_000;
    }
    if capsule.semantic_tags.len() > 3 {
        q = q + 100_000;
    }
    if q > SCALE {
        SCALE
    } else {
        q
    }
}

fn capsule_hash(c: &MemoryCapsule) -> (r: u64)
    ensures
        r == capsule_digest(*c),
{
    let a = &c.adaptation_summary;
    let h = hash_combine(hash_combine(simple_hash(c.capsule_id.as_str()), c.timestamp), simple_hash(c.cluster_id.as_str()));
    let code: u64 = match c.privacy_level {
        PrivacyLevel::Personal => 1,
        PrivacyLevel::Behavioral => 2,
        PrivacyLevel::Public => 3,
    };
    let mut h = hash_combine(h, code);
    let ghost h0 = h;
    let v = &c.context_vector;
    let mut i: usize = 0;
    while i < v.len()
        invariant
            0 <= i <= v@.len(),
            h == fold_values(h0, v@.subrange(0, i as int)),
        decreases v@.len() - i,
    {
        assert(v@.subrange(0, i as int + 1).drop_last() == v@.subrange(0, i as int));
        h = hash_combine(h, v[i] as u64);
        i += 1;
    }
    assert(v@.subrange(0, v@.len() as int) == v@);
    let ghost h1 = h;
    let t = &c.semantic_tags;
    let mut j: usize = 0;
    while j < t.len()
        invariant
            0 <= j <= t@.len(),
            h == fold_strings(h1, t@.subrange(0, j as int)),
        decreases t@.len() - j,
    {
        assert(t@.subrange(0, j as int + 1).drop_last() == t@.subrange(0, j as int));
        h = hash_combine(h, simple_hash(t[j].as_str()));
        j += 1;
    }
    assert(t@.subrange(0, t@.len() as int) == t@);
    let h = hash_combine(hash_combine(h, a.threshold_adaptations as u64), a.timer_adaptations as u64);
    let h = hash_combine(hash_combine(hash_combine(h, a.weight_changes as u64), a.error_magnitude as u64), a.learning_rate_changes as u64);
    let h = hash_combine(h, hash_byte_slice(c.compressed_data.as_slice()));
    hash_combine(hash_combine(h, c.novelty_score as u64), c.importance_score as u64)
}

fn find_record(recs: &Vec<MemoryRecord>, id: &String) -> (r: Option<usize>)
    ensures
        match r {
            Some(i) => i < recs@.len() && recs@[i as int].capsule_id@ == id@,
            None => forall|j: int| 0 <= j < recs@.len() ==> (#[trigger] recs@[j]).capsule_id@ != id@,
        },
{
    let mut i: usize = 0;
    while i < recs.len()
        invariant
            0 <= i <= recs@.len(),
            forall|j: int| 0 <= j < i ==> (#[trigger] recs@[j]).capsule_id@ != id@,
        decreases recs@.len() - i,
    {
        if recs[i].capsule_id == *id {
            return Some(i);
        }
        i += 1;
    }
    None
}

fn find_lease(leases: &Vec<BorrowingRecord>, id: u64) -> (r: Option<usize>)
    ensures
        match r {
            Some(i) => i < leases@.len() && leases@[i as int].borrowing_id == id,
            None => forall|j: int|
                0 <= j < leases@.len() ==> (#[trigger] leases@[j]).borrowing_id != id,
        },
{
    let mut i: usize = 0;
    while i < leases.len()
        invariant
            0 <= i <= leases@.len(),
            forall|j: int| 0 <= j < i ==> (#[trigger] leases@[j]).borrowing_id != id,
        decreases leases@.len() - i,
    {
        if leases[i].borrowing_id == id {
            return Some(i);
        }
        i += 1;
    }
    None
}

fn sum_metrics(m: &Vec<(String, i64)>) -> (r: i128)
    ensures
        r == metric_sum(m@),
{
    let n = m.len();
    let mut s: i128 = 0;
    let mut i: usize = 0;
    while i < n
        invariant
            0 <= i <= n,
            n == m@.len(),
            s == metric_sum(m@.subrange(0, i as int)),
            -(i as int) * 0x8000_0000_0000_0000 <= s <= (i as int) * 0x8000_0000_0000_0000,
        decreases m@.len() - i,
    {
        assert(m@.subrange(0, i as int + 1).drop_last() == m@.subrange(0, i as int));
        let x = m[i].1 as i128;
        assert((i as int + 1) * 0x8000_0000_0000_0000 == (i as int) * 0x8000_0000_0000_0000
            + 0x8000_0000_0000_0000) by (nonlinear_arith);
        assert((i as int + 1) * 0x8000_0000_0000_0000 <= 0xFFFF_FFFF_FFFF_FFFF * 0x8000_0000_0000_0000) by (nonlinear_arith)
            requires i < 0xFFFF_FFFF_FFFF_FFFF;
        s = s + x;
        i += 1;
    }
    assert(m@.subrange(0, m@.len() as int) == m@);
    s
}

} // verus!

verus! {

fn system_tx(to: &String, amount: i64, kind: TransactionType, now: u64, metadata: TxMetadata) -> (r:
    Transaction)
    ensures
        tx_is(r, "system"@, to@, amount as int, kind, now),
        r.metadata == metadata,
{
    Transaction {
        tx_id: crate::entropy::random_id(),
        from: String::from_str("system"),
        to: to.clone(),
        amount,
        tx_type: kind,
        timestamp: now,
        metadata,
    }
}

impl BlockchainLedger {
    /// The ledger's invariant: a genesis block at index 0, every block at
    /// its own position and linked to its predecessor, and unique keys in
    /// the account, capsule and lease registries.
    pub closed spec fn wf(&self) -> bool {
        &&& self.blocks@.len() >= 1
        &&& forall|i: int| 0 <= i < self.blocks@.len() ==> (#[trigger] self.blocks@[i]).index == i
        &&& chain_linked(self.blocks@)
        &&& unique_keys(self.account_balances@, account_key())
        &&& unique_keys(self.memory_registry@, record_key())
        &&& unique_keys(self.node_borrowing_registry@, lease_key())
        &&& forall|i: int|
            0 <= i < self.node_borrowing_registry@.len() ==> (#[trigger] self.node_borrowing_registry@[i]).borrowing_id
                == i
    }

    pub closed spec fn chain(&self) -> Seq<Block> {
        self.blocks@
    }

    pub closed spec fn pending(&self) -> Seq<Transaction> {
        self.pending_transactions@
    }

    /// The balance of an account; zero for an account never seen.
    pub closed spec fn balance(&self, id: Seq<char>) -> int {
        balance_in(self.account_balances@, id)
    }

    pub closed spec fn account_count(&self) -> nat {
        self.account_balances@.len()
    }

    pub closed spec fn record(&self, capsule_id: Seq<char>) -> Option<MemoryRecord> {
        lookup(self.memory_registry@, record_key(), capsule_id)
    }

    pub closed spec fn record_count(&self) -> nat {
        self.memory_registry@.len()
    }

    pub closed spec fn lease(&self, id: u64) -> Option<BorrowingRecord> {
        lookup(self.node_borrowing_registry@, lease_key(), id)
    }

    pub closed spec fn lease_count(&self) -> nat {
        self.node_borrowing_registry@.len()
    }

    pub closed spec fn contract_count(&self) -> nat {
        self.smart_contracts@.len()
    }

    /// Everything but the balances, the pending pool and the chain is as in
    /// `other`.
    pub closed spec fn same_registries(&self, other: &Self) -> bool {
        &&& self.memory_registry@ == other.memory_registry@
        &&& self.node_borrowing_registry@ == other.node_borrowing_registry@
        &&& self.smart_contracts@ == other.smart_contracts@
    }

    /// A ledger with the genesis block, the three default contracts, and no
    /// accounts, records, leases or pending transactions.
    pub fn new(now: u64) -> (r: Self)
        ensures
            r.wf(),
            r.chain().len() == 1,
            r.chain()[0].index == 0,
            r.chain()[0].hash == GENESIS_HASH,
            r.pending().len() == 0,
            r.account_count() == 0,
            r.record_count() == 0,
            r.lease_count() == 0,
            r.contract_count() == 3,
            forall|id: Seq<char>| r.balance(id) == 0,
    {
        let genesis = Block {
            index: 0,
            timestamp: now,
            previous_hash: 0,
            hash: GENESIS_HASH,
            transactions: Vec::new(),
            merkle_root: EMPTY_MERKLE,
            nonce: 0,
        };
        let mut blocks: Vec<Block> = Vec::new();
        blocks.push(genesis);
        let mut contracts: Vec<SmartContract> = Vec::new();
        contracts.push(
            SmartContract {
                contract_id: String::from_str("incentive_distributor"),
                contract_type: ContractType::IncentiveDistribution,
                creator: String::from_str("system"),
                code: String::from_str(
                    "if memory_quality > 0.7 { reward = base_reward * quality_multiplier }",
                ),
                is_active: true,
                execution_cost: 10_000,
            },
        );
        contracts.push(
            SmartContract {
                contract_id: String::from_str("memory_validator"),
                contract_type: ContractType::MemoryValidation,
                creator: String::from_str("system"),
                code: String::from_str("validate_memory_capsule_integrity_and_privacy"),
                is_active: true,
                execution_cost: 5_000,
            },
        );
        contracts.push(
            SmartContract {
                contract_id: String::from_str("node_borrowing_manager"),
                contract_type: ContractType::NodeBorrowingPermission,
                creator: String::from_str("system"),
                code: String::from_str("check_borrower_credits_and_reputation_before_approval"),
                is_active: true,
                execution_cost: 20_000,
            },
        );
        let r = BlockchainLedger {
            blocks,
            pending_transactions: Vec::new(),
            smart_contracts: contracts,
            account_balances: Vec::new(),
            memory_registry: Vec::new(),
            node_borrowing_registry: Vec::new(),
        };
        assert forall|id: Seq<char>| r.balance(id) == 0 by {
            lemma_lookup_absent(r.account_balances@, account_key(), id);
        }
        r
    }

    /// Sets the balance of `id` to `v`, creating the account if needed.
    fn set_balance(&mut self, id: &String, v: i64)
        requires
            old(self).wf(),
        ensures
            final(self).wf(),
            final(self).balance(id@) == v,
            forall|k: Seq<char>| k != id@ ==> #[trigger] final(self).balance(k) == old(self).balance(k),
            final(self).chain() == old(self).chain(),
            final(self).pending() == old(self).pending(),
            final(self).same_registries(old(self)),
            final(self).account_count() == old(self).account_count() + if has_key(
                old(self).account_balances@,
                account_key(),
                id@,
            ) {
                0int
            } else {
                1int
            },
    {
        match find_account(&self.account_balances, id) {
            Some(i) => {
                proof {
                    lemma_lookup_update(
                        self.account_balances@,
                        account_key(),
                        i as int,
                        Account { device_id: self.account_balances@[i as int].device_id, balance: v },
                    );
                }
                self.account_balances[i].balance = v;
                assert(self.account_balances@ == old(self).account_balances@.update(
                    i as int,
                    Account { device_id: old(self).account_balances@[i as int].device_id, balance: v },
                ));
                assert(has_key(old(self).account_balances@, account_key(), id@));
            },
            None => {
                let acct = Account { device_id: id.clone(), balance: v };
                proof {
                    lemma_lookup_push(self.account_balances@, account_key(), acct);
                }
                self.account_balances.push(acct);
            },
        }
    }

    /// Adds `delta` to the balance of `id` (held to the range of `i64`),
    /// creating the account at zero if needed.
    fn credit(&mut self, id: &String, delta: i64)
        requires
            old(self).wf(),
        ensures
            final(self).wf(),
            final(self).balance(id@) == sat_add(old(self).balance(id@), delta as int),
            forall|k: Seq<char>| k != id@ ==> #[trigger] final(self).balance(k) == old(self).balance(k),
            final(self).chain() == old(self).chain(),
            final(self).pending() == old(self).pending(),
            final(self).same_registries(old(self)),
            final(self).account_count() >= old(self).account_count(),
    {
        let cur = self.get_account_balance(id);
        let v = sat_add_i64(cur, delta);
        self.set_balance(id, v);
    }

    /// The balance of an account; zero for an account never seen.
    pub fn get_account_balance(&self, device_id: &String) -> (r: i64)
        requires
            self.wf(),
        ensures
            r == self.balance(device_id@),
    {
        match find_account(&self.account_balances, device_id) {
            Some(i) => {
                proof {
                    lemma_lookup_at(self.account_balances@, account_key(), i as int);
                }
                self.account_balances[i].balance
            },
            None => {
                proof {
                    lemma_lookup_absent(self.account_balances@, account_key(), device_id@);
                }
                0
            },
        }
    }

    /// Sets the balance of a device to `initial_credits` (a second
    /// registration resets it) and queues a reward transaction from the
    /// system account.
    pub fn register_device(&mut self, device_id: String, initial_credits: i64, now: u64) -> (r:
        bool)
        requires
            old(self).wf(),
        ensures
            r,
            final(self).wf(),
            final(self).balance(device_id@) == initial_credits,
            forall|k: Seq<char>|
                k != device_id@ ==> #[trigger] final(self).balance(k) == old(self).balance(k),
            final(self).chain() == old(self).chain(),
            final(self).same_registries(old(self)),
            final(self).pending().len() == old(self).pending().len() + 1,
            final(self).pending().drop_last() == old(self).pending(),
            tx_is(
                final(self).pending().last(),
                "system"@,
                device_id@,
                initial_credits as int,
                TransactionType::ContributionReward,
                now,
            ),
    {
        let tx = system_tx(
            &device_id,
            initial_credits,
            TransactionType::ContributionReward,
            now,
            TxMetadata::Empty,
        );
        self.pending_transactions.push(tx);
        assert(self.pending_transactions@.drop_last() == old(self).pending_transactions@);
        self.set_balance(&device_id, initial_credits);
        true
    }
}

} // verus!

verus! {

impl BlockchainLedger {
    /// Scores an uploaded capsule, records its provenance (replacing any
    /// record of the same id), queues the upload reward and credits the
    /// uploader with it. A malformed capsule changes nothing and yields
    /// `None`; otherwise the result is the capsule's id.
    pub fn register_memory_capsule(&mut self, capsule: &MemoryCapsule, uploader: String, now: u64) -> (r:
        Option<String>)
        requires
            old(self).wf(),
        ensures
            final(self).wf(),
            !capsule.in_range() ==> r is None && *final(self) == *old(self),
            capsule.in_range() ==> {
                let q = validation_score(
                    capsule.novelty_score as int,
                    capsule.importance_score as int,
                    capsule.semantic_tags@.len() as int,
                );
                let inc = upload_incentive(q, capsule.novelty_score as int);
                &&& r matches Some(id) && id@ == capsule.capsule_id@
                &&& final(self).record(capsule.capsule_id@) matches Some(rec) && {
                    &&& rec.capsule_id@ == capsule.capsule_id@
                    &&& rec.uploader@ == uploader@
                    &&& rec.timestamp == capsule.timestamp
                    &&& rec.hash == capsule_digest(*capsule)
                    &&& rec.privacy_level == capsule.privacy_level
                    &&& rec.incentive_earned == inc
                    &&& rec.quality_score == q
                    &&& rec.usage_count == 0
                    &&& rec.access_permissions@.len() == 1
                    &&& rec.access_permissions@[0]@ == uploader@
                }
                &&& forall|k: Seq<char>|
                    k != capsule.capsule_id@ ==> #[trigger] final(self).record(k) == old(self).record(k)
                &&& final(self).balance(uploader@) == sat_add(old(self).balance(uploader@), inc)
                &&& forall|k: Seq<char>|
                    k != uploader@ ==> #[trigger] final(self).balance(k) == old(self).balance(k)
                &&& final(self).pending().len() == old(self).pending().len() + 1
                &&& final(self).pending().drop_last() == old(self).pending()
                &&& tx_is(
                    final(self).pending().last(),
                    "system"@,
                    uploader@,
                    inc,
                    TransactionType::MemoryUpload,
                    now,
                )
                &&& final(self).pending().last().metadata matches TxMetadata::CapsuleUpload {
                    capsule_id,
                    quality_score,
                } && capsule_id@ == capsule.capsule_id@ && quality_score == q
                &&& final(self).chain() == old(self).chain()
            },
    {
        if !capsule.is_well_formed() {
            return None;
        }
        let quality = memory_validation_score(capsule);
        assert(0 <= quality * capsule.novelty_score <= SCALE * SCALE) by (nonlinear_arith)
            requires
                0 <= quality <= SCALE,
                0 <= capsule.novelty_score <= SCALE,
        ;
        let incentive: i64 = BASE_REWARD * quality / SCALE * capsule.novelty_score / SCALE;
        let mut perms: Vec<String> = Vec::new();
        perms.push(uploader.clone());
        let rec = MemoryRecord {
            capsule_id: capsule.capsule_id.clone(),
            uploader: uploader.clone(),
            timestamp: capsule.timestamp,
            hash: capsule_hash(capsule),
            privacy_level: capsule.privacy_level,
            incentive_earned: incentive,
            access_permissions: perms,
            quality_score: quality,
            usage_count: 0,
        };
        match find_record(&self.memory_registry, &capsule.capsule_id) {
            Some(i) => {
                proof {
                    lemma_lookup_update(self.memory_registry@, record_key(), i as int, rec);
                }
                self.memory_registry.set(i, rec);
            },
            None => {
                proof {
                    lemma_lookup_push(self.memory_registry@, record_key(), rec);
                }
                self.memory_registry.push(rec);
            },
        }
        let tx = system_tx(
            &uploader,
            incentive,
            TransactionType::MemoryUpload,
            now,
            TxMetadata::CapsuleUpload { capsule_id: capsule.capsule_id.clone(), quality_score: quality },
        );
        self.pending_transactions.push(tx);
        assert(self.pending_transactions@.drop_last() == old(self).pending_transactions@);
        self.credit(&uploader, incentive);
        Some(capsule.capsule_id.clone())
    }

    /// Leases `node_id` of `node_owner` to `borrower` for `duration`
    /// (millionths of a time unit) at half a credit per unit. Refused with
    /// `InsufficientCredits` when the borrower holds less than the cost, and
    /// with `PermissionDenied` when it holds no more than one credit; a
    /// refusal changes nothing. On approval the lease is recorded, the
    /// payment queued, the borrower debited and the owner credited.
    pub fn request_node_borrowing(
        &mut self,
        borrower: String,
        node_owner: String,
        node_id: String,
        duration: u64,
        now: u64,
    ) -> (r: Result<u64, LeaseError>)
        requires
            old(self).wf(),
        ensures
            final(self).wf(),
            ({
                let bal = old(self).balance(borrower@);
                let cost = lease_cost(duration as int);
                &&& (bal < cost) <==> (r == Err::<u64, LeaseError>(LeaseError::InsufficientCredits))
                &&& (bal >= cost && bal <= SCALE) <==> (r == Err::<u64, LeaseError>(
                    LeaseError::PermissionDenied,
                ))
                &&& r is Err ==> *final(self) == *old(self)
                &&& r matches Ok(id) ==> {
                    &&& old(self).lease(id) is None
                    &&& final(self).lease_count() == old(self).lease_count() + 1
                    &&& final(self).lease(id) matches Some(l) && {
                        &&& l.borrowing_id == id
                        &&& l.borrower@ == borrower@
                        &&& l.node_owner@ == node_owner@
                        &&& l.node_id@ == node_id@
                        &&& l.start_time == now
                        &&& l.duration == duration
                        &&& l.cost == cost
                        &&& l.status == BorrowingStatus::Approved
                        &&& l.performance_metrics@.len() == 0
                    }
                    &&& forall|k: u64| k != id ==> #[trigger] final(self).lease(k) == old(self).lease(k)
                    &&& borrower@ != node_owner@ ==> {
                        &&& final(self).balance(borrower@) == bal - cost
                        &&& final(self).balance(node_owner@) == sat_add(
                            old(self).balance(node_owner@),
                            cost,
                        )
                    }
                    &&& borrower@ == node_owner@ ==> final(self).balance(borrower@) == bal
                    &&& forall|k: Seq<char>|
                        k != borrower@ && k != node_owner@ ==> #[trigger] final(self).balance(k)
                            == old(self).balance(k)
                    &&& final(self).pending().len() == old(self).pending().len() + 1
                    &&& final(self).pending().drop_last() == old(self).pending()
                    &&& tx_is(
                        final(self).pending().last(),
                        borrower@,
                        node_owner@,
                        cost,
                        TransactionType::NodeBorrowing,
                        now,
                    )
                    &&& final(self).pending().last().metadata matches TxMetadata::Lease {
                        borrowing_id,
                        node_id: n,
                        duration: d,
                    } && borrowing_id == id && n@ == node_id@ && d == duration
                    &&& final(self).chain() == old(self).chain()
                }
            }),
    {
        let bal = self.get_account_balance(&borrower);
        let cost: i64 = (duration * LEASE_COST_NUM / LEASE_COST_DEN) as i64;
        if bal < cost {
            return Err(LeaseError::InsufficientCredits);
        }
        if !self.borrowing_permission(&borrower) {
            return Err(LeaseError::PermissionDenied);
        }
        let id = self.node_borrowing_registry.len() as u64;
        let lease = BorrowingRecord {
            borrowing_id: id,
            borrower: borrower.clone(),
            node_owner: node_owner.clone(),
            node_id: node_id.clone(),
            start_time: now,
            duration,
            cost,
            status: BorrowingStatus::Approved,
            performance_metrics: Vec::new(),
        };
        proof {
            assert forall|j: int| 0 <= j < self.node_borrowing_registry@.len() implies (lease_key())(
                #[trigger] self.node_borrowing_registry@[j],
            ) != id by {
                assert(self.node_borrowing_registry@[j].borrowing_id == j);
            }
            lemma_lookup_absent(self.node_borrowing_registry@, lease_key(), id);
            lemma_lookup_push(self.node_borrowing_registry@, lease_key(), lease);
        }
        self.node_borrowing_registry.push(lease);
        let tx = Transaction {
            tx_id: crate::entropy::random_id(),
            from: borrower.clone(),
            to: node_owner.clone(),
            amount: cost,
            tx_type: TransactionType::NodeBorrowing,
            timestamp: now,
            metadata: TxMetadata::Lease { borrowing_id: id, node_id, duration },
        };
        self.pending_transactions.push(tx);
        assert(self.pending_transactions@.drop_last() == old(self).pending_transactions@);
        self.set_balance(&borrower, bal - cost);
        self.credit(&node_owner, cost);
        Ok(id)
    }

    /// The permission contract for leases: the borrower must hold more than
    /// one credit.
    fn borrowing_permission(&self, borrower: &String) -> (r: bool)
        requires
            self.wf(),
        ensures
            r == (self.balance(borrower@) > SCALE),
    {
        self.get_account_balance(borrower) > SCALE
    }
}

} // verus!

verus! {

pub open spec fn sum_tx_counts(blocks: Seq<Block>) -> int
    decreases blocks.len(),
{
    if blocks.len() == 0 {
        0
    } else {
        sum_tx_counts(blocks.drop_last()) + blocks.last().transactions@.len()
    }
}

impl BlockchainLedger {
    /// Marks a lease completed with the supplied performance metrics. When
    /// their mean exceeds 0.8 the borrower is credited a tenth of the cost
    /// through a system transaction. An unknown lease id changes nothing and
    /// yields `false`.
    pub fn complete_node_borrowing(
        &mut self,
        borrowing_id: u64,
        performance_metrics: Vec<(String, i64)>,
        now: u64,
    ) -> (r: bool)
        requires
            old(self).wf(),
        ensures
            final(self).wf(),
            r == old(self).lease(borrowing_id) is Some,
            !r ==> *final(self) == *old(self),
            r ==> {
                let l = old(self).lease(borrowing_id)->0;
                let bonus = div_trunc(l.cost as int, 10);
                &&& final(self).lease(borrowing_id) matches Some(l2) && {
                    &&& l2.status == BorrowingStatus::Completed
                    &&& l2.performance_metrics@ == performance_metrics@
                    &&& l2.borrower == l.borrower
                    &&& l2.node_owner == l.node_owner
                    &&& l2.cost == l.cost
                }
                &&& forall|k: u64|
                    k != borrowing_id ==> #[trigger] final(self).lease(k) == old(self).lease(k)
                &&& final(self).chain() == old(self).chain()
                &&& performs_well(performance_metrics@) ==> {
                    &&& final(self).balance(l.borrower@) == sat_add(
                        old(self).balance(l.borrower@),
                        bonus,
                    )
                    &&& forall|k: Seq<char>|
                        k != l.borrower@ ==> #[trigger] final(self).balance(k) == old(self).balance(k)
                    &&& final(self).pending().len() == old(self).pending().len() + 1
                    &&& final(self).pending().drop_last() == old(self).pending()
                    &&& tx_is(
                        final(self).pending().last(),
                        "system"@,
                        l.borrower@,
                        bonus,
                        TransactionType::ContributionReward,
                        now,
                    )
                }
                &&& !performs_well(performance_metrics@) ==> {
                    &&& forall|k: Seq<char>| #[trigger] final(self).balance(k) == old(self).balance(k)
                    &&& final(self).pending() == old(self).pending()
                }
            },
    {
        let i = match find_lease(&self.node_borrowing_registry, borrowing_id) {
            Some(i) => i,
            None => {
                proof {
                    lemma_lookup_absent(self.node_borrowing_registry@, lease_key(), borrowing_id);
                }
                return false;
            },
        };
        proof {
            lemma_lookup_at(self.node_borrowing_registry@, lease_key(), i as int);
        }
        let sum = sum_metrics(&performance_metrics);
        let n = performance_metrics.len();
        let good = n > 0 && sum > 800_000i128 * (n as i128);
        let old_lease = &self.node_borrowing_registry[i];
        let borrower = old_lease.borrower.clone();
        let cost = old_lease.cost;
        let updated = BorrowingRecord {
            borrowing_id: old_lease.borrowing_id,
            borrower: old_lease.borrower.clone(),
            node_owner: old_lease.node_owner.clone(),
            node_id: old_lease.node_id.clone(),
            start_time: old_lease.start_time,
            duration: old_lease.duration,
            cost,
            status: BorrowingStatus::Completed,
            performance_metrics,
        };
        proof {
            lemma_lookup_update(self.node_borrowing_registry@, lease_key(), i as int, updated);
        }
        self.node_borrowing_registry.set(i, updated);
        if good {
            let bonus = cost / 10;
            let tx = system_tx(
                &borrower,
                bonus,
                TransactionType::ContributionReward,
                now,
                TxMetadata::Empty,
            );
            self.pending_transactions.push(tx);
            assert(self.pending_transactions@.drop_last() == old(self).pending_transactions@);
            self.credit(&borrower, bonus);
        }
        true
    }

    /// Seals the pending pool into a new block linked to the last one and
    /// empties the pool; the result is the new block's hash. With an empty
    /// pool nothing happens and the result is `None`.
    pub fn mine_block(&mut self, now: u64) -> (r: Option<u64>)
        requires
            old(self).wf(),
        ensures
            final(self).wf(),
            old(self).pending().len() == 0 ==> r is None && *final(self) == *old(self),
            old(self).pending().len() > 0 ==> {
                let prev = old(self).chain().last();
                let b = final(self).chain().last();
                &&& final(self).chain().len() == old(self).chain().len() + 1
                &&& final(self).chain().drop_last() == old(self).chain()
                &&& b.index == prev.index + 1
                &&& b.previous_hash == prev.hash
                &&& b.hash == block_hash_of(b.index, old(self).pending())
                &&& b.merkle_root == merkle_of(old(self).pending())
                &&& b.transactions@ == old(self).pending()
                &&& b.timestamp == now
                &&& r == Some(b.hash)
                &&& final(self).pending().len() == 0
                &&& forall|k: Seq<char>| #[trigger] final(self).balance(k) == old(self).balance(k)
                &&& final(self).same_registries(old(self))
                &&& final(self).account_count() == old(self).account_count()
            },
    {
        if self.pending_transactions.len() == 0 {
            return None;
        }
        let last = self.blocks.len() - 1;
        let prev_index = self.blocks[last].index;
        let prev_hash = self.blocks[last].hash;
        let index = prev_index + 1;
        let mut txs: Vec<Transaction> = Vec::new();
        std::mem::swap(&mut txs, &mut self.pending_transactions);
        let hash = calculate_block_hash(index, &txs);
        let merkle_root = calculate_merkle_root(&txs);
        let block = Block {
            index,
            timestamp: now,
            previous_hash: prev_hash,
            hash,
            transactions: txs,
            merkle_root,
            nonce: crate::entropy::random_seal(),
        };
        self.blocks.push(block);
        assert(self.blocks@.drop_last() == old(self).blocks@);
        Some(hash)
    }

    /// Whether every block after the first names its predecessor's hash and
    /// carries the next index.
    pub fn validate_chain(&self) -> (r: bool)
        ensures
            r == chain_linked(self.chain()),
    {
        validate_blocks(&self.blocks)
    }

    pub fn blocks(&self) -> (r: &Vec<Block>)
        ensures
            r@ == self.chain(),
    {
        &self.blocks
    }

    pub fn pending_transactions(&self) -> (r: &Vec<Transaction>)
        ensures
            r@ == self.pending(),
    {
        &self.pending_transactions
    }

    /// The provenance record of a capsule, if one was registered.
    pub fn get_memory_record(&self, capsule_id: &String) -> (r: Option<&MemoryRecord>)
        requires
            self.wf(),
        ensures
            match r {
                Some(rec) => self.record(capsule_id@) == Some(*rec),
                None => self.record(capsule_id@) is None,
            },
    {
        match find_record(&self.memory_registry, capsule_id) {
            Some(i) => {
                proof {
                    lemma_lookup_at(self.memory_registry@, record_key(), i as int);
                }
                Some(&self.memory_registry[i])
            },
            None => {
                proof {
                    lemma_lookup_absent(self.memory_registry@, record_key(), capsule_id@);
                }
                None
            },
        }
    }

    /// The record of a lease, if one was approved under `borrowing_id`.
    pub fn get_borrowing_record(&self, borrowing_id: u64) -> (r: Option<&BorrowingRecord>)
        requires
            self.wf(),
        ensures
            match r {
                Some(l) => self.lease(borrowing_id) == Some(*l),
                None => self.lease(borrowing_id) is None,
            },
    {
        match find_lease(&self.node_borrowing_registry, borrowing_id) {
            Some(i) => {
                proof {
                    lemma_lookup_at(self.node_borrowing_registry@, lease_key(), i as int);
                }
                Some(&self.node_borrowing_registry[i])
            },
            None => {
                proof {
                    lemma_lookup_absent(self.node_borrowing_registry@, lease_key(), borrowing_id);
                }
                None
            },
        }
    }

    /// Counts of blocks, mined and pending transactions, accounts, capsule
    /// records, leases and contracts. The mined transaction count saturates
    /// at `usize::MAX`.
    pub fn get_blockchain_stats(&self) -> (r: BlockchainStats)
        ensures
            r.total_blocks == self.chain().len(),
            r.total_transactions == min(sum_tx_counts(self.chain()), usize::MAX as int),
            r.pending_transactions == self.pending().len(),
            r.total_accounts == self.account_count(),
            r.total_memory_capsules == self.record_count(),
            r.total_borrowing_records == self.lease_count(),
            r.total_smart_contracts == self.contract_count(),
    {
        let mut total: usize = 0;
        let mut i: usize = 0;
        while i < self.blocks.len()
            invariant
                0 <= i <= self.blocks@.len(),
                total == min(sum_tx_counts(self.blocks@.subrange(0, i as int)), usize::MAX as int),
            decreases self.blocks@.len() - i,
        {
            let ghost sub = self.blocks@.subrange(0, i as int + 1);
            assert(sub.drop_last() == self.blocks@.subrange(0, i as int));
            assert(sum_tx_counts(self.blocks@.subrange(0, i as int)) >= 0) by {
                lemma_sum_tx_counts_nonneg(self.blocks@.subrange(0, i as int));
            }
            let n = self.blocks[i].transactions.len();
            if total > usize::MAX - n {
                total = usize::MAX;
            } else {
                total = total + n;
            }
            i += 1;
        }
        assert(self.blocks@.subrange(0, self.blocks@.len() as int) == self.blocks@);
        BlockchainStats {
            total_blocks: self.blocks.len(),
            total_transactions: total,
            pending_transactions: self.pending_transactions.len(),
            total_accounts: self.account_balances.len(),
            total_memory_capsules: self.memory_registry.len(),
            total_borrowing_records: self.node_borrowing_registry.len(),
            total_smart_contracts: self.smart_contracts.len(),
        }
    }
}

proof fn lemma_sum_tx_counts_nonneg(blocks: Seq<Block>)
    ensures
        sum_tx_counts(blocks) >= 0,
    decreases blocks.len(),
{
    if blocks.len() > 0 {
        lemma_sum_tx_counts_nonneg(blocks.drop_last());
    }
}

/// Every ledger that the public operations produce validates: `new`
/// establishes the ledger invariant, every mutating operation (device
/// registration, capsule registration, lease request and completion, and
/// mining) keeps it, and the invariant includes the linkage that
/// `validate_chain` checks.
pub proof fn lemma_reachable_ledger_validates(ledger: &BlockchainLedger)
    requires
        ledger.wf(),
    ensures
        chain_linked(ledger.chain()),
{
}

} // verus!
