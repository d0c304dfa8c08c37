//! Blocks, the chain, pending transactions, proof of work and validation.

use std::time::{SystemTime, UNIX_EPOCH};
use vstd::prelude::*;
use vstd::string::StringExecFns;
use vstd::utf8::encode_utf8;

use crate::crypto::{sha256, sha256_digest};
use crate::encoding::{decimal_digits, hex_digit, hex_lower, is_blank, is_unicode_whitespace, is_zero_text, push_decimal, push_text, to_hex_lower, trims_to_empty};
use crate::transaction::{is_coinbase, push_transactions_json, transactions_json, Transaction};

verus! {

/// Amount of the mining reward.
pub const COINBASE_AMOUNT: u128 = 1;

/// Chain identifier written into reward transactions.
pub const CHAIN_ID: u32 = 1;

/// A block: its position, creation time, free data, proof-of-work nonce,
/// the hash of the block before it and the transactions it records.
#[derive(Debug)]
pub struct Block {
    pub index: u32,
    pub timestamp: u64,
    pub data: String,
    pub proof: u64,
    pub previous_hash: String,
    pub transactions: Vec<Transaction>,
}

/// The chain of blocks (the first is the genesis block) and the
/// transactions waiting for the next block.
#[derive(Debug)]
pub struct Blockchain {
    pub chain: Vec<Block>,
    pub transactions: Vec<Transaction>,
}

/// The bytes that are hashed for a block with these fields: the decimal
/// index, the decimal timestamp, the data, the decimal proof, the previous
/// hash and the JSON array of the transactions, concatenated.
pub open spec fn hash_payload(
    index: u32,
    timestamp: u64,
    data: Seq<char>,
    proof: u64,
    previous_hash: Seq<char>,
    transactions: Seq<Transaction>,
) -> Seq<u8> {
    decimal_digits(index as nat) + decimal_digits(timestamp as nat) + encode_utf8(data)
        + decimal_digits(proof as nat) + encode_utf8(previous_hash) + transactions_json(transactions)
}

/// The hash of a block with these fields: lower-case hex of the SHA-256
/// digest of its payload.
pub open spec fn fields_hash(
    index: u32,
    timestamp: u64,
    data: Seq<char>,
    proof: u64,
    previous_hash: Seq<char>,
    transactions: Seq<Transaction>,
) -> Seq<char> {
    hex_lower(sha256_digest(hash_payload(index, timestamp, data, proof, previous_hash, transactions)))
}

/// The hash of a block.
pub open spec fn block_hash(b: Block) -> Seq<char> {
    fields_hash(b.index, b.timestamp, b.data@, b.proof, b.previous_hash@, b.transactions@)
}

/// The proof-of-work target: the hash starts with "0000".
pub open spec fn meets_difficulty(h: Seq<char>) -> bool {
    h.len() >= 4 && h[0] == '0' && h[1] == '0' && h[2] == '0' && h[3] == '0'
}

/// The number of coinbase transactions in `ts`.
pub open spec fn coinbase_count(ts: Seq<Transaction>) -> nat
    decreases ts.len(),
{
    if ts.len() == 0 {
        0
    } else {
        coinbase_count(ts.drop_last()) + if is_coinbase(ts.last()) {
            1nat
        } else {
            0nat
        }
    }
}

/// A block's rewards are in order: exactly one coinbase transaction, paying
/// the reward amount.
pub open spec fn rewards_valid(ts: Seq<Transaction>) -> bool {
    &&& coinbase_count(ts) == 1
    &&& forall|i: int| 0 <= i < ts.len() && is_coinbase(#[trigger] ts[i]) ==> ts[i].amount == 1
}

/// `cur` may follow `prev` in a chain: it records the hash of `prev`, its own
/// hash meets the difficulty target, and its rewards are in order.
pub open spec fn link_valid(prev: Block, cur: Block) -> bool {
    &&& cur.previous_hash@ == block_hash(prev)
    &&& meets_difficulty(block_hash(cur))
    &&& rewards_valid(cur.transactions@)
}

/// Every block after the first may follow the block before it; the first
/// (genesis) block is taken as it is.
pub open spec fn chain_valid(chain: Seq<Block>) -> bool {
    forall|i: int| 1 <= i < chain.len() ==> link_valid(#[trigger] chain[i - 1], chain[i])
}

/// No transaction in `ts` is a coinbase.
pub open spec fn no_coinbase(ts: Seq<Transaction>) -> bool {
    forall|i: int| 0 <= i < ts.len() ==> !is_coinbase(#[trigger] ts[i])
}

/// A hex hash meets the target exactly when the first two digest bytes are zero.
pub proof fn lemma_difficulty_digest(d: Seq<u8>)
    requires
        d.len() >= 2,
    ensures
        meets_difficulty(hex_lower(d)) <==> (d[0] == 0 && d[1] == 0),
{
    let h = hex_lower(d);
    assert(h.len() == 2 * d.len());
    assert(h[0] == hex_digit(d[0] as int / 16));
    assert(h[1] == hex_digit(d[0] as int % 16));
    assert(h[2] == hex_digit(d[1] as int / 16));
    assert(h[3] == hex_digit(d[1] as int % 16));
    assert forall|n: int| 0 <= n < 16 implies (hex_digit(n) == '0' <==> n == 0) by {
        if n < 10 {
            assert(((n + 48) as char) as u32 == n + 48);
        } else {
            assert(((n + 87) as char) as u32 == n + 87);
        }
    }
}

} // verus!

verus! {

/// A copy of a list of transactions.
fn clone_transactions(ts: &Vec<Transaction>) -> (r: Vec<Transaction>)
    ensures
        r@ == ts@,
{
    let mut r: Vec<Transaction> = Vec::new();
    let n = ts.len();
    let mut i: usize = 0;
    while i < n
        invariant
            n == ts@.len(),
            i <= n,
            r@ =~= ts@.take(i as int),
        decreases n - i,
    {
        r.push(ts[i].clone());
        i = i + 1;
    }
    proof {
        assert(ts@.take(n as int) =~= ts@);
    }
    r
}

impl Clone for Block {
    fn clone(&self) -> (r: Self)
        ensures
            r.index == self.index,
            r.timestamp == self.timestamp,
            r.data == self.data,
            r.proof == self.proof,
            r.previous_hash == self.previous_hash,
            r.transactions@ == self.transactions@,
    {
        Block {
            index: self.index,
            timestamp: self.timestamp,
            data: self.data.clone(),
            proof: self.proof,
            previous_hash: self.previous_hash.clone(),
            transactions: clone_transactions(&self.transactions),
        }
    }
}

/// Two blocks with the same fields, transactions compared as sequences.
pub open spec fn same_block(a: Block, b: Block) -> bool {
    &&& a.index == b.index
    &&& a.timestamp == b.timestamp
    &&& a.data@ == b.data@
    &&& a.proof == b.proof
    &&& a.previous_hash@ == b.previous_hash@
    &&& a.transactions@ == b.transactions@
}

/// Two sequences of blocks that agree block by block.
pub open spec fn same_blocks(a: Seq<Block>, b: Seq<Block>) -> bool {
    &&& a.len() == b.len()
    &&& forall|i: int| 0 <= i < a.len() ==> same_block(#[trigger] a[i], b[i])
}

impl Clone for Blockchain {
    fn clone(&self) -> (r: Self)
        ensures
            same_blocks(r.chain@, self.chain@),
            r.transactions@ == self.transactions@,
    {
        let mut chain: Vec<Block> = Vec::new();
        let n = self.chain.len();
        let mut i: usize = 0;
        while i < n
            invariant
                n == self.chain@.len(),
                i <= n,
                chain@.len() == i,
                forall|j: int| 0 <= j < i ==> same_block(#[trigger] chain@[j], self.chain@[j]),
            decreases n - i,
        {
            chain.push(self.chain[i].clone());
            i = i + 1;
        }
        Blockchain { chain, transactions: clone_transactions(&self.transactions) }
    }
}

/// The SHA-256 digest of the payload of a block with these fields.
fn digest_from_fields(
    index: u32,
    timestamp: u64,
    data: &str,
    proof: u64,
    previous_hash: &str,
    transactions: &Vec<Transaction>,
) -> (d: Vec<u8>)
    ensures
        d@ == sha256_digest(hash_payload(index, timestamp, data@, proof, previous_hash@, transactions@)),
        d@.len() == 32,
{
    let mut payload: Vec<u8> = Vec::new();
    push_decimal(index as u128, &mut payload);
    push_decimal(timestamp as u128, &mut payload);
    push_text(data, &mut payload);
    push_decimal(proof as u128, &mut payload);
    push_text(previous_hash, &mut payload);
    push_transactions_json(transactions, &mut payload);
    proof {
        assert(payload@ =~= hash_payload(index, timestamp, data@, proof, previous_hash@, transactions@));
    }
    sha256(payload.as_slice())
}

/// The digest of a block's payload.
fn block_digest(block: &Block) -> (d: Vec<u8>)
    ensures
        hex_lower(d@) == block_hash(*block),
        d@.len() == 32,
{
    digest_from_fields(
        block.index,
        block.timestamp,
        block.data.as_str(),
        block.proof,
        block.previous_hash.as_str(),
        &block.transactions,
    )
}

/// Whether the digest of a block meets the difficulty target.
fn digest_meets_difficulty(d: &Vec<u8>) -> (r: bool)
    requires
        d@.len() == 32,
    ensures
        r == meets_difficulty(hex_lower(d@)),
{
    proof {
        lemma_difficulty_digest(d@);
    }
    d[0] == 0 && d[1] == 0
}

/// The hash of a block with these fields: lower-case hex of the SHA-256
/// digest of their payload, 64 digits, for every input.
pub fn hash_from_fields(
    index: u32,
    timestamp: u64,
    data: &str,
    proof: u64,
    previous_hash: &str,
    transactions: &Vec<Transaction>,
) -> (h: String)
    ensures
        h@ == fields_hash(index, timestamp, data@, proof, previous_hash@, transactions@),
        h@.len() == 64,
{
    let d = digest_from_fields(index, timestamp, data, proof, previous_hash, transactions);
    to_hex_lower(d.as_slice())
}

/// Counts the coinbase transactions of `ts` and checks that each pays the reward.
fn check_rewards(ts: &Vec<Transaction>) -> (r: bool)
    ensures
        r == rewards_valid(ts@),
{
    let n = ts.len();
    let mut count: usize = 0;
    let mut amounts_ok = true;
    let mut i: usize = 0;
    while i < n
        invariant
            n == ts@.len(),
            i <= n,
            count == coinbase_count(ts@.take(i as int)),
            count <= i,
            amounts_ok == (forall|j: int| 0 <= j < i && is_coinbase(#[trigger] ts@[j]) ==> ts@[j].amount == 1),
        decreases n - i,
    {
        let coinbase = is_zero_text(ts[i].sender.as_str());
        proof {
            assert(ts@.take(i as int + 1).drop_last() =~= ts@.take(i as int));
            assert(ts@.take(i as int + 1).last() == ts@[i as int]);
        }
        if coinbase {
            count = count + 1;
            if ts[i].amount != COINBASE_AMOUNT {
                amounts_ok = false;
            }
        }
        i = i + 1;
    }
    proof {
        assert(ts@.take(n as int) =~= ts@);
    }
    count == 1 && amounts_ok
}

impl Blockchain {
    /// The number of blocks in the chain.
    pub fn len(&self) -> (n: usize)
        ensures
            n == self.chain@.len(),
    {
        self.chain.len()
    }

    /// The last block of the chain.
    pub fn get_previous_block(&self) -> (b: &Block)
        requires
            self.chain@.len() > 0,
        ensures
            *b == self.chain@.last(),
    {
        let n = self.chain.len();
        &self.chain[n - 1]
    }

    /// The hash of `block`: lower-case hex of the SHA-256 digest of its payload.
    pub fn hash(block: &Block) -> (h: String)
        ensures
            h@ == block_hash(*block),
            h@.len() == 64,
    {
        hash_from_fields(
            block.index,
            block.timestamp,
            block.data.as_str(),
            block.proof,
            block.previous_hash.as_str(),
            &block.transactions,
        )
    }

    /// Whether every block after the genesis block records the hash of the
    /// block before it, has a hash that starts with "0000", and holds exactly
    /// one coinbase transaction paying the reward.
    pub fn is_chain_valid(&self) -> (r: bool)
        ensures
            r == chain_valid(self.chain@),
    {
        let n = self.chain.len();
        if n <= 1 {
            return true;
        }
        let mut i: usize = 1;
        while i < n
            invariant
                n == self.chain@.len(),
                1 <= i <= n,
                forall|k: int| 1 <= k < i ==> link_valid(#[trigger] self.chain@[k - 1], self.chain@[k]),
            decreases n - i,
        {
            let previous_block = &self.chain[i - 1];
            let current_block = &self.chain[i];
            let expected = Blockchain::hash(previous_block);
            if !(current_block.previous_hash == expected) {
                proof {
                    assert(!link_valid(self.chain@[i - 1], self.chain@[i as int]));
                }
                return false;
            }
            let digest = block_digest(current_block);
            if !digest_meets_difficulty(&digest) {
                proof {
                    assert(!link_valid(self.chain@[i - 1], self.chain@[i as int]));
                }
                return false;
            }
            if !check_rewards(&current_block.transactions) {
                proof {
                    assert(!link_valid(self.chain@[i - 1], self.chain@[i as int]));
                }
                return false;
            }
            i = i + 1;
        }
        true
    }
}

} // verus!

verus! {

/// Seconds since the Unix epoch by the system clock
/// (`SystemTime::now().duration_since(UNIX_EPOCH)`, then `as_secs`), or
/// `None` when the clock reads a time before the epoch. Nothing is promised
/// of the value: it is whatever the clock reads.
#[verifier::external_body]
fn unix_time_secs() -> Option<u64> {
    SystemTime::now().duration_since(UNIX_EPOCH).ok().map(|d| d.as_secs())
}

/// The system clock read a time before the Unix epoch, so no timestamp
/// could be taken.
#[derive(PartialEq, Eq, Structural, Debug, Clone, Copy)]
pub struct ClockBeforeEpoch;

/// The index that the next block after `chain` receives.
pub open spec fn next_index(chain: Seq<Block>) -> u32 {
    ((chain.len() as u32) + 1) as u32
}

/// Whether proof `p` makes the block after `chain`, created at `timestamp`
/// with the transactions `txs`, meet the difficulty target.
pub open spec fn pow_meets(chain: Seq<Block>, txs: Seq<Transaction>, timestamp: u64, p: u64) -> bool {
    meets_difficulty(
        fields_hash(next_index(chain), timestamp, Seq::<char>::empty(), p, block_hash(chain.last()), txs),
    )
}

/// `b` is the block that proof of work finds after `chain` at `timestamp`
/// for the transactions `txs`: empty data, the hash of the last block, and
/// the smallest proof that meets the target.
pub open spec fn is_mined_block(chain: Seq<Block>, txs: Seq<Transaction>, timestamp: u64, b: Block) -> bool {
    &&& b.index == next_index(chain)
    &&& b.timestamp == timestamp
    &&& b.data@ == Seq::<char>::empty()
    &&& b.previous_hash@ == block_hash(chain.last())
    &&& b.transactions@ == txs
    &&& pow_meets(chain, txs, timestamp, b.proof)
    &&& forall|p: u64| p < b.proof ==> !#[trigger] pow_meets(chain, txs, timestamp, p)
}

/// The outcome of proof of work at `timestamp`: the mined block, or `None`
/// exactly when no proof in the range of `u64` meets the target.
pub open spec fn pow_outcome(chain: Seq<Block>, txs: Seq<Transaction>, timestamp: u64, r: Option<Block>) -> bool {
    match r {
        Some(b) => is_mined_block(chain, txs, timestamp, b),
        None => forall|p: u64| !#[trigger] pow_meets(chain, txs, timestamp, p),
    }
}

/// `t` is the reward that mining pays to `address`.
pub open spec fn is_reward(t: Transaction, address: Seq<char>) -> bool {
    &&& t.sender@ == seq!['0']
    &&& t.recipient@ == address
    &&& t.amount == 1
    &&& t.nonce == 0
    &&& t.chain_id == 1
    &&& t.public_key is None
    &&& t.signature is None
}

/// What mining at `timestamp` for `address` does to a blockchain: on
/// success a new block holding the pending transactions and the reward is
/// appended and nothing is left pending; when no proof in the whole range
/// of `u64` meets the target, nothing changes.
pub open spec fn mine_step(old: Blockchain, address: Seq<char>, timestamp: u64, new: Blockchain, mined: bool) -> bool {
    if mined {
        let b = new.chain@.last();
        &&& new.chain@.len() == old.chain@.len() + 1
        &&& new.chain@.drop_last() == old.chain@
        &&& b.transactions@.len() == old.transactions@.len() + 1
        &&& b.transactions@.drop_last() == old.transactions@
        &&& is_reward(b.transactions@.last(), address)
        &&& is_mined_block(old.chain@, b.transactions@, timestamp, b)
        &&& new.transactions@.len() == 0
    } else {
        &&& new.chain@ == old.chain@
        &&& new.transactions@ == old.transactions@
        &&& exists|c: Transaction|
            is_reward(c, address) && forall|p: u64|
                !#[trigger] pow_meets(old.chain@, old.transactions@.push(c), timestamp, p)
    }
}

/// `chain` holds only a genesis block made at `timestamp` and nothing is pending.
pub open spec fn is_genesis_chain(chain: Blockchain, timestamp: u64) -> bool {
    let g = chain.chain@[0];
    &&& chain.chain@.len() == 1
    &&& chain.transactions@.len() == 0
    &&& g.index == 1
    &&& g.timestamp == timestamp
    &&& g.data@ == Seq::<char>::empty()
    &&& g.proof == 0
    &&& g.previous_hash@ == seq!['0']
    &&& g.transactions@.len() == 0
}

/// The verdict on a transaction offered to the pending pool.
#[derive(PartialEq, Eq, Structural, Debug, Clone, Copy)]
pub enum TxCheck {
    /// The transaction joins the pending pool.
    Accepted,
    /// The sender or the recipient is empty once white space is trimmed.
    EmptyParty,
    /// The amount is zero.
    ZeroAmount,
    /// The sender is the coinbase sender; rewards are only added by mining.
    CoinbaseSender,
}

/// The verdict on `t`, the checks taken in this order.
pub open spec fn transaction_check(t: Transaction) -> TxCheck {
    if is_blank(t.sender@) || is_blank(t.recipient@) {
        TxCheck::EmptyParty
    } else if t.amount == 0 {
        TxCheck::ZeroAmount
    } else if is_coinbase(t) {
        TxCheck::CoinbaseSender
    } else {
        TxCheck::Accepted
    }
}

/// Checks a transaction before it joins the pending pool.
pub fn check_transaction(t: &Transaction) -> (r: TxCheck)
    ensures
        r == transaction_check(*t),
{
    if trims_to_empty(t.sender.as_str()) || trims_to_empty(t.recipient.as_str()) {
        TxCheck::EmptyParty
    } else if t.amount == 0 {
        TxCheck::ZeroAmount
    } else if is_zero_text(t.sender.as_str()) {
        TxCheck::CoinbaseSender
    } else {
        TxCheck::Accepted
    }
}

impl Blockchain {
    /// A chain holding only a genesis block created at `timestamp`: index 1,
    /// empty data, proof 0, previous hash "0", no transactions.
    pub fn with_genesis(timestamp: u64) -> (r: Blockchain)
        ensures
            is_genesis_chain(r, timestamp),
    {
        let mut blockchain = Blockchain { chain: Vec::new(), transactions: Vec::new() };
        let block = Block {
            index: 1,
            timestamp,
            data: String::new(),
            proof: 0,
            previous_hash: String::from_str("0"),
            transactions: Vec::new(),
        };
        proof {
            reveal_strlit("0");
        }
        assert(block.previous_hash@ == seq!['0']);
        blockchain.create_block(block);
        assert(blockchain.chain@ =~= seq![block]);
        blockchain
    }

    /// A chain holding only a genesis block stamped with the current time.
    ///
    /// Fails only when the clock cannot give a timestamp.
    pub fn new() -> (r: Result<Blockchain, ClockBeforeEpoch>)
        ensures
            r is Ok ==> exists|timestamp: u64| #[trigger] is_genesis_chain(r->Ok_0, timestamp),
    {
        match unix_time_secs() {
            Some(timestamp) => {
                let c = Blockchain::with_genesis(timestamp);
                let r: Result<Blockchain, ClockBeforeEpoch> = Ok(c);
                assert(r->Ok_0 == c);
                assert(is_genesis_chain(r->Ok_0, timestamp));
                r
            },
            None => Err(ClockBeforeEpoch),
        }
    }

    /// Appends `block` to the chain and returns it.
    fn create_block(&mut self, block: Block) -> (b: &Block)
        ensures
            final(self).chain@ == old(self).chain@.push(block),
            final(self).transactions@ == old(self).transactions@,
    {
        self.chain.push(block);
        let n = self.chain.len();
        &self.chain[n - 1]
    }

    /// Proof of work at `timestamp`: the block after the chain holding the
    /// pending transactions, with the smallest proof whose hash starts with
    /// "0000"; `None` when no proof in the range of `u64` gives such a hash
    /// (there the search would never end).
    pub fn proof_of_work_at(&self, timestamp: u64) -> (r: Option<Block>)
        requires
            self.chain@.len() > 0,
            (self.chain@.len() as u32) < u32::MAX,
        ensures
            pow_outcome(self.chain@, self.transactions@, timestamp, r),
    {
        let n = self.chain.len();
        let previous_hash = Blockchain::hash(self.get_previous_block());
        let index: u32 = (n as u32) + 1;
        let mut block = Block {
            index,
            timestamp,
            data: String::new(),
            proof: 0,
            previous_hash,
            transactions: clone_transactions(&self.transactions),
        };
        loop
            invariant
                n == self.chain@.len(),
                block.index == next_index(self.chain@),
                block.timestamp == timestamp,
                block.data@ == Seq::<char>::empty(),
                block.previous_hash@ == block_hash(self.chain@.last()),
                block.transactions@ == self.transactions@,
                forall|p: u64| p < block.proof ==> !#[trigger] pow_meets(self.chain@, self.transactions@, timestamp, p),
            decreases u64::MAX - block.proof,
        {
            let digest = block_digest(&block);
            if digest_meets_difficulty(&digest) {
                return Some(block);
            }
            if block.proof == u64::MAX {
                return None;
            }
            block.proof = block.proof + 1;
        }
    }

    /// Proof of work on the pending transactions, stamped with the current time.
    ///
    /// Fails only when the clock cannot give a timestamp.
    pub fn proof_of_work(&self) -> (r: Result<Option<Block>, ClockBeforeEpoch>)
        requires
            self.chain@.len() > 0,
            (self.chain@.len() as u32) < u32::MAX,
        ensures
            r is Ok ==> exists|timestamp: u64| #[trigger] pow_outcome(self.chain@, self.transactions@, timestamp, r->Ok_0),
    {
        match unix_time_secs() {
            Some(timestamp) => {
                let found = self.proof_of_work_at(timestamp);
                let r: Result<Option<Block>, ClockBeforeEpoch> = Ok(found);
                assert(r->Ok_0 == found);
                assert(pow_outcome(self.chain@, self.transactions@, timestamp, r->Ok_0));
                r
            },
            None => Err(ClockBeforeEpoch),
        }
    }

    /// Mines at `timestamp`: adds the reward for `node_adress` to the pending
    /// transactions, finds the proof of work, appends the block and empties
    /// the pending pool. Returns whether a block was mined; when none could
    /// be, nothing changes.
    pub fn mine_block_at(&mut self, node_adress: String, timestamp: u64) -> (mined: bool)
        requires
            old(self).chain@.len() > 0,
            (old(self).chain@.len() as u32) < u32::MAX,
        ensures
            mine_step(*old(self), node_adress@, timestamp, *final(self), mined),
    {
        let reward = Transaction {
            sender: String::from_str("0"),
            recipient: node_adress,
            amount: COINBASE_AMOUNT,
            nonce: 0,
            chain_id: CHAIN_ID,
            public_key: None,
            signature: None,
        };
        proof {
            reveal_strlit("0");
        }
        let ghost old_chain = self.chain@;
        let ghost old_pending = self.transactions@;
        let ghost reward_view = reward;
        assert(reward_view.sender@ == seq!['0']);
        assert(reward_view.recipient@ == node_adress@);
        assert(reward_view.amount == 1);
        assert(reward_view.chain_id == 1);
        assert(is_reward(reward_view, node_adress@));
        self.transactions.push(reward);
        let ghost pending = self.transactions@;
        assert(pending == old_pending.push(reward_view));
        match self.proof_of_work_at(timestamp) {
            Some(block) => {
                proof {
                    assert(is_mined_block(old_chain, pending, timestamp, block));
                    assert(block.transactions@.drop_last() =~= old_pending);
                }
                self.create_block(block);
                self.transactions.clear();
                proof {
                    assert(self.chain@ == old_chain.push(block));
                    assert(self.chain@.drop_last() =~= old_chain);
                    assert(self.chain@.last() == block);
                }
                true
            },
            None => {
                self.transactions.pop();
                proof {
                    assert(self.transactions@ =~= old_pending);
                    assert(forall|p: u64| !#[trigger] pow_meets(old_chain, old_pending.push(reward_view), timestamp, p));
                }
                false
            },
        }
    }

    /// Mines a block stamped with the current time; see `mine_block_at`.
    ///
    /// Fails, changing nothing, only when the clock cannot give a timestamp.
    pub fn mine_block(&mut self, node_adress: String) -> (r: Result<bool, ClockBeforeEpoch>)
        requires
            old(self).chain@.len() > 0,
            (old(self).chain@.len() as u32) < u32::MAX,
        ensures
            r is Ok ==> exists|timestamp: u64| #[trigger] mine_step(*old(self), node_adress@, timestamp, *final(self), r->Ok_0),
            r is Err ==> *final(self) == *old(self),
    {
        match unix_time_secs() {
            Some(timestamp) => {
                let ghost address = node_adress@;
                let mined = self.mine_block_at(node_adress, timestamp);
                let r: Result<bool, ClockBeforeEpoch> = Ok(mined);
                assert(r->Ok_0 == mined);
                assert(mine_step(*old(self), address, timestamp, *self, r->Ok_0));
                r
            },
            None => Err(ClockBeforeEpoch),
        }
    }

    /// Offers a transaction to the pending pool: it joins when
    /// `check_transaction` accepts it. Returns the index of the next block.
    pub fn add_transaction(&mut self, transaction: Transaction) -> (next: u32)
        requires
            old(self).chain@.len() > 0,
            old(self).chain@.last().index < u32::MAX,
        ensures
            next == old(self).chain@.last().index + 1,
            final(self).chain@ == old(self).chain@,
            final(self).transactions@ == if transaction_check(transaction) == TxCheck::Accepted {
                old(self).transactions@.push(transaction)
            } else {
                old(self).transactions@
            },
    {
        let index_next = self.get_previous_block().index + 1;
        if check_transaction(&transaction) == TxCheck::Accepted {
            self.transactions.push(transaction);
        }
        index_next
    }
}

} // verus!

verus! {

/// A list without coinbase transactions counts none.
proof fn lemma_no_coinbase_count(ts: Seq<Transaction>)
    requires
        no_coinbase(ts),
    ensures
        coinbase_count(ts) == 0,
    decreases ts.len(),
{
    if ts.len() > 0 {
        assert(no_coinbase(ts.drop_last())) by {
            assert forall|i: int| 0 <= i < ts.drop_last().len() implies !is_coinbase(#[trigger] ts.drop_last()[i]) by {
                assert(ts.drop_last()[i] == ts[i]);
            }
        }
        lemma_no_coinbase_count(ts.drop_last());
        assert(!is_coinbase(ts[ts.len() - 1]));
    }
}

/// A freshly created chain, holding only its genesis block, is valid.
pub proof fn lemma_genesis_chain_valid(c: Blockchain, timestamp: u64)
    requires
        is_genesis_chain(c, timestamp),
    ensures
        chain_valid(c.chain@),
{
}

/// Mining keeps a valid chain valid, provided that no coinbase transaction
/// is pending: the new block links to the old last block, meets the
/// difficulty target, and holds exactly one reward, the one mining added.
/// When no block could be mined the chain is unchanged.
pub proof fn lemma_mining_keeps_chain_valid(
    old: Blockchain,
    address: Seq<char>,
    timestamp: u64,
    new: Blockchain,
    mined: bool,
)
    requires
        old.chain@.len() > 0,
        chain_valid(old.chain@),
        no_coinbase(old.transactions@),
        mine_step(old, address, timestamp, new, mined),
    ensures
        chain_valid(new.chain@),
{
    if mined {
        let b = new.chain@.last();
        let n = old.chain@.len();
        let txs = b.transactions@;
        assert(new.chain@[n as int] == b);
        assert forall|i: int| 0 <= i < n implies #[trigger] new.chain@[i] == old.chain@[i] by {
            assert(new.chain@.drop_last()[i] == new.chain@[i]);
        }
        // the new block's transactions: the pending ones, then the reward
        assert(no_coinbase(txs.drop_last()));
        lemma_no_coinbase_count(txs.drop_last());
        assert(coinbase_count(txs) == 1);
        assert forall|i: int| 0 <= i < txs.len() && is_coinbase(#[trigger] txs[i]) implies txs[i].amount == 1 by {
            if i < txs.len() - 1 {
                assert(txs.drop_last()[i] == txs[i]);
            }
        }
        assert(rewards_valid(txs));
        assert(link_valid(new.chain@[n - 1], new.chain@[n as int]));
        assert forall|i: int| 1 <= i < new.chain@.len() implies link_valid(#[trigger] new.chain@[i - 1], new.chain@[i]) by {
            if i < n {
                assert(link_valid(old.chain@[i - 1], old.chain@[i]));
            }
        }
    }
}

/// Offering a transaction never lets a coinbase into the pending pool:
/// the pool stays free of them.
pub proof fn lemma_pool_stays_reward_free(pending: Seq<Transaction>, t: Transaction)
    requires
        no_coinbase(pending),
    ensures
        no_coinbase(
            if transaction_check(t) == TxCheck::Accepted {
                pending.push(t)
            } else {
                pending
            },
        ),
{
    if transaction_check(t) == TxCheck::Accepted {
        assert forall|i: int| 0 <= i < pending.len() + 1 implies !is_coinbase(#[trigger] pending.push(t)[i]) by {
            if i < pending.len() {
                assert(pending.push(t)[i] == pending[i]);
            }
        }
    }
}

} // verus!

verus! {

/// The hash of a block is the hash computed from its fields: a block and
/// the same fields given one by one hash alike.
pub proof fn lemma_block_hash_is_fields_hash(b: Block)
    ensures
        block_hash(b) == fields_hash(b.index, b.timestamp, b.data@, b.proof, b.previous_hash@, b.transactions@),
{
}

} // verus!

verus! {

/// The transactions of `ts` whose sender is "0" (the coinbase sender):
/// there is exactly one of them.
pub open spec fn single_reward(ts: Seq<Transaction>) -> bool {
    exists|k: int|
        0 <= k < ts.len() && #[trigger] ts[k].sender@ == seq!['0'] && forall|j: int|
            0 <= j < ts.len() && j != k ==> #[trigger] ts[j].sender@ != seq!['0']
}

/// A count of coinbase transactions is zero exactly when there is none.
proof fn lemma_coinbase_count_zero(ts: Seq<Transaction>)
    ensures
        coinbase_count(ts) == 0 <==> forall|j: int| 0 <= j < ts.len() ==> #[trigger] ts[j].sender@ != seq!['0'],
    decreases ts.len(),
{
    if ts.len() > 0 {
        let init = ts.drop_last();
        lemma_coinbase_count_zero(init);
        assert forall|j: int| 0 <= j < init.len() implies #[trigger] init[j] == ts[j] by {}
        if coinbase_count(ts) == 0 {
            assert forall|j: int| 0 <= j < ts.len() implies #[trigger] ts[j].sender@ != seq!['0'] by {
                if j < init.len() {
                    assert(init[j] == ts[j]);
                }
            }
        }
        if forall|j: int| 0 <= j < ts.len() ==> #[trigger] ts[j].sender@ != seq!['0'] {
            assert forall|j: int| 0 <= j < init.len() implies #[trigger] init[j].sender@ != seq!['0'] by {
                assert(init[j] == ts[j]);
            }
            assert(ts[ts.len() - 1].sender@ != seq!['0']);
        }
    }
}

/// Prepending-free view of `single_reward`: with a last coinbase, a single
/// reward means none before it.
proof fn lemma_single_reward_last_coinbase(ts: Seq<Transaction>)
    requires
        ts.len() > 0,
        ts.last().sender@ == seq!['0'],
    ensures
        single_reward(ts) <==> forall|j: int| 0 <= j < ts.len() - 1 ==> #[trigger] ts.drop_last()[j].sender@ != seq!['0'],
{
    let init = ts.drop_last();
    let n = init.len() as int;
    assert forall|j: int| 0 <= j < n implies #[trigger] init[j] == ts[j] by {}
    if single_reward(ts) {
        let k = choose|k: int|
            0 <= k < ts.len() && #[trigger] ts[k].sender@ == seq!['0'] && forall|j: int|
                0 <= j < ts.len() && j != k ==> #[trigger] ts[j].sender@ != seq!['0'];
        if k != n {
            assert(ts[n].sender@ != seq!['0']);
        }
        assert forall|j: int| 0 <= j < n implies #[trigger] init[j].sender@ != seq!['0'] by {
            assert(init[j] == ts[j]);
            assert(ts[j].sender@ != seq!['0']);
        }
    }
    if forall|j: int| 0 <= j < n ==> #[trigger] init[j].sender@ != seq!['0'] {
        assert forall|j: int| 0 <= j < ts.len() && j != n implies #[trigger] ts[j].sender@ != seq!['0'] by {
            assert(init[j] == ts[j]);
        }
        assert(ts[n].sender@ == seq!['0']);
    }
}

/// Without a last coinbase, the single reward lies before the end.
proof fn lemma_single_reward_last_other(ts: Seq<Transaction>)
    requires
        ts.len() > 0,
        ts.last().sender@ != seq!['0'],
    ensures
        single_reward(ts) <==> single_reward(ts.drop_last()),
{
    let init = ts.drop_last();
    let n = init.len() as int;
    assert forall|j: int| 0 <= j < n implies #[trigger] init[j] == ts[j] by {}
    if single_reward(init) {
        let k = choose|k: int|
            0 <= k < init.len() && #[trigger] init[k].sender@ == seq!['0'] && forall|j: int|
                0 <= j < init.len() && j != k ==> #[trigger] init[j].sender@ != seq!['0'];
        assert(ts[k] == init[k]);
        assert forall|j: int| 0 <= j < ts.len() && j != k implies #[trigger] ts[j].sender@ != seq!['0'] by {
            if j < n {
                assert(init[j] == ts[j]);
                assert(init[j].sender@ != seq!['0']);
            }
        }
    }
    if single_reward(ts) {
        let k = choose|k: int|
            0 <= k < ts.len() && #[trigger] ts[k].sender@ == seq!['0'] && forall|j: int|
                0 <= j < ts.len() && j != k ==> #[trigger] ts[j].sender@ != seq!['0'];
        assert(k != n);
        assert(init[k] == ts[k]);
        assert forall|j: int| 0 <= j < init.len() && j != k implies #[trigger] init[j].sender@ != seq!['0'] by {
            assert(init[j] == ts[j]);
            assert(ts[j].sender@ != seq!['0']);
        }
    }
}

/// A count of coinbase transactions is one exactly when there is a single one.
proof fn lemma_coinbase_count_one(ts: Seq<Transaction>)
    ensures
        coinbase_count(ts) == 1 <==> single_reward(ts),
    decreases ts.len(),
{
    if ts.len() == 0 {
        assert(!single_reward(ts));
    } else {
        let init = ts.drop_last();
        lemma_coinbase_count_zero(init);
        lemma_coinbase_count_one(init);
        if ts.last().sender@ == seq!['0'] {
            lemma_single_reward_last_coinbase(ts);
        } else {
            lemma_single_reward_last_other(ts);
        }
    }
}

/// One link of a chain, in terms of the blocks themselves.
proof fn lemma_link_valid_iff(prev: Block, cur: Block)
    ensures
        link_valid(prev, cur) <==> {
            &&& cur.previous_hash@ == hex_lower(
                sha256_digest(
                    hash_payload(prev.index, prev.timestamp, prev.data@, prev.proof, prev.previous_hash@, prev.transactions@),
                ),
            )
            &&& block_hash(cur).len() >= 4
            &&& block_hash(cur)[0] == '0' && block_hash(cur)[1] == '0'
            &&& block_hash(cur)[2] == '0' && block_hash(cur)[3] == '0'
            &&& single_reward(cur.transactions@)
            &&& forall|j: int|
                0 <= j < cur.transactions@.len() && #[trigger] cur.transactions@[j].sender@ == seq!['0']
                    ==> cur.transactions@[j].amount == 1
        },
{
    lemma_coinbase_count_one(cur.transactions@);
}

/// What a valid chain is, in terms of the blocks themselves: every block
/// after the genesis block holds the SHA-256 hex hash of the block before
/// it as its previous hash, has a hash that begins with four zero digits,
/// holds exactly one transaction from the sender "0", and every such
/// transaction pays 1. A chain missing any of these is not valid.
pub proof fn lemma_chain_validity(chain: Seq<Block>)
    ensures
        chain_valid(chain) <==> forall|i: int|
            1 <= i < chain.len() ==> {
                &&& #[trigger] chain[i].previous_hash@ == hex_lower(
                    sha256_digest(
                        hash_payload(
                            chain[i - 1].index,
                            chain[i - 1].timestamp,
                            chain[i - 1].data@,
                            chain[i - 1].proof,
                            chain[i - 1].previous_hash@,
                            chain[i - 1].transactions@,
                        ),
                    ),
                )
                &&& block_hash(chain[i]).len() >= 4
                &&& block_hash(chain[i])[0] == '0' && block_hash(chain[i])[1] == '0'
                &&& block_hash(chain[i])[2] == '0' && block_hash(chain[i])[3] == '0'
                &&& single_reward(chain[i].transactions@)
                &&& forall|j: int|
                    0 <= j < chain[i].transactions@.len() && #[trigger] chain[i].transactions@[j].sender@
                        == seq!['0'] ==> chain[i].transactions@[j].amount == 1
            },
{
    assert forall|i: int| 1 <= i < chain.len() implies (link_valid(#[trigger] chain[i - 1], chain[i]) <==> {
        &&& chain[i].previous_hash@ == hex_lower(
            sha256_digest(
                hash_payload(
                    chain[i - 1].index,
                    chain[i - 1].timestamp,
                    chain[i - 1].data@,
                    chain[i - 1].proof,
                    chain[i - 1].previous_hash@,
                    chain[i - 1].transactions@,
                ),
            ),
        )
        &&& block_hash(chain[i]).len() >= 4
        &&& block_hash(chain[i])[0] == '0' && block_hash(chain[i])[1] == '0'
        &&& block_hash(chain[i])[2] == '0' && block_hash(chain[i])[3] == '0'
        &&& single_reward(chain[i].transactions@)
        &&& forall|j: int|
            0 <= j < chain[i].transactions@.len() && #[trigger] chain[i].transactions@[j].sender@ == seq!['0']
                ==> chain[i].transactions@[j].amount == 1
    }) by {
        lemma_link_valid_iff(chain[i - 1], chain[i]);
    }
}

} // verus!

verus! {

/// What the pending pool admits, in terms of the transaction itself: both
/// parties hold some character that is not white space, the amount is not
/// zero, and the sender is not "0". Every other transaction is refused.
pub proof fn lemma_admission_rule(t: Transaction)
    ensures
        transaction_check(t) == TxCheck::Accepted <==> {
            &&& exists|i: int| 0 <= i < t.sender@.len() && !is_unicode_whitespace(#[trigger] t.sender@[i])
            &&& exists|i: int| 0 <= i < t.recipient@.len() && !is_unicode_whitespace(#[trigger] t.recipient@[i])
            &&& t.amount > 0
            &&& t.sender@ != seq!['0']
        },
{
}

} // verus!
