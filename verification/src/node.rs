//! A node of the network: its copy of the blockchain, its address and its
//! neighbours. The network traffic itself (fetching neighbours' chains,
//! probing an address) happens outside; the node takes its results.

use vstd::prelude::*;
use vstd::utf8::encode_utf8;

use crate::blockchain::{
    chain_valid, check_transaction, mine_step, ClockBeforeEpoch, same_blocks, transaction_check, Blockchain, TxCheck,
};
use crate::crypto::{
    der_signature_parses, der_signature_valid, ecdsa_accepts, ecdsa_verify, sec1_key_parses,
    sec1_key_valid, sha256_digest,
};
use crate::encoding::{decode_hex, hex_decode, hex_lower, is_zero_text};
use crate::transaction::{
    address_from_public_key, address_of, is_coinbase, message_json, transaction_message,
    Transaction,
};

verus! {

/// The hex public key decodes to a valid SEC1 key whose address is `sender`.
pub open spec fn signer_matches(sender: Seq<char>, public_key_hex: Seq<char>) -> bool {
    match hex_decode(encode_utf8(public_key_hex)) {
        Some(pk) => sec1_key_valid(pk) && address_of(pk) == sender,
        None => false,
    }
}

/// The signature check of a transaction: the public key belongs to the
/// sender, and the hex signature decodes to a DER signature that verifies
/// against the transaction's canonical message under that key.
pub open spec fn signature_accepted(t: Transaction, public_key_hex: Seq<char>, signature_hex: Seq<char>) -> bool {
    &&& signer_matches(t.sender@, public_key_hex)
    &&& match (hex_decode(encode_utf8(public_key_hex)), hex_decode(encode_utf8(signature_hex))) {
        (Some(pk), Some(sig)) => der_signature_valid(sig) && ecdsa_accepts(
            pk,
            message_json(t.sender@, t.recipient@, t.amount as nat, t.nonce as nat, t.chain_id as nat),
            sig,
        ),
        _ => false,
    }
}

/// Whether the hex public key `public_key_hex` is a valid key whose address is `sender`.
pub fn public_key_matches_sender(sender: &String, public_key_hex: &str) -> (r: bool)
    ensures
        r == signer_matches(sender@, public_key_hex@),
{
    let pk_bytes = match decode_hex(public_key_hex.as_bytes()) {
        Some(b) => b,
        None => return false,
    };
    if !sec1_key_parses(pk_bytes.as_slice()) {
        return false;
    }
    let derived = address_from_public_key(pk_bytes.as_slice());
    derived == *sender
}

/// Checks the signature of a transaction: the public key must be a valid
/// key whose address is the sender, and the signature must verify against
/// the transaction's canonical message.
pub fn verify_transaction_signature(tx: &Transaction, pubkey_hex: &str, sig_hex: &str) -> (r: bool)
    requires
        signer_matches(tx.sender@, pubkey_hex@) ==> tx.amount <= u64::MAX,
    ensures
        r == signature_accepted(*tx, pubkey_hex@, sig_hex@),
{
    if !public_key_matches_sender(&tx.sender, pubkey_hex) {
        return false;
    }
    let pk_bytes = match decode_hex(pubkey_hex.as_bytes()) {
        Some(b) => b,
        None => return false,
    };
    let msg = transaction_message(tx.sender.as_str(), tx.recipient.as_str(), tx.amount, tx.nonce, tx.chain_id);
    let sig_bytes = match decode_hex(sig_hex.as_bytes()) {
        Some(b) => b,
        None => return false,
    };
    if !der_signature_parses(sig_bytes.as_slice()) {
        return false;
    }
    ecdsa_verify(pk_bytes.as_slice(), msg.as_slice(), sig_bytes.as_slice())
}

} // verus!

verus! {

/// The texts held in a list of strings, as a set.
pub open spec fn text_set(v: Seq<String>) -> Set<Seq<char>> {
    Set::new(|x: Seq<char>| exists|j: int| 0 <= j < v.len() && #[trigger] v[j]@ == x)
}

/// No text occurs twice in the list.
pub open spec fn distinct_texts(v: Seq<String>) -> bool {
    forall|i: int, j: int| 0 <= i < j < v.len() ==> #[trigger] v[i]@ != #[trigger] v[j]@
}

/// Whether the text of `s` occurs in `v`.
fn contains_text(v: &Vec<String>, s: &String) -> (r: bool)
    ensures
        r == text_set(v@).contains(s@),
{
    let n = v.len();
    let mut i: usize = 0;
    while i < n
        invariant
            n == v@.len(),
            i <= n,
            forall|j: int| 0 <= j < i ==> v@[j]@ != s@,
        decreases n - i,
    {
        if v[i] == *s {
            return true;
        }
        i = i + 1;
    }
    false
}

/// Why a node refuses a transaction before it reaches the pending pool.
#[derive(PartialEq, Eq, Structural, Debug, Clone, Copy)]
pub enum SignatureRejection {
    /// A transaction that is not a coinbase carries no signature.
    MissingSignature,
    /// A transaction that is not a coinbase carries no public key.
    MissingPublicKey,
    /// The public key does not belong to the sender or the signature does not verify.
    InvalidSignature,
}

/// What a node does with an offered transaction: one that is not a coinbase
/// needs a signature, a public key and a valid signature; then the chain's
/// own checks decide.
pub open spec fn node_admission(t: Transaction) -> Result<TxCheck, SignatureRejection> {
    if !is_coinbase(t) && t.signature is None {
        Err(SignatureRejection::MissingSignature)
    } else if !is_coinbase(t) && t.public_key is None {
        Err(SignatureRejection::MissingPublicKey)
    } else if !is_coinbase(t) && !signature_accepted(t, t.public_key->0@, t.signature->0@) {
        Err(SignatureRejection::InvalidSignature)
    } else {
        Ok(transaction_check(t))
    }
}

/// Where checking the signature of `t` would need its canonical message,
/// the amount fits the message's number format.
pub open spec fn signature_check_defined(t: Transaction) -> bool {
    (!is_coinbase(t) && t.signature is Some && t.public_key is Some && signer_matches(
        t.sender@,
        t.public_key->0@,
    )) ==> t.amount <= u64::MAX
}

/// Among `candidates`, the index of the chain a node adopts when its own
/// chain has `current_len` blocks: candidates are taken in order, and one
/// replaces the best so far when it is valid and strictly longer.
pub open spec fn best_candidate(current_len: nat, candidates: Seq<Blockchain>) -> Option<int>
    decreases candidates.len(),
{
    if candidates.len() == 0 {
        None
    } else {
        let prev = best_candidate(current_len, candidates.drop_last());
        let best_len = match prev {
            Some(j) => candidates[j].chain@.len(),
            None => current_len,
        };
        let c = candidates.last();
        if c.chain@.len() > best_len && chain_valid(c.chain@) {
            Some(candidates.len() - 1)
        } else {
            prev
        }
    }
}

/// A node: its blockchain, its own address and the addresses of its neighbours.
pub struct Node {
    blockchain: Blockchain,
    node_adress: String,
    neighbor_nodes: Vec<String>,
}

impl Node {
    /// The node's blockchain.
    pub closed spec fn chain(&self) -> Blockchain {
        self.blockchain
    }

    /// The node's own address.
    pub closed spec fn address(&self) -> Seq<char> {
        self.node_adress@
    }

    /// The addresses of the node's neighbours.
    pub closed spec fn neighbor_set(&self) -> Set<Seq<char>> {
        text_set(self.neighbor_nodes@)
    }

    #[verifier::type_invariant]
    spec fn neighbors_distinct(&self) -> bool {
        distinct_texts(self.neighbor_nodes@)
    }

    /// A node with the given address, neighbours (each kept once) and blockchain.
    pub fn new(node_adress: String, neighbor_nodes: Vec<String>, blockchain: Blockchain) -> (n: Node)
        ensures
            n.chain() == blockchain,
            n.address() == node_adress@,
            n.neighbor_set() == text_set(neighbor_nodes@),
    {
        let mut kept: Vec<String> = Vec::new();
        let count = neighbor_nodes.len();
        let mut i: usize = 0;
        while i < count
            invariant
                count == neighbor_nodes@.len(),
                i <= count,
                distinct_texts(kept@),
                forall|x: Seq<char>| #[trigger] text_set(kept@).contains(x) <==> text_set(neighbor_nodes@.take(i as int)).contains(x),
            decreases count - i,
        {
            let candidate = &neighbor_nodes[i];
            let ghost before = kept@;
            let ghost old_prefix = neighbor_nodes@.take(i as int);
            assert(forall|x: Seq<char>| text_set(before).contains(x) <==> text_set(old_prefix).contains(x));
            if !contains_text(&kept, candidate) {
                kept.push(candidate.clone());
                proof {
                    assert forall|a: int, b: int| 0 <= a < b < kept@.len() implies #[trigger] kept@[a]@ != #[trigger] kept@[b]@ by {
                        if b == kept@.len() - 1 {
                            assert(kept@[a] == before[a]);
                            assert(text_set(before).contains(before[a]@));
                        } else {
                            assert(kept@[a] == before[a]);
                            assert(kept@[b] == before[b]);
                        }
                    }
                }
            }
            proof {
                let prefix = neighbor_nodes@.take(i as int + 1);
                assert(prefix =~= old_prefix.push(neighbor_nodes@[i as int]));
                assert forall|x: Seq<char>| text_set(kept@).contains(x) <==> #[trigger] text_set(prefix).contains(x) by {
                    if text_set(prefix).contains(x) {
                        let j = choose|j: int| 0 <= j < prefix.len() && #[trigger] prefix[j]@ == x;
                        if j < i {
                            assert(old_prefix[j] == prefix[j]);
                            assert(text_set(old_prefix).contains(x));
                            assert(text_set(before).contains(x));
                            let k = choose|k: int| 0 <= k < before.len() && #[trigger] before[k]@ == x;
                            assert(kept@[k] == before[k]);
                        } else if text_set(before).contains(x) {
                            let k = choose|k: int| 0 <= k < before.len() && #[trigger] before[k]@ == x;
                            assert(kept@[k] == before[k]);
                        } else {
                            assert(kept@[kept@.len() - 1]@ == x);
                        }
                    }
                    if text_set(kept@).contains(x) {
                        let k = choose|k: int| 0 <= k < kept@.len() && #[trigger] kept@[k]@ == x;
                        if k < before.len() {
                            assert(kept@[k] == before[k]);
                            assert(text_set(before).contains(x));
                            assert(text_set(old_prefix).contains(x));
                            let j = choose|j: int| 0 <= j < old_prefix.len() && #[trigger] old_prefix[j]@ == x;
                            assert(prefix[j] == old_prefix[j]);
                        } else {
                            assert(prefix[i as int]@ == x);
                        }
                    }
                }
            }
            i = i + 1;
        }
        proof {
            assert(neighbor_nodes@.take(count as int) =~= neighbor_nodes@);
            assert(text_set(kept@) =~= text_set(neighbor_nodes@));
        }
        Node { blockchain, node_adress, neighbor_nodes: kept }
    }

    /// The addresses of the node's neighbours, each once.
    pub fn neighbor_nodes(&self) -> (v: Vec<String>)
        ensures
            text_set(v@) == self.neighbor_set(),
            distinct_texts(v@),
    {
        proof {
            use_type_invariant(self);
        }
        let mut v: Vec<String> = Vec::new();
        let n = self.neighbor_nodes.len();
        let mut i: usize = 0;
        while i < n
            invariant
                n == self.neighbor_nodes@.len(),
                i <= n,
                v@.len() == i,
                forall|j: int| 0 <= j < i ==> #[trigger] v@[j] == self.neighbor_nodes@[j],
            decreases n - i,
        {
            v.push(self.neighbor_nodes[i].clone());
            i = i + 1;
        }
        proof {
            assert(v@ =~= self.neighbor_nodes@);
        }
        v
    }

    /// A copy of the node's blockchain.
    pub fn get_blockchain(&self) -> (c: Blockchain)
        ensures
            same_blocks(c.chain@, self.chain().chain@),
            c.transactions@ == self.chain().transactions@,
    {
        self.blockchain.clone()
    }

    /// Consensus on the chains fetched from the neighbours, in the order they
    /// were fetched: the node adopts the first valid chain that is strictly
    /// longer than every chain seen before it (its own included). Returns
    /// whether its chain was replaced.
    pub fn resolve_conflicts(&mut self, candidates: Vec<Blockchain>) -> (replaced: bool)
        ensures
            final(self).address() == old(self).address(),
            final(self).neighbor_set() == old(self).neighbor_set(),
            match best_candidate(old(self).chain().chain@.len(), candidates@) {
                Some(j) => replaced && final(self).chain() == candidates@[j],
                None => !replaced && final(self).chain() == old(self).chain(),
            },
    {
        proof {
            use_type_invariant(&*self);
        }
        let current_len = self.blockchain.len();
        let n = candidates.len();
        let mut best: Option<usize> = None;
        let mut best_len = current_len;
        let mut i: usize = 0;
        while i < n
            invariant
                n == candidates@.len(),
                i <= n,
                current_len == self.blockchain.chain@.len(),
                match best_candidate(current_len as nat, candidates@.take(i as int)) {
                    Some(j) => best == Some(j as usize) && 0 <= j < i && best_len == candidates@[j].chain@.len(),
                    None => best is None && best_len == current_len,
                },
            decreases n - i,
        {
            let candidate = &candidates[i];
            proof {
                let t = candidates@.take(i as int + 1);
                assert(t.drop_last() =~= candidates@.take(i as int));
                assert(t.last() == candidates@[i as int]);
                let prev = best_candidate(current_len as nat, candidates@.take(i as int));
                if prev is Some {
                    assert(t[prev->0] == candidates@[prev->0]);
                }
            }
            if candidate.len() > best_len && candidate.is_chain_valid() {
                best = Some(i);
                best_len = candidate.len();
            }
            i = i + 1;
        }
        proof {
            assert(candidates@.take(n as int) =~= candidates@);
        }
        match best {
            Some(j) => {
                let mut candidates = candidates;
                self.blockchain = candidates.remove(j);
                true
            },
            None => false,
        }
    }

    /// Records `addr` as a neighbour when the probe of its chain endpoint
    /// answered with success (`reachable`); returns `reachable`.
    pub fn connect_node(&mut self, addr: String, reachable: bool) -> (connected: bool)
        ensures
            connected == reachable,
            final(self).chain() == old(self).chain(),
            final(self).address() == old(self).address(),
            final(self).neighbor_set() == if reachable {
                old(self).neighbor_set().insert(addr@)
            } else {
                old(self).neighbor_set()
            },
    {
        proof {
            use_type_invariant(&*self);
        }
        if reachable {
            if !contains_text(&self.neighbor_nodes, &addr) {
                let ghost before = self.neighbor_nodes@;
                proof {
                    assert forall|a: int, b: int| 0 <= a < b < before.len() + 1 implies #[trigger] before.push(addr)[a]@ != #[trigger] before.push(addr)[b]@ by {
                        assert(before.push(addr)[a] == before[a]);
                        if b == before.len() {
                            assert(text_set(before).contains(before[a]@));
                        } else {
                            assert(before.push(addr)[b] == before[b]);
                        }
                    }
                    assert(text_set(before.push(addr)) =~= text_set(before).insert(addr@)) by {
                        assert forall|x: Seq<char>| #[trigger] text_set(before.push(addr)).contains(x) implies text_set(before).insert(addr@).contains(x) by {
                            let k = choose|k: int| 0 <= k < before.len() + 1 && #[trigger] before.push(addr)[k]@ == x;
                            if k < before.len() {
                                assert(before.push(addr)[k] == before[k]);
                            }
                        }
                        assert forall|x: Seq<char>| #[trigger] text_set(before).insert(addr@).contains(x) implies text_set(before.push(addr)).contains(x) by {
                            if x == addr@ {
                                assert(before.push(addr)[before.len() as int]@ == x);
                            } else {
                                let k = choose|k: int| 0 <= k < before.len() && #[trigger] before[k]@ == x;
                                assert(before.push(addr)[k] == before[k]);
                            }
                        }
                    }
                }
                let mut list: Vec<String> = Vec::new();
                std::mem::swap(&mut list, &mut self.neighbor_nodes);
                list.push(addr);
                self.neighbor_nodes = list;
            } else {
                proof {
                    assert(self.neighbor_set() =~= self.neighbor_set().insert(addr@));
                }
            }
        }
        reachable
    }

    /// Mines a block on the node's chain with the reward for `node_adress`;
    /// see `Blockchain::mine_block`.
    pub fn mine_block(&mut self, node_adress: String) -> (r: Result<bool, ClockBeforeEpoch>)
        requires
            old(self).chain().chain@.len() > 0,
            (old(self).chain().chain@.len() as u32) < u32::MAX,
        ensures
            r is Ok ==> exists|timestamp: u64| #[trigger] mine_step(old(self).chain(), node_adress@, timestamp, final(self).chain(), r->Ok_0),
            r is Err ==> final(self).chain() == old(self).chain(),
            final(self).address() == old(self).address(),
            final(self).neighbor_set() == old(self).neighbor_set(),
    {
        proof {
            use_type_invariant(&*self);
        }
        let mut chain = Blockchain { chain: Vec::new(), transactions: Vec::new() };
        std::mem::swap(&mut chain, &mut self.blockchain);
        let ghost before = chain;
        let ghost address = node_adress@;
        let r = chain.mine_block(node_adress);
        self.blockchain = chain;
        proof {
            if let Ok(mined) = r {
                let ts = choose|ts: u64| mine_step(before, address, ts, chain, mined);
                assert(mine_step(old(self).chain(), address, ts, self.chain(), mined));
            }
        }
        r
    }

    /// Offers a transaction: one that is not a coinbase must carry a public
    /// key and a signature that verify for its sender; then the chain's own
    /// checks decide whether it joins the pending pool.
    pub fn add_transaction(&mut self, transaction: Transaction) -> (r: Result<TxCheck, SignatureRejection>)
        requires
            old(self).chain().chain@.len() > 0,
            old(self).chain().chain@.last().index < u32::MAX,
            signature_check_defined(transaction),
        ensures
            r == node_admission(transaction),
            final(self).chain().chain@ == old(self).chain().chain@,
            final(self).chain().transactions@ == if r == Ok::<TxCheck, SignatureRejection>(TxCheck::Accepted) {
                old(self).chain().transactions@.push(transaction)
            } else {
                old(self).chain().transactions@
            },
            final(self).address() == old(self).address(),
            final(self).neighbor_set() == old(self).neighbor_set(),
    {
        proof {
            use_type_invariant(&*self);
        }
        let coinbase = is_zero_text(transaction.sender.as_str());
        if !coinbase {
            let sig_hex = match &transaction.signature {
                Some(s) => s,
                None => return Err(SignatureRejection::MissingSignature),
            };
            let pk_hex = match &transaction.public_key {
                Some(p) => p,
                None => return Err(SignatureRejection::MissingPublicKey),
            };
            if !verify_transaction_signature(&transaction, pk_hex.as_str(), sig_hex.as_str()) {
                return Err(SignatureRejection::InvalidSignature);
            }
        }
        let verdict = check_transaction(&transaction);
        let mut chain = Blockchain { chain: Vec::new(), transactions: Vec::new() };
        std::mem::swap(&mut chain, &mut self.blockchain);
        chain.add_transaction(transaction);
        self.blockchain = chain;
        Ok(verdict)
    }

    /// `add_transaction` for any transaction: `None` where checking the
    /// signature would need a message whose amount does not fit its number
    /// format (there the transaction is neither checked nor added).
    pub fn try_add_transaction(&mut self, transaction: Transaction) -> (r: Option<Result<TxCheck, SignatureRejection>>)
        requires
            old(self).chain().chain@.len() > 0,
            old(self).chain().chain@.last().index < u32::MAX,
        ensures
            r is None <==> !signature_check_defined(transaction),
            r is None ==> *final(self) == *old(self),
            r matches Some(res) ==> res == node_admission(transaction),
            r matches Some(res) ==> final(self).chain().transactions@ == if res == Ok::<TxCheck, SignatureRejection>(TxCheck::Accepted) {
                old(self).chain().transactions@.push(transaction)
            } else {
                old(self).chain().transactions@
            },
            final(self).chain().chain@ == old(self).chain().chain@,
            final(self).address() == old(self).address(),
            final(self).neighbor_set() == old(self).neighbor_set(),
    {
        if transaction.amount > 18446744073709551615u128 && !is_zero_text(transaction.sender.as_str()) {
            match (&transaction.signature, &transaction.public_key) {
                (Some(_), Some(pk)) => {
                    if public_key_matches_sender(&transaction.sender, pk.as_str()) {
                        return None;
                    }
                },
                _ => {},
            }
        }
        Some(self.add_transaction(transaction))
    }
}

} // verus!

verus! {

/// The longest-chain rule: the adopted candidate is valid, longer than the
/// node's own chain, at least as long as every valid candidate and strictly
/// longer than every valid candidate before it; when none is adopted, no
/// valid candidate is longer than the node's own chain.
pub proof fn lemma_best_candidate(current_len: nat, candidates: Seq<Blockchain>)
    ensures
        match best_candidate(current_len, candidates) {
            Some(j) => {
                &&& 0 <= j < candidates.len()
                &&& chain_valid(candidates[j].chain@)
                &&& candidates[j].chain@.len() > current_len
                &&& forall|k: int|
                    0 <= k < candidates.len() && chain_valid(#[trigger] candidates[k].chain@)
                        ==> candidates[k].chain@.len() <= candidates[j].chain@.len()
                &&& forall|k: int|
                    0 <= k < j && chain_valid(#[trigger] candidates[k].chain@)
                        ==> candidates[k].chain@.len() < candidates[j].chain@.len()
            },
            None => forall|k: int|
                0 <= k < candidates.len() && chain_valid(#[trigger] candidates[k].chain@)
                    ==> candidates[k].chain@.len() <= current_len,
        },
    decreases candidates.len(),
{
    if candidates.len() > 0 {
        let init = candidates.drop_last();
        let n = init.len() as int;
        lemma_best_candidate(current_len, init);
        assert forall|k: int| 0 <= k < n implies #[trigger] init[k] == candidates[k] by {}
        let prev = best_candidate(current_len, init);
        let best_len = match prev {
            Some(j) => candidates[j].chain@.len(),
            None => current_len,
        };
        if prev is Some {
            assert(init[prev->0] == candidates[prev->0]);
        }
        // every valid candidate before the last is no longer than the best so far
        assert forall|k: int| 0 <= k < n && chain_valid(#[trigger] candidates[k].chain@) implies candidates[k].chain@.len() <= best_len by {
            assert(init[k] == candidates[k]);
        }
        let c = candidates[n];
        if c.chain@.len() > best_len && chain_valid(c.chain@) {
            assert(best_candidate(current_len, candidates) == Some(n));
        } else {
            assert(best_candidate(current_len, candidates) == prev);
            if prev is Some {
                let j = prev->0;
                assert forall|k: int| 0 <= k < j && chain_valid(#[trigger] candidates[k].chain@) implies candidates[k].chain@.len() < candidates[j].chain@.len() by {
                    assert(init[k] == candidates[k]);
                }
            }
        }
    }
}

/// After consensus a node's chain never got shorter; if it was replaced,
/// the new chain is valid and strictly longer; and it is at least as long
/// as every valid chain that was fetched.
pub proof fn lemma_consensus_adopts_longest_valid(old: Node, candidates: Seq<Blockchain>, new: Node, replaced: bool)
    requires
        match best_candidate(old.chain().chain@.len(), candidates) {
            Some(j) => replaced && new.chain() == candidates[j],
            None => !replaced && new.chain() == old.chain(),
        },
    ensures
        new.chain().chain@.len() >= old.chain().chain@.len(),
        replaced ==> chain_valid(new.chain().chain@) && new.chain().chain@.len() > old.chain().chain@.len(),
        replaced <==> exists|k: int|
            0 <= k < candidates.len() && chain_valid(#[trigger] candidates[k].chain@)
                && candidates[k].chain@.len() > old.chain().chain@.len(),
        forall|k: int|
            0 <= k < candidates.len() && chain_valid(#[trigger] candidates[k].chain@)
                ==> candidates[k].chain@.len() <= new.chain().chain@.len(),
{
    lemma_best_candidate(old.chain().chain@.len(), candidates);
}

} // verus!

verus! {

/// A transaction that carries a public key and a signature that pass the
/// signature check is decided by the chain's own checks alone.
pub proof fn lemma_signed_transaction_admitted(t: Transaction)
    requires
        t.public_key is Some,
        t.signature is Some,
        signature_accepted(t, t.public_key->0@, t.signature->0@),
    ensures
        node_admission(t) == Ok::<TxCheck, SignatureRejection>(transaction_check(t)),
{
}

} // verus!

verus! {

/// What the signature check accepts, in terms of the inputs themselves:
/// the public key text decodes to a valid key, the first 20 bytes of the
/// key's SHA-256 digest, in lower-case hex, are exactly the transaction's
/// sender, and the signature text decodes to a DER signature that verifies
/// under that key against the transaction's canonical message. A key that
/// belongs to anyone other than the sender is refused.
pub proof fn lemma_signature_check_binds_sender(t: Transaction, public_key_hex: Seq<char>, signature_hex: Seq<char>)
    ensures
        signer_matches(t.sender@, public_key_hex) == match hex_decode(encode_utf8(public_key_hex)) {
            Some(pk) => sec1_key_valid(pk) && hex_lower(sha256_digest(pk).take(20)) == t.sender@,
            None => false,
        },
        signature_accepted(t, public_key_hex, signature_hex) == match (
            hex_decode(encode_utf8(public_key_hex)),
            hex_decode(encode_utf8(signature_hex)),
        ) {
            (Some(pk), Some(sig)) => {
                &&& sec1_key_valid(pk)
                &&& hex_lower(sha256_digest(pk).take(20)) == t.sender@
                &&& der_signature_valid(sig)
                &&& ecdsa_accepts(
                    pk,
                    message_json(t.sender@, t.recipient@, t.amount as nat, t.nonce as nat, t.chain_id as nat),
                    sig,
                )
            },
            _ => false,
        },
{
}

} // verus!

verus! {

/// A node passes a transaction on to its chain's checks only when the
/// sender is "0" or the transaction carries a public key and a signature
/// that pass the signature check; otherwise the rejection names the first
/// missing piece.
pub proof fn lemma_node_admission_rule(t: Transaction)
    ensures
        node_admission(t) is Ok <==> (t.sender@ == seq!['0'] || (t.public_key is Some && t.signature is Some
            && signature_accepted(t, t.public_key->0@, t.signature->0@))),
        t.sender@ != seq!['0'] && t.signature is None ==> node_admission(t) == Err::<TxCheck, SignatureRejection>(
            SignatureRejection::MissingSignature,
        ),
        t.sender@ != seq!['0'] && t.signature is Some && t.public_key is None ==> node_admission(t) == Err::<
            TxCheck,
            SignatureRejection,
        >(SignatureRejection::MissingPublicKey),
        node_admission(t) is Ok ==> node_admission(t) == Ok::<TxCheck, SignatureRejection>(transaction_check(t)),
{
}

} // verus!
