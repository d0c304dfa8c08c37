use blockchain::blockchain::{check_transaction, Block, Blockchain, TxCheck};
use blockchain::transaction::Transaction;
use sha2::{Digest, Sha256};

fn tx(sender: &str, recipient: &str, amount: u128) -> Transaction {
    Transaction {
        sender: sender.to_string(),
        recipient: recipient.to_string(),
        amount,
        nonce: 0,
        chain_id: 1,
        public_key: None,
        signature: None,
    }
}

fn expected_hash(payload: &str) -> String {
    hex::encode(Sha256::digest(payload.as_bytes()))
}

#[test]
fn genesis_chain() {
    let chain = Blockchain::with_genesis(1_700_000_000);
    assert_eq!(chain.len(), 1);
    assert!(chain.transactions.is_empty());
    let g = chain.get_previous_block();
    assert_eq!(g.index, 1);
    assert_eq!(g.timestamp, 1_700_000_000);
    assert_eq!(g.data, "");
    assert_eq!(g.proof, 0);
    assert_eq!(g.previous_hash, "0");
    assert!(g.transactions.is_empty());
    assert!(chain.is_chain_valid());

    let now = Blockchain::new().unwrap();
    assert_eq!(now.len(), 1);
    assert_eq!(now.get_previous_block().previous_hash, "0");
    assert!(now.is_chain_valid());
}

#[test]
fn block_hash_is_sha256_of_the_payload() {
    let chain = Blockchain::with_genesis(1_700_000_000);
    let g = chain.get_previous_block();
    assert_eq!(Blockchain::hash(g), expected_hash("1170000000000[]"));
}

#[test]
fn block_hash_payload_layout() {
    let block = Block {
        index: 7,
        timestamp: 42,
        data: "dä".to_string(),
        proof: 9,
        previous_hash: "abc".to_string(),
        transactions: vec![tx("0", "miner", 1)],
    };
    let payload = "742dä9abc[{\"sender\":\"0\",\"recipient\":\"miner\",\"amount\":1,\"nonce\":0,\"chain_id\":1,\"public_key\":null,\"signature\":null}]";
    assert_eq!(Blockchain::hash(&block), expected_hash(payload));
    assert_eq!(Blockchain::hash(&block).len(), 64);
}

#[test]
fn mining_appends_a_valid_block() {
    let mut chain = Blockchain::with_genesis(1_700_000_000);
    assert_eq!(chain.add_transaction(tx("alice", "bob", 5)), 2);
    let genesis_hash = Blockchain::hash(chain.get_previous_block());
    assert!(chain.mine_block_at("miner".to_string(), 1_700_000_100));
    assert_eq!(chain.len(), 2);
    assert!(chain.transactions.is_empty());
    let b = chain.get_previous_block();
    assert_eq!(b.index, 2);
    assert_eq!(b.timestamp, 1_700_000_100);
    assert_eq!(b.data, "");
    assert_eq!(b.previous_hash, genesis_hash);
    assert_eq!(b.transactions.len(), 2);
    assert_eq!(b.transactions[0].sender, "alice");
    let reward = &b.transactions[1];
    assert_eq!(reward.sender, "0");
    assert_eq!(reward.recipient, "miner");
    assert_eq!(reward.amount, 1);
    assert_eq!(reward.nonce, 0);
    assert_eq!(reward.chain_id, 1);
    assert!(reward.public_key.is_none() && reward.signature.is_none());
    assert!(Blockchain::hash(b).starts_with("0000"));
    assert!(chain.is_chain_valid());

    assert!(chain.mine_block_at("miner".to_string(), 1_700_000_200));
    assert_eq!(chain.len(), 3);
    assert!(chain.is_chain_valid());
    assert_eq!(chain.add_transaction(tx("carol", "dave", 1)), 4);
}

#[test]
fn proof_of_work_finds_the_smallest_proof() {
    let mut chain = Blockchain::with_genesis(5);
    chain.add_transaction(tx("alice", "bob", 5));
    let block = chain.proof_of_work_at(77).unwrap();
    assert_eq!(block.index, 2);
    assert_eq!(block.timestamp, 77);
    assert_eq!(block.transactions.len(), 1);
    assert!(Blockchain::hash(&block).starts_with("0000"));
    let mut probe = block.clone();
    for p in 0..block.proof {
        probe.proof = p;
        assert!(!Blockchain::hash(&probe).starts_with("0000"));
    }
    let again = chain.proof_of_work().unwrap().unwrap();
    assert!(Blockchain::hash(&again).starts_with("0000"));
}

#[test]
fn validation_detects_tampering() {
    let mut chain = Blockchain::with_genesis(1);
    assert!(chain.mine_block_at("miner".to_string(), 2));
    assert!(chain.is_chain_valid());

    let mut broken_link = chain.clone();
    broken_link.chain[1].previous_hash = "0".to_string();
    assert!(!broken_link.is_chain_valid());

    let mut edited = chain.clone();
    edited.chain[1].transactions[0].recipient = "thief".to_string();
    assert!(!edited.is_chain_valid());

    let mut two_rewards = chain.clone();
    two_rewards.chain[1].transactions.push(tx("0", "thief", 1));
    assert!(!two_rewards.is_chain_valid());

    // a genesis block is never checked
    let mut odd_genesis = chain.clone();
    odd_genesis.chain[0].data = "anything".to_string();
    odd_genesis.chain[1].previous_hash = Blockchain::hash(&odd_genesis.chain[0]);
    assert_eq!(odd_genesis.is_chain_valid(), Blockchain::hash(&odd_genesis.chain[1]).starts_with("0000"));
}

#[test]
fn reward_must_pay_exactly_one() {
    let mut chain = Blockchain::with_genesis(1);
    chain.transactions.push(tx("alice", "bob", 3));
    // a block whose reward pays 2 is rejected even with a valid proof
    let mut block = chain.proof_of_work_at(9).unwrap();
    block.transactions.push(tx("0", "miner", 2));
    let mut p = 0u64;
    loop {
        block.proof = p;
        if Blockchain::hash(&block).starts_with("0000") {
            break;
        }
        p += 1;
    }
    chain.chain.push(block);
    assert!(!chain.is_chain_valid());
}

#[test]
fn admission_rules() {
    let mut chain = Blockchain::with_genesis(1);
    assert_eq!(check_transaction(&tx(" ", "bob", 1)), TxCheck::EmptyParty);
    assert_eq!(check_transaction(&tx("alice", "\t\n", 1)), TxCheck::EmptyParty);
    assert_eq!(check_transaction(&tx("alice", "bob", 0)), TxCheck::ZeroAmount);
    assert_eq!(check_transaction(&tx("", "bob", 0)), TxCheck::EmptyParty);
    assert_eq!(check_transaction(&tx("0", "bob", 1)), TxCheck::CoinbaseSender);
    assert_eq!(check_transaction(&tx("0", "bob", 0)), TxCheck::ZeroAmount);
    assert_eq!(check_transaction(&tx(" 0", "bob", 1)), TxCheck::Accepted);
    assert_eq!(check_transaction(&tx("alice", "bob", 1)), TxCheck::Accepted);

    assert_eq!(chain.add_transaction(tx(" ", "bob", 1)), 2);
    assert_eq!(chain.add_transaction(tx("alice", "bob", 0)), 2);
    assert_eq!(chain.add_transaction(tx("0", "bob", 1)), 2);
    assert!(chain.transactions.is_empty());
    assert_eq!(chain.add_transaction(tx("alice", "bob", 1)), 2);
    assert_eq!(chain.transactions.len(), 1);
    assert_eq!(chain.transactions[0].sender, "alice");
    assert_eq!(chain.len(), 1);
}

#[test]
fn hash_from_fields_matches_block_hash() {
    let txs = vec![tx("0", "miner", 1), tx("alice", "bob", u128::MAX)];
    let block = Block {
        index: 3,
        timestamp: 11,
        data: "x".to_string(),
        proof: 12,
        previous_hash: "00ab".to_string(),
        transactions: txs.clone(),
    };
    let h = blockchain::blockchain::hash_from_fields(3, 11, "x", 12, "00ab", &txs);
    assert_eq!(h, Blockchain::hash(&block));
    assert_eq!(h.len(), 64);
    assert!(h.chars().all(|c| c.is_ascii_hexdigit() && !c.is_ascii_uppercase()));
}
