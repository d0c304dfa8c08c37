use blockchain::blockchain::{Blockchain, TxCheck};
use blockchain::node::{verify_transaction_signature, Node, SignatureRejection};
use blockchain::transaction::{address_from_public_key, transaction_message, Transaction};
use blockchain::wallet::Wallet;
use sha2::{Digest, Sha256};

// The secret scalar 1: its public key is the generator of secp256k1.
const ONE_HEX: &str = "0000000000000000000000000000000000000000000000000000000000000001";
const GENERATOR_COMPRESSED: &str = "0279be667ef9dcbbac55a06295ce870b07029bfcdb2dce28d959f2815b16f81798";

fn plain_tx(sender: &str, amount: u128) -> Transaction {
    Transaction {
        sender: sender.to_string(),
        recipient: "bob".to_string(),
        amount,
        nonce: 1,
        chain_id: 1,
        public_key: None,
        signature: None,
    }
}

#[test]
fn wallet_from_known_key() {
    let w = Wallet::from_private_key_hex(ONE_HEX).unwrap();
    assert_eq!(w.private_key, ONE_HEX);
    assert_eq!(w.public_key, GENERATOR_COMPRESSED);
    let pk = hex::decode(GENERATOR_COMPRESSED).unwrap();
    let digest = Sha256::digest(&pk);
    assert_eq!(w.address, hex::encode(&digest[..20]));
    assert_eq!(address_from_public_key(&pk), w.address);

    let upper = Wallet::from_private_key_hex(&ONE_HEX.to_uppercase()).unwrap();
    assert_eq!(upper.private_key, ONE_HEX.to_uppercase());
    assert_eq!(upper.address, w.address);
}

#[test]
fn wallet_key_errors() {
    match Wallet::from_private_key_hex("xyz") {
        Err(e) => assert_eq!(e, "clave privada hex inválida"),
        Ok(_) => panic!("accepted bad hex"),
    }
    let zero = "00".repeat(32);
    match Wallet::from_private_key_hex(&zero) {
        Err(e) => assert_eq!(e, "clave privada inválida"),
        Ok(_) => panic!("accepted the zero key"),
    }
    let order = "fffffffffffffffffffffffffffffffebaaedce6af48a03bbfd25e8cd0364141";
    assert!(Wallet::from_private_key_hex(order).is_err());
    assert!(Wallet::try_sign_transaction_from_private_key("00", "bob".to_string(), 1, 1, 1).is_none());
    assert!(Wallet::try_sign_transaction_from_private_key(ONE_HEX, "bob".to_string(), u128::MAX, 1, 1).is_none());
    match Wallet::try_sign_transaction_from_private_key(&zero, "bob".to_string(), u128::MAX, 1, 1) {
        Some(Err(e)) => assert_eq!(e, "clave privada inválida"),
        _ => panic!("expected a key error"),
    }
}

#[test]
fn signed_transactions_verify() {
    let w = Wallet::from_private_key_hex(ONE_HEX).unwrap();
    let t = w.create_signed_transaction("bob".to_string(), 10, 1, 1).unwrap();
    assert_eq!(t.sender, w.address);
    assert_eq!(t.recipient, "bob");
    assert_eq!(t.amount, 10);
    assert_eq!(t.public_key.as_deref(), Some(GENERATOR_COMPRESSED));
    let sig = t.signature.clone().unwrap();
    assert!(sig.starts_with("30"));
    // deterministic signatures
    let again = w.create_signed_transaction("bob".to_string(), 10, 1, 1).unwrap();
    assert_eq!(again.signature, t.signature);
    assert!(verify_transaction_signature(&t, GENERATOR_COMPRESSED, &sig));

    let via_hex = Wallet::sign_transaction_from_private_key(ONE_HEX, "bob".to_string(), 10, 1, 1).unwrap();
    assert_eq!(via_hex.signature, t.signature);

    // the signature covers the economic fields
    let mut changed = t.clone();
    changed.amount = 11;
    assert!(!verify_transaction_signature(&changed, GENERATOR_COMPRESSED, &sig));
    // wrong key for the sender
    let other = Wallet::new().unwrap();
    assert!(!verify_transaction_signature(&t, &other.public_key, &sig));
    // malformed key and signature
    assert!(!verify_transaction_signature(&t, "zz", &sig));
    assert!(!verify_transaction_signature(&t, "02ff", &sig));
    assert!(!verify_transaction_signature(&t, GENERATOR_COMPRESSED, "3000"));
    assert!(!verify_transaction_signature(&t, GENERATOR_COMPRESSED, "q"));
    // a signature by another key
    let forged = other.create_signed_transaction("bob".to_string(), 10, 1, 1).unwrap();
    assert!(!verify_transaction_signature(&t, GENERATOR_COMPRESSED, forged.signature.as_ref().unwrap()));

    // the message that was signed
    let msg = transaction_message(&w.address, "bob", 10, 1, 1);
    assert!(String::from_utf8(msg).unwrap().starts_with("{\"amount\":10,"));
}

#[test]
fn fresh_wallets_differ_and_sign() {
    let a = Wallet::new().unwrap();
    let b = Wallet::new().unwrap();
    assert_ne!(a.private_key, b.private_key);
    assert_eq!(a.private_key.len(), 64);
    assert_eq!(a.public_key.len(), 66);
    assert_eq!(a.address.len(), 40);
    let t = a.create_signed_transaction("x".to_string(), 1, 0, 1).unwrap();
    assert!(verify_transaction_signature(&t, &a.public_key, t.signature.as_ref().unwrap()));
}

#[test]
fn node_admission() {
    let mut node = Node::new("127.0.0.1:8000".to_string(), vec![], Blockchain::with_genesis(1));
    assert_eq!(node.add_transaction(plain_tx("alice", 5)), Err(SignatureRejection::MissingSignature));
    let mut no_key = plain_tx("alice", 5);
    no_key.signature = Some("30".to_string());
    assert_eq!(node.add_transaction(no_key), Err(SignatureRejection::MissingPublicKey));

    let w = Wallet::from_private_key_hex(ONE_HEX).unwrap();
    let good = w.create_signed_transaction("bob".to_string(), 7, 2, 1).unwrap();
    let mut bad = good.clone();
    bad.nonce = 3;
    assert_eq!(node.add_transaction(bad), Err(SignatureRejection::InvalidSignature));
    assert!(node.get_blockchain().transactions.is_empty());

    assert_eq!(node.add_transaction(good), Ok(TxCheck::Accepted));
    assert_eq!(node.get_blockchain().transactions.len(), 1);

    // a coinbase needs no signature, and the chain refuses it
    assert_eq!(node.add_transaction(plain_tx("0", 1)), Ok(TxCheck::CoinbaseSender));
    // a signed transaction with a zero amount passes the signature check only
    let zero = w.create_signed_transaction("bob".to_string(), 0, 2, 1).unwrap();
    assert_eq!(node.add_transaction(zero), Ok(TxCheck::ZeroAmount));
    assert_eq!(node.get_blockchain().transactions.len(), 1);

    // amounts beyond the message format: the signature check cannot run
    let mut huge = w.create_signed_transaction("bob".to_string(), 7, 2, 1).unwrap();
    huge.amount = u128::MAX;
    assert_eq!(node.try_add_transaction(huge), None);
    let mut huge_unsigned = plain_tx("alice", u128::MAX);
    huge_unsigned.signature = Some("30".to_string());
    huge_unsigned.public_key = Some("02".to_string());
    assert_eq!(node.try_add_transaction(huge_unsigned), Some(Err(SignatureRejection::InvalidSignature)));
}

#[test]
fn node_neighbours() {
    let mut node = Node::new(
        "a".to_string(),
        vec!["b".to_string(), "c".to_string(), "b".to_string()],
        Blockchain::with_genesis(1),
    );
    let mut n = node.neighbor_nodes();
    n.sort();
    assert_eq!(n, vec!["b".to_string(), "c".to_string()]);
    assert!(!node.connect_node("d".to_string(), false));
    assert_eq!(node.neighbor_nodes().len(), 2);
    assert!(node.connect_node("d".to_string(), true));
    assert!(node.connect_node("b".to_string(), true));
    let mut n = node.neighbor_nodes();
    n.sort();
    assert_eq!(n, vec!["b".to_string(), "c".to_string(), "d".to_string()]);
}

#[test]
fn consensus_adopts_longest_valid_chain() {
    let mut node = Node::new("a".to_string(), vec![], Blockchain::with_genesis(1));
    assert_eq!(node.mine_block("a".to_string()), Ok(true));
    assert_eq!(node.get_blockchain().len(), 2);

    let mut longer = Blockchain::with_genesis(2);
    longer.mine_block_at("x".to_string(), 3);
    longer.mine_block_at("x".to_string(), 4);
    let mut longest_invalid = longer.clone();
    longest_invalid.mine_block_at("y".to_string(), 5);
    longest_invalid.chain[3].previous_hash = "bad".to_string();
    let shorter = Blockchain::with_genesis(9);

    assert!(!node.resolve_conflicts(vec![shorter.clone(), longest_invalid.clone()]));
    assert_eq!(node.get_blockchain().len(), 2);

    let mut same_len_later = longer.clone();
    same_len_later.chain[1].data = "different".to_string();
    assert!(node.resolve_conflicts(vec![shorter, longer.clone(), longest_invalid, same_len_later]));
    let adopted = node.get_blockchain();
    assert_eq!(adopted.len(), 3);
    assert_eq!(adopted.chain[1].data, "");
    assert_eq!(Blockchain::hash(&adopted.chain[2]), Blockchain::hash(&longer.chain[2]));
    assert!(adopted.is_chain_valid());

    assert!(!node.resolve_conflicts(vec![]));
}

#[test]
fn wallet_restores_from_exported_key() {
    let w = Wallet::new().unwrap();
    let restored = Wallet::from_private_key_hex(&w.private_key).unwrap();
    assert_eq!(restored.public_key, w.public_key);
    assert_eq!(restored.address, w.address);
    let t = restored.create_signed_transaction("bob".to_string(), 3, 4, 1).unwrap();
    let u = w.create_signed_transaction("bob".to_string(), 3, 4, 1).unwrap();
    assert_eq!(t.signature, u.signature);
}

#[test]
fn wallet_from_secret_bytes() {
    let mut one = vec![0u8; 32];
    one[31] = 1;
    let w = Wallet::from_secret_bytes(one).unwrap();
    assert_eq!(w.private_key, ONE_HEX);
    assert_eq!(w.public_key, GENERATOR_COMPRESSED);
    assert_eq!(w.address, Wallet::from_private_key_hex(ONE_HEX).unwrap().address);

    assert!(Wallet::from_secret_bytes(vec![0u8; 32]).is_none());
    assert!(Wallet::from_secret_bytes(vec![1u8; 31]).is_none());
    assert!(Wallet::from_secret_bytes(vec![1u8; 33]).is_none());
    let order = hex::decode("fffffffffffffffffffffffffffffffebaaedce6af48a03bbfd25e8cd0364141").unwrap();
    assert!(Wallet::from_secret_bytes(order).is_none());
    let below = hex::decode("fffffffffffffffffffffffffffffffebaaedce6af48a03bbfd25e8cd0364140").unwrap();
    let w = Wallet::from_secret_bytes(below).unwrap();
    assert!(w.public_key.starts_with("02") || w.public_key.starts_with("03"));

    for _ in 0..8 {
        let w = Wallet::new().unwrap();
        assert!(w.public_key.starts_with("02") || w.public_key.starts_with("03"));
        assert_eq!(w.private_key.len(), 64);
        assert!(w.private_key.chars().all(|c| c.is_ascii_hexdigit() && !c.is_ascii_uppercase()));
    }
}

#[test]
fn signing_from_hex_equals_restoring_then_signing() {
    let restored = Wallet::from_private_key_hex(ONE_HEX).unwrap();
    let a = restored.create_signed_transaction("bob".to_string(), 9, 8, 7).unwrap();
    let b = Wallet::sign_transaction_from_private_key(ONE_HEX, "bob".to_string(), 9, 8, 7).unwrap();
    assert_eq!(a.sender, b.sender);
    assert_eq!(a.public_key, b.public_key);
    assert_eq!(a.signature, b.signature);
    match Wallet::sign_transaction_from_private_key("zz", "bob".to_string(), 9, 8, 7) {
        Err(e) => assert_eq!(e, "clave privada hex inválida"),
        Ok(_) => panic!("accepted bad hex"),
    }
    let c = Wallet::try_sign_transaction_from_private_key(ONE_HEX, "bob".to_string(), 9, 8, 7)
        .unwrap()
        .unwrap();
    assert_eq!(c.signature, a.signature);
}
