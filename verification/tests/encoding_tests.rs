use blockchain::encoding::{
    decode_hex, is_zero_text, push_decimal, push_json_string, push_text, to_hex_lower,
    trims_to_empty,
};
use blockchain::transaction::{push_transactions_json, transaction_message, Transaction};

fn decimal(n: u128) -> String {
    let mut out = Vec::new();
    push_decimal(n, &mut out);
    String::from_utf8(out).unwrap()
}

fn json(s: &str) -> String {
    let mut out = Vec::new();
    push_json_string(s, &mut out);
    String::from_utf8(out).unwrap()
}

#[test]
fn decimal_matches_display() {
    for n in [0u128, 7, 10, 99, 100, 12345, u64::MAX as u128, u128::MAX] {
        assert_eq!(decimal(n), n.to_string());
    }
    let mut out = b"x".to_vec();
    push_decimal(45, &mut out);
    assert_eq!(out, b"x45".to_vec());
}

#[test]
fn hex_is_lower_case_two_digits_per_byte() {
    assert_eq!(to_hex_lower(&[]), "");
    assert_eq!(to_hex_lower(&[0x00, 0x0f, 0xa0, 0xff, 0x12]), "000fa0ff12");
    assert_eq!(to_hex_lower(&[0xde, 0xad, 0xbe, 0xef]), hex::encode([0xde, 0xad, 0xbe, 0xef]));
}

#[test]
fn hex_decoding_accepts_both_cases_and_rejects_the_rest() {
    assert_eq!(decode_hex(b"00ffA0"), Some(vec![0x00, 0xff, 0xa0]));
    assert_eq!(decode_hex(b""), Some(vec![]));
    assert_eq!(decode_hex(b"abc"), None);
    assert_eq!(decode_hex(b"zz"), None);
    assert_eq!(decode_hex(b"0g"), None);
    assert_eq!(decode_hex(b"DeAdBeEf"), hex::decode("DeAdBeEf").ok());
}

#[test]
fn json_strings_escape_like_serde_json() {
    let samples = [
        "plain",
        "",
        "quote\" and backslash\\",
        "tab\tnew\nline\rcr",
        "\u{8}\u{c}\u{1}\u{1f}\u{7f}",
        "ñandú €",
        "/slash/",
    ];
    for s in samples {
        assert_eq!(json(s), serde_json::to_string(s).unwrap());
    }
    assert_eq!(json("a\u{1}b"), "\"a\\u0001b\"");
}

#[test]
fn raw_text_is_appended_as_utf8() {
    let mut out = vec![1u8];
    push_text("é0", &mut out);
    assert_eq!(out, vec![1u8, 0xc3, 0xa9, b'0']);
}

#[test]
fn blank_text_is_only_white_space() {
    assert!(trims_to_empty(""));
    assert!(trims_to_empty(" \t\n\r\u{a0}\u{3000}\u{2028}"));
    assert!(!trims_to_empty(" a "));
    assert!(!trims_to_empty("\u{200b}"));
    for s in ["", "  ", "x", " \u{85} ", "\u{1680}"] {
        assert_eq!(trims_to_empty(s), s.trim().is_empty());
    }
}

#[test]
fn zero_text_is_exactly_zero() {
    assert!(is_zero_text("0"));
    assert!(!is_zero_text("00"));
    assert!(!is_zero_text(" 0"));
    assert!(!is_zero_text(""));
    assert!(!is_zero_text("O"));
}

fn sample_transaction() -> Transaction {
    Transaction {
        sender: "alice".to_string(),
        recipient: "bob \"b\"".to_string(),
        amount: 340282366920938463463374607431768211455,
        nonce: 3,
        chain_id: 1,
        public_key: Some("02ab".to_string()),
        signature: None,
    }
}

#[test]
fn transactions_serialize_in_field_order() {
    let mut out = Vec::new();
    push_transactions_json(&vec![], &mut out);
    assert_eq!(out, b"[]".to_vec());

    let t = sample_transaction();
    let mut out = Vec::new();
    push_transactions_json(&vec![t.clone(), t], &mut out);
    let one = "{\"sender\":\"alice\",\"recipient\":\"bob \\\"b\\\"\",\"amount\":340282366920938463463374607431768211455,\"nonce\":3,\"chain_id\":1,\"public_key\":\"02ab\",\"signature\":null}";
    assert_eq!(String::from_utf8(out).unwrap(), format!("[{},{}]", one, one));
}

#[test]
fn transaction_message_is_sorted_json_of_economic_fields() {
    let m = transaction_message("alice", "bob", 10, 1, 1);
    assert_eq!(
        String::from_utf8(m.clone()).unwrap(),
        "{\"amount\":10,\"chain_id\":1,\"nonce\":1,\"recipient\":\"bob\",\"sender\":\"alice\"}"
    );
    let mut map = serde_json::Map::new();
    map.insert("sender".to_string(), serde_json::Value::from("alice"));
    map.insert("recipient".to_string(), serde_json::Value::from("bob"));
    map.insert("amount".to_string(), serde_json::Value::from(10u64));
    map.insert("nonce".to_string(), serde_json::Value::from(1u64));
    map.insert("chain_id".to_string(), serde_json::Value::from(1u32));
    assert_eq!(m, serde_json::to_vec(&serde_json::Value::Object(map)).unwrap());
}

#[test]
fn hex_round_trip() {
    let bytes: Vec<u8> = (0u8..=255).collect();
    let text = to_hex_lower(&bytes);
    assert_eq!(decode_hex(text.as_bytes()), Some(bytes));
}

#[test]
fn messages_differ_with_their_fields() {
    let base = transaction_message("alice", "bob", 10, 1, 1);
    assert_ne!(base, transaction_message("alice", "bob", 11, 1, 1));
    assert_ne!(base, transaction_message("alice", "bob", 10, 2, 1));
    assert_ne!(base, transaction_message("alice", "bob", 10, 1, 2));
    assert_ne!(base, transaction_message("alicf", "bob", 10, 1, 1));
    assert_ne!(base, transaction_message("alice", "bo", 10, 1, 1));
    // a quote cannot move text between the two names
    assert_ne!(
        transaction_message("a", "b\",\"sender\":\"c", 1, 1, 1),
        transaction_message("c", "b", 1, 1, 1)
    );
    let parsed: serde_json::Value = serde_json::from_slice(&transaction_message("a\"b", "c\\d", 5, 6, 7)).unwrap();
    assert_eq!(parsed["sender"], "a\"b");
    assert_eq!(parsed["recipient"], "c\\d");
    assert_eq!(parsed["amount"], 5);
    assert_eq!(parsed["nonce"], 6);
    assert_eq!(parsed["chain_id"], 7);
    assert_eq!(parsed.as_object().unwrap().len(), 5);
}
