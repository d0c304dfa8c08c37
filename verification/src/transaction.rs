//! Transactions and their two canonical JSON forms: the one stored in a
//! block's hash payload and the message that a wallet signs.

use vstd::prelude::*;

use vstd::seq_lib::lemma_concat_associative;
use vstd::slice::slice_subrange;

use crate::crypto::{sha256, sha256_digest};
use crate::encoding::{
    decimal_digits, hex_lower, is_digit_byte, json_string, lemma_ascii_bytes, lemma_decimal_prefix,
    lemma_json_string_prefix, push_decimal, push_json_string, push_text, to_hex_lower, utf8,
};

verus! {

/// A transfer of `amount` from `sender` to `recipient`. A transaction whose
/// sender is "0" is a coinbase (a mining reward). `public_key` and
/// `signature` are hexadecimal text (SEC1 key, DER signature).
#[derive(Debug)]
pub struct Transaction {
    pub sender: String,
    pub recipient: String,
    pub amount: u128,
    pub nonce: u64,
    pub chain_id: u32,
    pub public_key: Option<String>,
    pub signature: Option<String>,
}

impl Clone for Transaction {
    fn clone(&self) -> (r: Self)
        ensures
            r == *self,
    {
        Transaction {
            sender: self.sender.clone(),
            recipient: self.recipient.clone(),
            amount: self.amount,
            nonce: self.nonce,
            chain_id: self.chain_id,
            public_key: clone_optional_text(&self.public_key),
            signature: clone_optional_text(&self.signature),
        }
    }
}

fn clone_optional_text(o: &Option<String>) -> (r: Option<String>)
    ensures
        r == *o,
{
    match o {
        Some(s) => Some(s.clone()),
        None => None,
    }
}

/// The sender of every coinbase transaction.
pub open spec fn is_coinbase(t: Transaction) -> bool {
    t.sender@ == seq!['0']
}

/// JSON for an optional string: the string literal, or `null`.
pub open spec fn json_optional_string(o: Option<String>) -> Seq<u8> {
    match o {
        Some(s) => json_string(s@),
        None => utf8("null"),
    }
}

/// The JSON object of a transaction as serde writes it: fields in
/// declaration order, no white space.
pub open spec fn transaction_json(t: Transaction) -> Seq<u8> {
    utf8("{\"sender\":") + json_string(t.sender@) + utf8(",\"recipient\":") + json_string(
        t.recipient@,
    ) + utf8(",\"amount\":") + decimal_digits(t.amount as nat) + utf8(",\"nonce\":")
        + decimal_digits(t.nonce as nat) + utf8(",\"chain_id\":") + decimal_digits(
        t.chain_id as nat,
    ) + utf8(",\"public_key\":") + json_optional_string(t.public_key) + utf8(",\"signature\":")
        + json_optional_string(t.signature) + utf8("}")
}

/// The elements of a JSON array of transactions, separated by commas.
pub open spec fn transactions_json_items(ts: Seq<Transaction>) -> Seq<u8>
    decreases ts.len(),
{
    if ts.len() == 0 {
        seq![]
    } else if ts.len() == 1 {
        transaction_json(ts[0])
    } else {
        transactions_json_items(ts.drop_last()) + utf8(",") + transaction_json(ts.last())
    }
}

/// The JSON array of a list of transactions.
pub open spec fn transactions_json(ts: Seq<Transaction>) -> Seq<u8> {
    utf8("[") + transactions_json_items(ts) + utf8("]")
}

/// The canonical message that is signed for a transaction: a JSON object of
/// its economic fields with the keys in alphabetical order.
pub open spec fn message_json(
    sender: Seq<char>,
    recipient: Seq<char>,
    amount: nat,
    nonce: nat,
    chain_id: nat,
) -> Seq<u8> {
    utf8("{\"amount\":") + decimal_digits(amount) + utf8(",\"chain_id\":") + decimal_digits(
        chain_id,
    ) + utf8(",\"nonce\":") + decimal_digits(nonce) + utf8(",\"recipient\":") + json_string(
        recipient,
    ) + utf8(",\"sender\":") + json_string(sender) + utf8("}")
}

fn push_json_optional_string(o: &Option<String>, out: &mut Vec<u8>)
    ensures
        final(out)@ == old(out)@ + json_optional_string(*o),
{
    match o {
        Some(s) => push_json_string(s.as_str(), out),
        None => push_text("null", out),
    }
}

/// Appends the JSON object of `t` to `out`.
pub fn push_transaction_json(t: &Transaction, out: &mut Vec<u8>)
    ensures
        final(out)@ == old(out)@ + transaction_json(*t),
{
    let ghost start = out@;
    push_text("{\"sender\":", out);
    push_json_string(t.sender.as_str(), out);
    push_text(",\"recipient\":", out);
    push_json_string(t.recipient.as_str(), out);
    push_text(",\"amount\":", out);
    push_decimal(t.amount, out);
    push_text(",\"nonce\":", out);
    push_decimal(t.nonce as u128, out);
    push_text(",\"chain_id\":", out);
    push_decimal(t.chain_id as u128, out);
    push_text(",\"public_key\":", out);
    push_json_optional_string(&t.public_key, out);
    push_text(",\"signature\":", out);
    push_json_optional_string(&t.signature, out);
    push_text("}", out);
    proof {
        assert(out@ =~= start + transaction_json(*t));
    }
}

/// Appends the JSON array of `ts` to `out`.
pub fn push_transactions_json(ts: &Vec<Transaction>, out: &mut Vec<u8>)
    ensures
        final(out)@ == old(out)@ + transactions_json(ts@),
{
    let ghost start = out@;
    push_text("[", out);
    let n = ts.len();
    let mut i: usize = 0;
    while i < n
        invariant
            n == ts@.len(),
            i <= n,
            out@ == start + utf8("[") + transactions_json_items(ts@.take(i as int)),
        decreases n - i,
    {
        let ghost before = out@;
        if i > 0 {
            push_text(",", out);
        }
        push_transaction_json(&ts[i], out);
        proof {
            let t = ts@.take(i as int + 1);
            assert(t.drop_last() =~= ts@.take(i as int));
            if i == 0 {
                assert(transactions_json_items(ts@.take(0)) =~= seq![]);
                assert(out@ =~= start + utf8("[") + transactions_json_items(t));
            } else {
                assert(out@ =~= start + utf8("[") + transactions_json_items(t));
            }
        }
        i = i + 1;
    }
    push_text("]", out);
    proof {
        assert(ts@.take(n as int) =~= ts@);
        assert(out@ =~= start + transactions_json(ts@));
    }
}

/// The canonical message that a wallet signs for a transaction and that a
/// node checks the signature against.
pub fn transaction_message(sender: &str, recipient: &str, amount: u128, nonce: u64, chain_id: u32) -> (m: Vec<u8>)
    requires
        amount <= u64::MAX,
    ensures
        m@ == message_json(sender@, recipient@, amount as nat, nonce as nat, chain_id as nat),
{
    let mut out: Vec<u8> = Vec::new();
    push_text("{\"amount\":", &mut out);
    push_decimal(amount, &mut out);
    push_text(",\"chain_id\":", &mut out);
    push_decimal(chain_id as u128, &mut out);
    push_text(",\"nonce\":", &mut out);
    push_decimal(nonce as u128, &mut out);
    push_text(",\"recipient\":", &mut out);
    push_json_string(recipient, &mut out);
    push_text(",\"sender\":", &mut out);
    push_json_string(sender, &mut out);
    push_text("}", &mut out);
    proof {
        assert(out@ =~= message_json(sender@, recipient@, amount as nat, nonce as nat, chain_id as nat));
    }
    out
}

} // verus!

verus! {

/// The address of a public key: lower-case hex of the first 20 bytes of the
/// SHA-256 digest of its encoding.
pub open spec fn address_of(public_key: Seq<u8>) -> Seq<char> {
    hex_lower(sha256_digest(public_key).take(20))
}

/// Derives the address of a public key given in its encoded form.
pub fn address_from_public_key(public_key: &[u8]) -> (address: String)
    ensures
        address@ == address_of(public_key@),
        address@.len() == 40,
{
    let digest = sha256(public_key);
    let prefix = slice_subrange(digest.as_slice(), 0, 20);
    proof {
        assert(prefix@ =~= digest@.take(20));
    }
    to_hex_lower(prefix)
}

} // verus!

verus! {

proof fn lemma_strip_prefix(p: Seq<u8>, x: Seq<u8>, y: Seq<u8>)
    requires
        p + x == p + y,
    ensures
        x == y,
{
    assert(x =~= (p + x).subrange(p.len() as int, (p + x).len() as int));
    assert(y =~= (p + y).subrange(p.len() as int, (p + y).len() as int));
}

/// A separator of the message starts with a comma, which is not a digit.
proof fn lemma_starts_with_comma(s: &str, rest: Seq<u8>)
    requires
        s@.len() > 0,
        s@[0] == ',',
        vstd::utf8::is_ascii_chars(s@),
    ensures
        (utf8(s) + rest).len() > 0,
        !is_digit_byte((utf8(s) + rest)[0]),
{
    lemma_ascii_bytes(s@);
    assert((utf8(s) + rest)[0] == utf8(s)[0]);
}

/// The message is laid out as its separators and fields in turn.
proof fn lemma_message_layout(sender: Seq<char>, recipient: Seq<char>, amount: nat, nonce: nat, chain_id: nat)
    ensures
        message_json(sender, recipient, amount, nonce, chain_id) == utf8("{\"amount\":") + (decimal_digits(amount) + (
        utf8(",\"chain_id\":") + (decimal_digits(chain_id) + (utf8(",\"nonce\":") + (decimal_digits(nonce)
            + (utf8(",\"recipient\":") + (json_string(recipient) + (utf8(",\"sender\":") + (json_string(sender)
            + utf8("}")))))))))),
{
    let l1 = utf8("{\"amount\":");
    let da = decimal_digits(amount);
    let l2 = utf8(",\"chain_id\":");
    let dc = decimal_digits(chain_id);
    let l3 = utf8(",\"nonce\":");
    let dn = decimal_digits(nonce);
    let l4 = utf8(",\"recipient\":");
    let jr = json_string(recipient);
    let l5 = utf8(",\"sender\":");
    let js = json_string(sender);
    let l6 = utf8("}");
    let r10 = js + l6;
    let r9 = l5 + r10;
    let r8 = jr + r9;
    let r7 = l4 + r8;
    let r6 = dn + r7;
    let r5 = l3 + r6;
    let r4 = dc + r5;
    let r3 = l2 + r4;
    let r2 = da + r3;
    let p2 = l1 + da;
    let p3 = p2 + l2;
    let p4 = p3 + dc;
    let p5 = p4 + l3;
    let p6 = p5 + dn;
    let p7 = p6 + l4;
    let p8 = p7 + jr;
    let p9 = p8 + l5;
    let p10 = p9 + js;
    lemma_concat_associative(p9, js, l6);
    lemma_concat_associative(p8, l5, r10);
    lemma_concat_associative(p7, jr, r9);
    lemma_concat_associative(p6, l4, r8);
    lemma_concat_associative(p5, dn, r7);
    lemma_concat_associative(p4, l3, r6);
    lemma_concat_associative(p3, dc, r5);
    lemma_concat_associative(p2, l2, r4);
    lemma_concat_associative(l1, da, r3);
    assert(message_json(sender, recipient, amount, nonce, chain_id) == p10 + l6);
}

/// The signed message determines the transaction's economic fields: two
/// messages are equal only when sender, recipient, amount, nonce and chain
/// are all equal.
pub proof fn lemma_message_injective(
    sender1: Seq<char>,
    recipient1: Seq<char>,
    amount1: nat,
    nonce1: nat,
    chain_id1: nat,
    sender2: Seq<char>,
    recipient2: Seq<char>,
    amount2: nat,
    nonce2: nat,
    chain_id2: nat,
)
    requires
        message_json(sender1, recipient1, amount1, nonce1, chain_id1) == message_json(
            sender2,
            recipient2,
            amount2,
            nonce2,
            chain_id2,
        ),
    ensures
        sender1 == sender2,
        recipient1 == recipient2,
        amount1 == amount2,
        nonce1 == nonce2,
        chain_id1 == chain_id2,
{
    reveal_strlit(",\"chain_id\":");
    reveal_strlit(",\"nonce\":");
    reveal_strlit(",\"recipient\":");
    lemma_message_layout(sender1, recipient1, amount1, nonce1, chain_id1);
    lemma_message_layout(sender2, recipient2, amount2, nonce2, chain_id2);
    let tail_s1 = json_string(sender1) + utf8("}");
    let tail_s2 = json_string(sender2) + utf8("}");
    let tail_r1 = json_string(recipient1) + (utf8(",\"sender\":") + tail_s1);
    let tail_r2 = json_string(recipient2) + (utf8(",\"sender\":") + tail_s2);
    let tail_n1 = decimal_digits(nonce1) + (utf8(",\"recipient\":") + tail_r1);
    let tail_n2 = decimal_digits(nonce2) + (utf8(",\"recipient\":") + tail_r2);
    let tail_c1 = decimal_digits(chain_id1) + (utf8(",\"nonce\":") + tail_n1);
    let tail_c2 = decimal_digits(chain_id2) + (utf8(",\"nonce\":") + tail_n2);
    let tail_a1 = decimal_digits(amount1) + (utf8(",\"chain_id\":") + tail_c1);
    let tail_a2 = decimal_digits(amount2) + (utf8(",\"chain_id\":") + tail_c2);
    lemma_strip_prefix(utf8("{\"amount\":"), tail_a1, tail_a2);
    lemma_starts_with_comma(",\"chain_id\":", tail_c1);
    lemma_starts_with_comma(",\"chain_id\":", tail_c2);
    lemma_decimal_prefix(amount1, amount2, utf8(",\"chain_id\":") + tail_c1, utf8(",\"chain_id\":") + tail_c2);
    lemma_strip_prefix(utf8(",\"chain_id\":"), tail_c1, tail_c2);
    lemma_starts_with_comma(",\"nonce\":", tail_n1);
    lemma_starts_with_comma(",\"nonce\":", tail_n2);
    lemma_decimal_prefix(chain_id1, chain_id2, utf8(",\"nonce\":") + tail_n1, utf8(",\"nonce\":") + tail_n2);
    lemma_strip_prefix(utf8(",\"nonce\":"), tail_n1, tail_n2);
    lemma_starts_with_comma(",\"recipient\":", tail_r1);
    lemma_starts_with_comma(",\"recipient\":", tail_r2);
    lemma_decimal_prefix(nonce1, nonce2, utf8(",\"recipient\":") + tail_r1, utf8(",\"recipient\":") + tail_r2);
    lemma_strip_prefix(utf8(",\"recipient\":"), tail_r1, tail_r2);
    lemma_json_string_prefix(recipient1, recipient2, utf8(",\"sender\":") + tail_s1, utf8(",\"sender\":") + tail_s2);
    lemma_strip_prefix(utf8(",\"sender\":"), tail_s1, tail_s2);
    lemma_json_string_prefix(sender1, sender2, utf8("}"), utf8("}"));
}

} // verus!

verus! {

/// The texts of an optional string.
pub open spec fn optional_text(o: Option<String>) -> Option<Seq<char>> {
    match o {
        Some(s) => Some(s@),
        None => None,
    }
}

/// Two transactions with the same field values, texts compared as text.
pub open spec fn same_transaction(a: Transaction, b: Transaction) -> bool {
    &&& a.sender@ == b.sender@
    &&& a.recipient@ == b.recipient@
    &&& a.amount == b.amount
    &&& a.nonce == b.nonce
    &&& a.chain_id == b.chain_id
    &&& optional_text(a.public_key) == optional_text(b.public_key)
    &&& optional_text(a.signature) == optional_text(b.signature)
}

/// An optional string's JSON, followed by anything, can be split back apart.
proof fn lemma_optional_string_prefix(x: Option<String>, y: Option<String>, r1: Seq<u8>, r2: Seq<u8>)
    requires
        json_optional_string(x) + r1 == json_optional_string(y) + r2,
    ensures
        optional_text(x) == optional_text(y),
        r1 == r2,
{
    reveal_strlit("null");
    lemma_ascii_bytes("null"@);
    let m1 = json_optional_string(x) + r1;
    let m2 = json_optional_string(y) + r2;
    match (x, y) {
        (Some(u), Some(v)) => {
            lemma_json_string_prefix(u@, v@, r1, r2);
        },
        (None, None) => {
            lemma_strip_prefix(utf8("null"), r1, r2);
        },
        (Some(u), None) => {
            assert(m1[0] == json_string(u@)[0]);
            assert(m2[0] == utf8("null")[0]);
        },
        (None, Some(v)) => {
            assert(m1[0] == utf8("null")[0]);
            assert(m2[0] == json_string(v@)[0]);
        },
    }
}

/// The JSON of a transaction, laid out piece by piece, followed by `rest`.
proof fn lemma_transaction_layout(t: Transaction, rest: Seq<u8>)
    ensures
        transaction_json(t) + rest == utf8("{\"sender\":") + (json_string(t.sender@) + (utf8(",\"recipient\":") + (
        json_string(t.recipient@) + (utf8(",\"amount\":") + (decimal_digits(t.amount as nat) + (utf8(",\"nonce\":") + (
        decimal_digits(t.nonce as nat) + (utf8(",\"chain_id\":") + (decimal_digits(t.chain_id as nat) + (utf8(
            ",\"public_key\":",
        ) + (json_optional_string(t.public_key) + (utf8(",\"signature\":") + (json_optional_string(t.signature)
            + (utf8("}") + rest)))))))))))))),
{
    let l1 = utf8("{\"sender\":");
    let js = json_string(t.sender@);
    let l2 = utf8(",\"recipient\":");
    let jr = json_string(t.recipient@);
    let l3 = utf8(",\"amount\":");
    let da = decimal_digits(t.amount as nat);
    let l4 = utf8(",\"nonce\":");
    let dn = decimal_digits(t.nonce as nat);
    let l5 = utf8(",\"chain_id\":");
    let dc = decimal_digits(t.chain_id as nat);
    let l6 = utf8(",\"public_key\":");
    let op = json_optional_string(t.public_key);
    let l7 = utf8(",\"signature\":");
    let os = json_optional_string(t.signature);
    let l8 = utf8("}");
    let r15 = l8 + rest;
    let r14 = os + r15;
    let r13 = l7 + r14;
    let r12 = op + r13;
    let r11 = l6 + r12;
    let r10 = dc + r11;
    let r9 = l5 + r10;
    let r8 = dn + r9;
    let r7 = l4 + r8;
    let r6 = da + r7;
    let r5 = l3 + r6;
    let r4 = jr + r5;
    let r3 = l2 + r4;
    let r2 = js + r3;
    let p2 = l1 + js;
    let p3 = p2 + l2;
    let p4 = p3 + jr;
    let p5 = p4 + l3;
    let p6 = p5 + da;
    let p7 = p6 + l4;
    let p8 = p7 + dn;
    let p9 = p8 + l5;
    let p10 = p9 + dc;
    let p11 = p10 + l6;
    let p12 = p11 + op;
    let p13 = p12 + l7;
    let p14 = p13 + os;
    let p15 = p14 + l8;
    lemma_concat_associative(p14, l8, rest);
    lemma_concat_associative(p13, os, r15);
    lemma_concat_associative(p12, l7, r14);
    lemma_concat_associative(p11, op, r13);
    lemma_concat_associative(p10, l6, r12);
    lemma_concat_associative(p9, dc, r11);
    lemma_concat_associative(p8, l5, r10);
    lemma_concat_associative(p7, dn, r9);
    lemma_concat_associative(p6, l4, r8);
    lemma_concat_associative(p5, da, r7);
    lemma_concat_associative(p4, l3, r6);
    lemma_concat_associative(p3, jr, r5);
    lemma_concat_associative(p2, l2, r4);
    lemma_concat_associative(l1, js, r3);
    assert(transaction_json(t) == p15);
}

/// The JSON of a transaction can be read back: whatever follows it, equal
/// bytes come only from transactions with the same fields (each optional
/// string either absent on both sides or the same text), followed by the
/// same rest. In particular the JSON is injective: different transactions
/// hash into different payloads.
#[verifier::rlimit(60)]
#[verifier::spinoff_prover]
pub proof fn lemma_transaction_json_readable(t1: Transaction, t2: Transaction, rest1: Seq<u8>, rest2: Seq<u8>)
    requires
        transaction_json(t1) + rest1 == transaction_json(t2) + rest2,
    ensures
        same_transaction(t1, t2),
        rest1 == rest2,
{
    reveal_strlit(",\"nonce\":");
    reveal_strlit(",\"chain_id\":");
    reveal_strlit(",\"public_key\":");
    lemma_transaction_layout(t1, rest1);
    lemma_transaction_layout(t2, rest2);
    let l8a = utf8("}") + rest1;
    let l8b = utf8("}") + rest2;
    let osa = json_optional_string(t1.signature) + l8a;
    let osb = json_optional_string(t2.signature) + l8b;
    let l7a = utf8(",\"signature\":") + osa;
    let l7b = utf8(",\"signature\":") + osb;
    let opa = json_optional_string(t1.public_key) + l7a;
    let opb = json_optional_string(t2.public_key) + l7b;
    let l6a = utf8(",\"public_key\":") + opa;
    let l6b = utf8(",\"public_key\":") + opb;
    let dca = decimal_digits(t1.chain_id as nat) + l6a;
    let dcb = decimal_digits(t2.chain_id as nat) + l6b;
    let l5a = utf8(",\"chain_id\":") + dca;
    let l5b = utf8(",\"chain_id\":") + dcb;
    let dna = decimal_digits(t1.nonce as nat) + l5a;
    let dnb = decimal_digits(t2.nonce as nat) + l5b;
    let l4a = utf8(",\"nonce\":") + dna;
    let l4b = utf8(",\"nonce\":") + dnb;
    let daa = decimal_digits(t1.amount as nat) + l4a;
    let dab = decimal_digits(t2.amount as nat) + l4b;
    let l3a = utf8(",\"amount\":") + daa;
    let l3b = utf8(",\"amount\":") + dab;
    let jra = json_string(t1.recipient@) + l3a;
    let jrb = json_string(t2.recipient@) + l3b;
    let l2a = utf8(",\"recipient\":") + jra;
    let l2b = utf8(",\"recipient\":") + jrb;
    let jsa = json_string(t1.sender@) + l2a;
    let jsb = json_string(t2.sender@) + l2b;
    lemma_strip_prefix(utf8("{\"sender\":"), jsa, jsb);
    lemma_json_string_prefix(t1.sender@, t2.sender@, l2a, l2b);
    lemma_strip_prefix(utf8(",\"recipient\":"), jra, jrb);
    lemma_json_string_prefix(t1.recipient@, t2.recipient@, l3a, l3b);
    lemma_strip_prefix(utf8(",\"amount\":"), daa, dab);
    lemma_starts_with_comma(",\"nonce\":", dna);
    lemma_starts_with_comma(",\"nonce\":", dnb);
    lemma_decimal_prefix(t1.amount as nat, t2.amount as nat, l4a, l4b);
    lemma_strip_prefix(utf8(",\"nonce\":"), dna, dnb);
    lemma_starts_with_comma(",\"chain_id\":", dca);
    lemma_starts_with_comma(",\"chain_id\":", dcb);
    lemma_decimal_prefix(t1.nonce as nat, t2.nonce as nat, l5a, l5b);
    lemma_strip_prefix(utf8(",\"chain_id\":"), dca, dcb);
    lemma_starts_with_comma(",\"public_key\":", opa);
    lemma_starts_with_comma(",\"public_key\":", opb);
    lemma_decimal_prefix(t1.chain_id as nat, t2.chain_id as nat, l6a, l6b);
    lemma_strip_prefix(utf8(",\"public_key\":"), opa, opb);
    lemma_optional_string_prefix(t1.public_key, t2.public_key, l7a, l7b);
    lemma_strip_prefix(utf8(",\"signature\":"), osa, osb);
    lemma_optional_string_prefix(t1.signature, t2.signature, l8a, l8b);
    lemma_strip_prefix(utf8("}"), rest1, rest2);
}

} // verus!
