//! Wallets: a secp256k1 key pair, its address, and signed transactions.

use vstd::prelude::*;
use vstd::string::StringExecFns;
use vstd::utf8::encode_utf8;

use crate::crypto::{
    compressed_public_key, ecdsa_sign, ecdsa_signature, public_key_of, random_key_bytes,
    secret_key_parses, secret_key_valid,
};
use crate::encoding::{decode_hex, hex_decode, hex_digit, hex_lower, lemma_hex_roundtrip, to_hex_lower};
use crate::node::signature_accepted;
use crate::transaction::{address_from_public_key, address_of, message_json, transaction_message, Transaction};

verus! {

/// A secret key: 32 bytes that are a valid secp256k1 scalar. Only this
/// module makes one, so every value is valid.
pub struct SecretKey {
    bytes: Vec<u8>,
}

impl View for SecretKey {
    type V = Seq<u8>;

    closed spec fn view(&self) -> Seq<u8> {
        self.bytes@
    }
}

impl SecretKey {
    #[verifier::type_invariant]
    spec fn is_valid(&self) -> bool {
        self.bytes@.len() == 32 && secret_key_valid(self.bytes@)
    }
}

/// A wallet: its secret key and public key in lower-case hex, its address
/// (derived from the public key), and the secret key it signs with.
pub struct Wallet {
    pub private_key: String,
    pub public_key: String,
    pub address: String,
    pub signing_key: SecretKey,
}

/// The key pair and address of `w` are those of the valid 32-byte secret
/// `secret`; the public key is the 33-byte compressed point in hex (66
/// digits, starting with "02" or "03") and the address has 40 digits.
pub open spec fn derived_from(w: Wallet, secret: Seq<u8>) -> bool {
    &&& secret.len() == 32
    &&& secret_key_valid(secret)
    &&& w.signing_key@ == secret
    &&& public_key_of(secret).len() == 33
    &&& (public_key_of(secret)[0] == 2 || public_key_of(secret)[0] == 3)
    &&& w.public_key@ == hex_lower(public_key_of(secret))
    &&& w.address@ == address_of(public_key_of(secret))
    &&& w.public_key@.len() == 66
    &&& w.public_key@[0] == '0'
    &&& (w.public_key@[1] == '2' || w.public_key@[1] == '3')
    &&& w.address@.len() == 40
}

/// The secret key (32 bytes) given in `private_key_hex`, when it decodes.
pub open spec fn secret_from_hex(private_key_hex: Seq<char>) -> Option<Seq<u8>> {
    hex_decode(encode_utf8(private_key_hex))
}

/// `private_key_hex` decodes to a valid secret key.
pub open spec fn private_key_usable(private_key_hex: Seq<char>) -> bool {
    match secret_from_hex(private_key_hex) {
        Some(secret) => secret_key_valid(secret),
        None => false,
    }
}

/// The message that a wallet with secret `secret` and address `sender` signs.
pub open spec fn signed_message(sender: Seq<char>, recipient: Seq<char>, amount: u128, nonce: u64, chain_id: u32) -> Seq<u8> {
    message_json(sender, recipient, amount as nat, nonce as nat, chain_id as nat)
}

/// The transaction that a wallet with secret `secret`, address `sender`
/// and these fields signs.
pub open spec fn is_signed_transaction(
    t: Transaction,
    secret: Seq<u8>,
    sender: Seq<char>,
    recipient: Seq<char>,
    amount: u128,
    nonce: u64,
    chain_id: u32,
) -> bool {
    &&& t.sender@ == sender
    &&& t.recipient@ == recipient
    &&& t.amount == amount
    &&& t.nonce == nonce
    &&& t.chain_id == chain_id
    &&& t.public_key matches Some(pk) && pk@ == hex_lower(public_key_of(secret))
    &&& t.signature matches Some(sig) && ecdsa_signature(
        secret,
        signed_message(sender, recipient, amount, nonce, chain_id),
    ) matches Some(der) && sig@ == hex_lower(der)
}

/// Signing with the secret in `private_key_hex` works out for these
/// fields: where the key is usable, the amount fits the message's number
/// format and the signature exists.
pub open spec fn signing_defined(private_key_hex: Seq<char>, recipient: Seq<char>, amount: u128, nonce: u64, chain_id: u32) -> bool {
    match secret_from_hex(private_key_hex) {
        Some(secret) => secret_key_valid(secret) ==> {
            &&& amount <= u64::MAX
            &&& ecdsa_signature(
                secret,
                signed_message(address_of(public_key_of(secret)), recipient, amount, nonce, chain_id),
            ) is Some
        },
        None => true,
    }
}

impl Wallet {
    /// The wallet of a valid secret, with `private_key` as its stored text.
    fn from_secret(secret: Vec<u8>, private_key: String) -> (w: Wallet)
        requires
            secret@.len() == 32,
            secret_key_valid(secret@),
        ensures
            derived_from(w, secret@),
            w.private_key == private_key,
    {
        let public_point = compressed_public_key(secret.as_slice());
        let public_key_hex = to_hex_lower(public_point.as_slice());
        let address = address_from_public_key(public_point.as_slice());
        proof {
            let pk = public_point@;
            assert(public_key_hex@[0] == hex_digit(pk[0] as int / 16));
            assert(public_key_hex@[1] == hex_digit(pk[0] as int % 16));
            assert(('0' as u32) == 48 && ('2' as u32) == 50 && ('3' as u32) == 51);
            assert(((0int + 48) as char) as u32 == 48);
            assert(((2int + 48) as char) as u32 == 50);
            assert(((3int + 48) as char) as u32 == 51);
        }
        Wallet { private_key, public_key: public_key_hex, address, signing_key: SecretKey { bytes: secret } }
    }

    /// The wallet of the secret `secret`, its private key text the
    /// lower-case hex of the secret; `None` exactly when `secret` is not 32
    /// bytes forming a valid secret scalar.
    pub fn from_secret_bytes(secret: Vec<u8>) -> (r: Option<Wallet>)
        ensures
            r is None <==> !secret_key_valid(secret@),
            r matches Some(w) ==> derived_from(w, secret@) && w.private_key@ == hex_lower(secret@),
    {
        if secret.len() != 32 {
            return None;
        }
        if !secret_key_parses(secret.as_slice()) {
            return None;
        }
        let private_key_hex = to_hex_lower(secret.as_slice());
        Some(Wallet::from_secret(secret, private_key_hex))
    }

    /// A wallet with a fresh random key pair: 32 bytes from the operating
    /// system's generator, made into a wallet by `from_secret_bytes`.
    /// `None` when the generator fails, or when the bytes are not a valid
    /// secret scalar (an event of probability below 2^-127).
    pub fn new() -> (r: Option<Wallet>)
        ensures
            r is Some ==> exists|secret: Seq<u8>| #[trigger] derived_from(r->0, secret) && r->0.private_key@ == hex_lower(secret),
    {
        match random_key_bytes() {
            Some(secret) => {
                let ghost s = secret@;
                let r = Wallet::from_secret_bytes(secret);
                proof {
                    if r is Some {
                        assert(derived_from(r->0, s) && r->0.private_key@ == hex_lower(s));
                    }
                }
                r
            },
            None => None,
        }
    }

    /// A transaction from this wallet's address, signed with its secret key
    /// over the transaction's canonical message, carrying the public key
    /// and the DER signature in lower-case hex. `None` when signing fails
    /// (see `ecdsa_signature`).
    pub fn create_signed_transaction(&self, recipient: String, amount: u128, nonce: u64, chain_id: u32) -> (r: Option<Transaction>)
        requires
            amount <= u64::MAX,
        ensures
            match ecdsa_signature(self.signing_key@, signed_message(self.address@, recipient@, amount, nonce, chain_id)) {
                Some(_) => r matches Some(t) && is_signed_transaction(
                    t,
                    self.signing_key@,
                    self.address@,
                    recipient@,
                    amount,
                    nonce,
                    chain_id,
                ),
                None => r is None,
            },
            self.address@ == address_of(public_key_of(self.signing_key@)) ==> (r matches Some(t)
                ==> signature_accepted(t, t.public_key->0@, t.signature->0@)),
    {
        proof {
            use_type_invariant(&self.signing_key);
        }
        let secret = self.signing_key.bytes.as_slice();
        let msg = transaction_message(self.address.as_str(), recipient.as_str(), amount, nonce, chain_id);
        let signature = match ecdsa_sign(secret, msg.as_slice()) {
            Some(sig) => sig,
            None => return None,
        };
        let public_point = compressed_public_key(secret);
        let public_key_hex = to_hex_lower(public_point.as_slice());
        let signature_hex = to_hex_lower(signature.as_slice());
        proof {
            lemma_hex_roundtrip(public_point@);
            lemma_hex_roundtrip(signature@);
        }
        Some(Transaction {
            sender: self.address.clone(),
            recipient,
            amount,
            nonce,
            chain_id,
            public_key: Some(public_key_hex),
            signature: Some(signature_hex),
        })
    }

    /// The wallet of a secret key given in hex. Fails when the text is not
    /// hex or when the bytes are not a valid secret key.
    pub fn from_private_key_hex(private_key_hex: &str) -> (r: Result<Wallet, String>)
        requires
            secret_from_hex(private_key_hex@) matches Some(secret) ==> secret.len() == 32,
        ensures
            match secret_from_hex(private_key_hex@) {
                None => r matches Err(e) && e@ == "clave privada hex inválida"@,
                Some(secret) => if secret_key_valid(secret) {
                    r matches Ok(w) && derived_from(w, secret) && w.private_key@ == private_key_hex@
                } else {
                    r matches Err(e) && e@ == "clave privada inválida"@
                },
            },
    {
        let secret = match decode_hex(private_key_hex.as_bytes()) {
            Some(b) => b,
            None => return Err(String::from_str("clave privada hex inválida")),
        };
        if !secret_key_parses(secret.as_slice()) {
            return Err(String::from_str("clave privada inválida"));
        }
        Ok(Wallet::from_secret(secret, String::from_str(private_key_hex)))
    }

    /// Signs a transaction with a secret key given in hex, without keeping a wallet.
    pub fn sign_transaction_from_private_key(
        private_key_hex: &str,
        recipient: String,
        amount: u128,
        nonce: u64,
        chain_id: u32,
    ) -> (r: Result<Transaction, String>)
        requires
            secret_from_hex(private_key_hex@) matches Some(secret) ==> secret.len() == 32,
            signing_defined(private_key_hex@, recipient@, amount, nonce, chain_id),
        ensures
            match secret_from_hex(private_key_hex@) {
                None => r matches Err(e) && e@ == "clave privada hex inválida"@,
                Some(secret) => if secret_key_valid(secret) {
                    r matches Ok(t) && is_signed_transaction(
                        t,
                        secret,
                        address_of(public_key_of(secret)),
                        recipient@,
                        amount,
                        nonce,
                        chain_id,
                    )
                } else {
                    r matches Err(e) && e@ == "clave privada inválida"@
                },
            },
    {
        let wallet = Wallet::from_private_key_hex(private_key_hex)?;
        match wallet.create_signed_transaction(recipient, amount, nonce, chain_id) {
            Some(tx) => Ok(tx),
            None => Err(String::from_str("clave privada inválida")),
        }
    }

    /// `sign_transaction_from_private_key` for any input: `None` where the
    /// key text decodes to a number of bytes other than 32, or where a
    /// usable key cannot sign (an amount beyond the message's number format,
    /// or a failed signature).
    pub fn try_sign_transaction_from_private_key(
        private_key_hex: &str,
        recipient: String,
        amount: u128,
        nonce: u64,
        chain_id: u32,
    ) -> (r: Option<Result<Transaction, String>>)
        ensures
            r is None <==> (
                (secret_from_hex(private_key_hex@) matches Some(secret) && secret.len() != 32)
                || !signing_defined(private_key_hex@, recipient@, amount, nonce, chain_id)),
            r matches Some(res) ==> match secret_from_hex(private_key_hex@) {
                None => res matches Err(e) && e@ == "clave privada hex inválida"@,
                Some(secret) => if secret_key_valid(secret) {
                    res matches Ok(t) && is_signed_transaction(
                        t,
                        secret,
                        address_of(public_key_of(secret)),
                        recipient@,
                        amount,
                        nonce,
                        chain_id,
                    )
                } else {
                    res matches Err(e) && e@ == "clave privada inválida"@
                },
            },
    {
        match decode_hex(private_key_hex.as_bytes()) {
            Some(secret) => {
                if secret.len() != 32 {
                    return None;
                }
                if secret_key_parses(secret.as_slice()) {
                    if amount > 18446744073709551615u128 {
                        return None;
                    }
                    // whether signing succeeds is known only by signing
                    match Wallet::from_private_key_hex(private_key_hex) {
                        Ok(w) => {
                            let probe = w.create_signed_transaction(recipient.clone(), amount, nonce, chain_id);
                            if probe.is_none() {
                                return None;
                            }
                        },
                        Err(_) => {},
                    }
                }
            },
            None => {},
        }
        Some(Wallet::sign_transaction_from_private_key(private_key_hex, recipient, amount, nonce, chain_id))
    }
}

} // verus!

verus! {

/// A wallet can be restored from the private key it exports: the hex text
/// decodes to its secret, which is usable, so `from_private_key_hex` gives
/// back the same public key and address.
pub proof fn lemma_wallet_restorable(w: Wallet, secret: Seq<u8>)
    requires
        derived_from(w, secret),
        w.private_key@ == hex_lower(secret),
    ensures
        secret_from_hex(w.private_key@) == Some(secret),
        private_key_usable(w.private_key@),
{
    lemma_hex_roundtrip(secret);
}

} // verus!

verus! {

/// Signing with a key given in hex is restoring the wallet and signing with
/// it: a transaction is what `create_signed_transaction` gives for the wallet
/// that `from_private_key_hex` restores exactly when it is what
/// `sign_transaction_from_private_key` gives for the hex key.
pub proof fn lemma_sign_from_hex_is_restore_then_sign(
    private_key_hex: Seq<char>,
    w: Wallet,
    t: Transaction,
    recipient: Seq<char>,
    amount: u128,
    nonce: u64,
    chain_id: u32,
)
    requires
        secret_from_hex(private_key_hex) matches Some(secret) && derived_from(w, secret),
    ensures
        is_signed_transaction(t, w.signing_key@, w.address@, recipient, amount, nonce, chain_id)
            <==> is_signed_transaction(
            t,
            secret_from_hex(private_key_hex)->0,
            address_of(public_key_of(secret_from_hex(private_key_hex)->0)),
            recipient,
            amount,
            nonce,
            chain_id,
        ),
{
}

} // verus!
