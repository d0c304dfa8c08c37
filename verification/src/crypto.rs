//! The outside cryptography: SHA-256, which chains blocks together and
//! derives addresses, and ECDSA over secp256k1, which signs transactions.

use k256::ecdsa::signature::{DigestSigner, DigestVerifier};
use k256::ecdsa::{Signature, SigningKey, VerifyingKey};
use k256::elliptic_curve::sec1::ToEncodedPoint;
use k256::FieldBytes;
use rand::rngs::OsRng;
use rand::RngCore;
use sha2::Digest;
use vstd::prelude::*;

verus! {

/// The SHA-256 digest of `data` (FIPS 180-4).
pub uninterp spec fn sha256_digest(data: Seq<u8>) -> Seq<u8>;

/// `sha2::Sha256::digest`: the SHA-256 digest of `data`, 32 bytes long.
/// The contract names the digest `sha256_digest(data)`; what the digest is
/// is not restated here.
#[verifier::external_body]
pub(crate) fn sha256(data: &[u8]) -> (d: Vec<u8>)
    ensures
        d@ == sha256_digest(data@),
        d@.len() == 32,
{
    sha2::Sha256::digest(data).to_vec()
}

} // verus!

verus! {

/// `VerifyingKey::from_sec1_bytes` accepts `bytes`: they encode a point of
/// secp256k1 in SEC1 form (compressed or not).
pub uninterp spec fn sec1_key_valid(bytes: Seq<u8>) -> bool;

/// `Signature::from_der` accepts `bytes`: a DER-encoded ECDSA signature
/// with both scalars in range.
pub uninterp spec fn der_signature_valid(bytes: Seq<u8>) -> bool;

/// `VerifyingKey::verify_digest` accepts the DER signature `signature` of
/// the SHA-256 digest of `message` under the SEC1 key `public_key`.
pub uninterp spec fn ecdsa_accepts(public_key: Seq<u8>, message: Seq<u8>, signature: Seq<u8>) -> bool;

/// The order of the secp256k1 group.
pub open spec fn secp256k1_order() -> nat {
    0xFFFFFFFFFFFFFFFFFFFFFFFFFFFFFFFEBAAEDCE6AF48A03BBFD25E8CD0364141nat
}

/// The unsigned number that `bytes` encode, most significant byte first.
pub open spec fn big_endian_value(bytes: Seq<u8>) -> nat
    decreases bytes.len(),
{
    if bytes.len() == 0 {
        0
    } else {
        big_endian_value(bytes.drop_last()) * 256 + bytes.last() as nat
    }
}

/// `SigningKey::from_bytes` accepts `secret`: 32 bytes whose big-endian
/// value is a non-zero scalar below the group order.
pub open spec fn secret_key_valid(secret: Seq<u8>) -> bool {
    &&& secret.len() == 32
    &&& 0 < big_endian_value(secret) < secp256k1_order()
}

/// The compressed SEC1 encoding of the public key of the secret scalar `secret`
/// (`verifying_key().to_encoded_point(true)`).
pub uninterp spec fn public_key_of(secret: Seq<u8>) -> Seq<u8>;

/// The DER encoding of the deterministic (RFC 6979) ECDSA signature by
/// `secret` of the SHA-256 digest of `message` (`try_sign_digest`, then
/// `to_der`), or `None` when signing fails.
pub uninterp spec fn ecdsa_signature(secret: Seq<u8>, message: Seq<u8>) -> Option<Seq<u8>>;

/// `VerifyingKey::from_sec1_bytes`: whether `bytes` parse as a SEC1 public key.
#[verifier::external_body]
pub(crate) fn sec1_key_parses(bytes: &[u8]) -> (r: bool)
    ensures
        r == sec1_key_valid(bytes@),
{
    VerifyingKey::from_sec1_bytes(bytes).is_ok()
}

/// `Signature::from_der`: whether `bytes` parse as a DER signature.
#[verifier::external_body]
pub(crate) fn der_signature_parses(bytes: &[u8]) -> (r: bool)
    ensures
        r == der_signature_valid(bytes@),
{
    Signature::from_der(bytes).is_ok()
}

/// `VerifyingKey::verify_digest` with a SHA-256 hasher fed `message`; the
/// key and the signature are parsed from bytes that the caller has checked.
/// Whether it accepts is named `ecdsa_accepts`.
#[verifier::external_body]
pub(crate) fn ecdsa_verify(public_key: &[u8], message: &[u8], signature: &[u8]) -> (r: bool)
    requires
        sec1_key_valid(public_key@),
        der_signature_valid(signature@),
    ensures
        r == ecdsa_accepts(public_key@, message@, signature@),
{
    let key = VerifyingKey::from_sec1_bytes(public_key).unwrap();
    let sig = Signature::from_der(signature).unwrap();
    let mut hasher = sha2::Sha256::new();
    hasher.update(message);
    key.verify_digest(hasher, &sig).is_ok()
}

/// `SigningKey::from_bytes`: whether the 32 bytes `secret` are a valid
/// secret scalar.
#[verifier::external_body]
#[allow(deprecated)]
pub(crate) fn secret_key_parses(secret: &[u8]) -> (r: bool)
    requires
        secret@.len() == 32,
    ensures
        r == secret_key_valid(secret@),
{
    SigningKey::from_bytes(&FieldBytes::clone_from_slice(secret)).is_ok()
}

/// `OsRng::try_fill_bytes` on a 32-byte buffer: fresh random bytes, or
/// `None` when the operating system's generator reports an error. The
/// bytes depend on chance; all that is promised is their number.
#[verifier::external_body]
pub(crate) fn random_key_bytes() -> (bytes: Option<Vec<u8>>)
    ensures
        bytes matches Some(b) ==> b@.len() == 32,
{
    let mut buffer = [0u8; 32];
    OsRng.try_fill_bytes(&mut buffer).ok().map(|_| buffer.to_vec())
}

/// `verifying_key().to_encoded_point(true)`: the compressed SEC1 public key
/// (33 bytes) of a valid secret: the tag byte 2 or 3 (even or odd y), then
/// x. The contract also claims that `VerifyingKey::from_sec1_bytes`
/// accepts the encoding it produces.
#[verifier::external_body]
#[allow(deprecated)]
pub(crate) fn compressed_public_key(secret: &[u8]) -> (public_key: Vec<u8>)
    requires
        secret@.len() == 32,
        secret_key_valid(secret@),
    ensures
        public_key@ == public_key_of(secret@),
        public_key@.len() == 33,
        public_key@[0] == 2 || public_key@[0] == 3,
        sec1_key_valid(public_key@),
{
    let key = SigningKey::from_bytes(&FieldBytes::clone_from_slice(secret)).unwrap();
    key.verifying_key().to_encoded_point(true).as_bytes().to_vec()
}

/// `try_sign_digest` with a SHA-256 hasher fed `message`, then `to_der`:
/// the deterministic signature of a valid secret, or `None` when signing
/// fails (a zero `r` or `s` from the RFC 6979 nonce, which depends on the
/// arguments alone). The contract also claims that `Signature::from_der`
/// accepts the encoding, and that `verify_digest` accepts the signature for
/// the same message under the secret's public key: signing normalizes `s`
/// to the low half, which is the form verification requires.
#[verifier::external_body]
#[allow(deprecated)]
pub(crate) fn ecdsa_sign(secret: &[u8], message: &[u8]) -> (signature: Option<Vec<u8>>)
    requires
        secret@.len() == 32,
        secret_key_valid(secret@),
    ensures
        match signature {
            Some(sig) => {
                &&& ecdsa_signature(secret@, message@) == Some(sig@)
                &&& der_signature_valid(sig@)
                &&& ecdsa_accepts(public_key_of(secret@), message@, sig@)
            },
            None => ecdsa_signature(secret@, message@) is None,
        },
{
    let key = SigningKey::from_bytes(&FieldBytes::clone_from_slice(secret)).unwrap();
    let mut hasher = sha2::Sha256::new();
    hasher.update(message);
    let sig: Option<Signature> = key.try_sign_digest(hasher).ok();
    sig.map(|s| s.to_der().as_bytes().to_vec())
}

} // verus!
