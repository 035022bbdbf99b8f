//! Ed25519 signatures.
//!
//! Each helper makes one call into the key library; whoever calls across a language
//! boundary guards it against panics and tells of them with [`panicked`].
use vstd::prelude::*;

use crate::encoding::{check_public_key, public_key_fault};
use crate::error::{CoreError, ErrorCode};

verus! {

/// The public key of a secret key.
pub uninterp spec fn public_key_of(secret: Seq<u8>) -> Seq<u8>;

/// `iroh::SecretKey::public`, of the key that `iroh::SecretKey::from_bytes` makes: the
/// same secret has the same public key, and `iroh::PublicKey::from_bytes` takes it.
#[verifier::external_body]
fn public_bytes(secret: &[u8; 32]) -> (r: [u8; 32])
    ensures
        r@ == public_key_of(secret@),
        public_key_fault(r@) is None,
{
    *iroh::SecretKey::from_bytes(secret).public().as_bytes()
}

/// The signature of data under a secret key.
pub uninterp spec fn signature_of(secret: Seq<u8>, data: Seq<u8>) -> Seq<u8>;

/// Whether the first half of a signature is the neutral point, as where the number that
/// signing draws from key and data comes out as zero. No such key and data are known;
/// the strict verification would refuse their signature.
pub open spec fn neutral_nonce(signature: Seq<u8>) -> bool {
    signature.len() == 64 && signature[0] == 1 && forall|i: int|
        1 <= i < 32 ==> #[trigger] signature[i] == 0
}

/// Whether bytes are a public key, and a signature of data is that key's.
pub open spec fn verifies(public: Seq<u8>, data: Seq<u8>, signature: Seq<u8>) -> bool {
    public_key_fault(public) is None && signature_valid(public, data, signature)
}

/// `iroh::SecretKey::sign`, under the key that `iroh::SecretKey::from_bytes` makes: the
/// same key and data give the same signature, and `iroh::PublicKey::verify` takes it
/// under the public key of that key, but for one whose first half is the neutral point.
#[verifier::external_body]
fn sign_bytes(secret: &[u8; 32], data: &[u8]) -> (r: [u8; 64])
    ensures
        r@ == signature_of(secret@, data@),
        !neutral_nonce(r@) ==> verifies(public_key_of(secret@), data@, r@),
{
    iroh::SecretKey::from_bytes(secret).sign(data).to_bytes()
}

/// Whether a signature of data is that of a public key.
pub uninterp spec fn signature_valid(public: Seq<u8>, data: Seq<u8>, signature: Seq<u8>) -> bool;

/// `iroh::PublicKey::verify`, for bytes that `iroh::PublicKey::from_bytes` takes.
#[verifier::external_body]
fn verify_bytes(public: &[u8; 32], data: &[u8], signature: &[u8; 64]) -> (r: bool)
    requires
        public_key_fault(public@) is None,
    ensures
        r == signature_valid(public@, data@, signature@),
{
    match iroh::PublicKey::from_bytes(public) {
        Ok(key) => key.verify(data, &iroh::Signature::from_bytes(signature)).is_ok(),
        Err(_) => false,
    }
}

/// `iroh::SecretKey::generate`. Nothing is claimed of the key: it is random.
#[verifier::external_body]
fn random_secret() -> (r: [u8; 32]) {
    iroh::SecretKey::generate().to_bytes()
}

/// Signs data with a secret key. What was signed verifies under the public key of that
/// secret.
pub fn secret_key_sign(secret_key_bytes: &[u8; 32], data: &[u8]) -> (r: Result<
    [u8; 64],
    CoreError,
>)
    ensures
        r matches Ok(s) && s@ == signature_of(secret_key_bytes@, data@) && (!neutral_nonce(s@)
            ==> verifies(public_key_of(secret_key_bytes@), data@, s@)),
{
    Ok(sign_bytes(secret_key_bytes, data))
}

/// The public key of a secret key: the one under which what the secret key signs is
/// verified.
pub fn public_key_bytes(secret_key_bytes: &[u8; 32]) -> (r: [u8; 32])
    ensures
        r@ == public_key_of(secret_key_bytes@),
        public_key_fault(r@) is None,
{
    public_bytes(secret_key_bytes)
}

/// Whether a signature is good, given what is wrong with the key, if anything is.
pub fn verdict(fault: Option<String>, valid: bool) -> (r: bool)
    ensures
        r == (fault is None && valid),
{
    match fault {
        Some(_) => false,
        None => valid,
    }
}

/// Whether a signature of data is that of a public key. Bytes that are no key have no
/// signatures.
pub fn public_key_verify(public_key_bytes: &[u8; 32], data: &[u8], sig_bytes: &[u8; 64]) -> (r:
    bool)
    ensures
        r == verifies(public_key_bytes@, data@, sig_bytes@),
{
    let fault = check_public_key(public_key_bytes);
    let valid: bool = if fault.is_none() {
        verify_bytes(public_key_bytes, data, sig_bytes)
    } else {
        false
    };
    verdict(fault, valid)
}

/// A new secret key. Which one is left to chance, so nothing is said of its bytes;
/// [`drawn_key`] says what becomes of those that were drawn.
pub fn generate_secret_key() -> (r: Result<[u8; 32], CoreError>)
    ensures
        r is Ok,
{
    drawn_key(Some(random_secret()))
}

/// What is given back for a key that was drawn, or where drawing one has panicked: the
/// key as it was drawn, or an error.
pub fn drawn_key(drawn: Option<[u8; 32]>) -> (r: Result<[u8; 32], CoreError>)
    ensures
        match drawn {
            Some(key) => r == Ok::<[u8; 32], CoreError>(key),
            None => r matches Err(e) && e@ == (
                ErrorCode::Internal,
                "generate_secret_key"@ + " panicked"@,
            ),
        },
{
    match drawn {
        Some(key) => Ok(key),
        None => Err(panicked("generate_secret_key")),
    }
}

/// What is told of a helper that has panicked.
pub fn panicked(helper: &str) -> (r: CoreError)
    ensures
        r@ == (ErrorCode::Internal, helper@ + " panicked"@),
{
    let mut s: String = String::from_str(helper);
    s.append(" panicked");
    CoreError { code: ErrorCode::Internal, message: s }
}

/// A signature is good exactly where the bytes are a key and it is that key's; bytes that
/// are no key have none.
pub proof fn signatures_need_a_key(public: Seq<u8>, data: Seq<u8>, signature: Seq<u8>)
    ensures
        public_key_fault(public) is Some ==> !verifies(public, data, signature),
        public_key_fault(public) is None ==> (verifies(public, data, signature) <==> signature_valid(
            public,
            data,
            signature,
        )),
        neutral_nonce(signature) ==> signature.len() == 64 && signature[0] == 1 && signature[1]
            == 0 && signature[31] == 0,
{
}

/// The neutral point is written as a one and zeros: no other first half is it.
pub proof fn the_neutral_point_is_one(zeros: Seq<u8>, rest: Seq<u8>, i: int)
    requires
        zeros.len() == 31,
        rest.len() == 32,
        0 <= i < 31,
    ensures
        (forall|k: int| 0 <= k < 31 ==> #[trigger] zeros[k] == 0) ==> neutral_nonce(
            seq![1u8] + zeros + rest,
        ),
        zeros[i] != 0 ==> !neutral_nonce(seq![1u8] + zeros + rest),
{
    let s = seq![1u8] + zeros + rest;
    assert forall|k: int| 1 <= k < 32 implies #[trigger] s[k] == zeros[k - 1] by {}
    assert(s[i + 1] == zeros[i]);
}

} // verus!
