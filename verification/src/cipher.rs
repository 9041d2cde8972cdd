//! Authenticated encryption of the vault, and the random bytes it needs.

use vstd::prelude::*;
use chacha20poly1305::aead::{Aead, AeadCore, KeyInit, OsRng, Payload};
use chacha20poly1305::aead::rand_core::RngCore;
use chacha20poly1305::{XChaCha20Poly1305, XNonce};
use zeroize::Zeroize;

verus! {

/// The bytes of a nonce.
pub const NONCE_LEN: usize = 24;

/// The bytes that sealing adds to a message.
pub const TAG_LEN: u64 = 16;

/// The most bytes of one message: as far as the cipher's block counter reaches.
pub const MAX_MESSAGE: u64 = 274_877_906_816;

/// The error of `chacha20poly1305`.
#[verifier::external_type_specification]
#[verifier::external_body]
pub struct ExAeadError(chacha20poly1305::Error);

/// What XChaCha20-Poly1305 makes of a message: the ciphertext and its tag.
pub uninterp spec fn sealed(key: Seq<u8>, nonce: Seq<u8>, ad: Seq<u8>, msg: Seq<u8>) -> Seq<u8>;

/// The message that XChaCha20-Poly1305 finds in a ciphertext; `None` if it does not
/// authenticate.
pub uninterp spec fn unsealed(key: Seq<u8>, nonce: Seq<u8>, ad: Seq<u8>, ct: Seq<u8>) -> Option<
    Seq<u8>,
>;

/// `Aead::encrypt` of `chacha20poly1305::XChaCha20Poly1305`. The claim: on a message
/// that is not too long it succeeds, its result depends on the arguments alone and is
/// 16 bytes longer than the message, and decrypting it with the same key, nonce and
/// associated data gives the message back. That nothing else decrypts is not claimed.
#[verifier::external_body]
fn encrypt(key: &[u8; 32], nonce: &[u8; 24], ad: &[u8], msg: &[u8]) -> (r: Result<
    Vec<u8>,
    chacha20poly1305::Error,
>)
    requires
        msg@.len() <= MAX_MESSAGE,
    ensures
        r is Ok,
        r->Ok_0@ == sealed(key@, nonce@, ad@, msg@),
        r->Ok_0@.len() == msg@.len() + TAG_LEN,
        unsealed(key@, nonce@, ad@, r->Ok_0@) == Some(msg@),
{
    XChaCha20Poly1305::new(key.into()).encrypt(nonce.into(), Payload { msg, aad: ad })
}

/// `Aead::decrypt` of `chacha20poly1305::XChaCha20Poly1305`. The claim: its result
/// depends on the arguments alone.
#[verifier::external_body]
fn decrypt(key: &[u8; 32], nonce: &[u8], ad: &[u8], ct: &[u8]) -> (r: Result<
    Vec<u8>,
    chacha20poly1305::Error,
>)
    requires
        nonce@.len() == NONCE_LEN,
        ct@.len() <= MAX_MESSAGE + TAG_LEN,
    ensures
        match (r, unsealed(key@, nonce@, ad@, ct@)) {
            (Ok(m), Some(s)) => m@ == s,
            (Err(_), None) => true,
            _ => false,
        },
{
    let payload = Payload { msg: ct, aad: ad };
    XChaCha20Poly1305::new(key.into()).decrypt(XNonce::from_slice(nonce), payload)
}

/// `OsRng::fill_bytes` of `rand_core`: 16 bytes from the operating system's generator,
/// which is relied on to be there. Nothing is claimed of them.
#[verifier::external_body]
pub(crate) fn fresh_salt() -> [u8; 16] {
    let mut salt = [0u8; 16];
    OsRng.fill_bytes(&mut salt);
    salt
}

/// `AeadCore::generate_nonce` of `chacha20poly1305::XChaCha20Poly1305`: 24 bytes from
/// the operating system's generator, which is relied on to be there. Nothing is claimed
/// of them.
#[verifier::external_body]
pub(crate) fn fresh_nonce() -> [u8; 24] {
    XChaCha20Poly1305::generate_nonce(&mut OsRng).into()
}

/// `Zeroize::zeroize` of a byte array. The claim: every byte is zero afterwards.
#[verifier::external_body]
pub(crate) fn wipe(key: &mut [u8; 32])
    ensures
        forall|i: int| 0 <= i < 32 ==> #[trigger] final(key)@[i] == 0,
{
    key.zeroize();
}

/// The message that a ciphertext holds; `None` if the nonce or the ciphertext has no
/// possible length, or if it does not authenticate.
pub open spec fn message_of(key: Seq<u8>, nonce: Seq<u8>, ad: Seq<u8>, ct: Seq<u8>) -> Option<
    Seq<u8>,
> {
    if nonce.len() != NONCE_LEN || ct.len() > MAX_MESSAGE + TAG_LEN {
        None
    } else {
        unsealed(key, nonce, ad, ct)
    }
}

/// Seals a message; `None` if it is too long. What comes out can be opened again.
pub fn seal_with(key: &[u8; 32], nonce: &[u8; 24], ad: &[u8], msg: &[u8]) -> (r: Option<Vec<u8>>)
    ensures
        match r {
            Some(ct) => {
                &&& msg@.len() <= MAX_MESSAGE
                &&& ct@ == sealed(key@, nonce@, ad@, msg@)
                &&& ct@.len() == msg@.len() + TAG_LEN
                &&& message_of(key@, nonce@, ad@, ct@) == Some(msg@)
            },
            None => msg@.len() > MAX_MESSAGE,
        },
{
    if msg.len() as u64 > MAX_MESSAGE {
        return None;
    }
    match encrypt(key, nonce, ad, msg) {
        Ok(ct) => Some(ct),
        Err(_) => None,
    }
}

/// Opens a ciphertext.
pub fn open_with(key: &[u8; 32], nonce: &[u8], ad: &[u8], ct: &[u8]) -> (r: Option<Vec<u8>>)
    ensures
        match (r, message_of(key@, nonce@, ad@, ct@)) {
            (Some(m), Some(s)) => m@ == s,
            (None, None) => true,
            _ => false,
        },
{
    if nonce.len() != NONCE_LEN || ct.len() as u64 > MAX_MESSAGE + TAG_LEN {
        return None;
    }
    match decrypt(key, nonce, ad, ct) {
        Ok(m) => Some(m),
        Err(_) => None,
    }
}

} // verus!
