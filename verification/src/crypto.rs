//! Authenticated encryption under a group's shared secret.
use vstd::prelude::*;
use chacha20poly1305::aead::{Aead, AeadCore, KeyInit};

verus! {

/// The XChaCha20-Poly1305 ciphertext (with its tag) of a plaintext under a
/// key, a nonce and associated data.
pub uninterp spec fn xchacha_seal(key: Seq<u8>, nonce: Seq<u8>, plaintext: Seq<u8>, aad: Seq<u8>) -> Seq<u8>;

/// What XChaCha20-Poly1305 decryption gives for a ciphertext under a key, a
/// nonce and associated data: the plaintext, or nothing where the tag does
/// not authenticate.
pub uninterp spec fn xchacha_open(key: Seq<u8>, nonce: Seq<u8>, ciphertext: Seq<u8>, aad: Seq<u8>) -> Option<Seq<u8>>;

/// Calls `XChaCha20Poly1305::generate_key` with the operating system's
/// generator. Nothing is promised of the key's value.
#[verifier::external_body]
fn random_key() -> (r: [u8; 32]) {
    chacha20poly1305::XChaCha20Poly1305::generate_key(&mut chacha20poly1305::aead::OsRng).into()
}

/// Calls `XChaCha20Poly1305::generate_nonce` with the operating system's
/// generator. Nothing is promised of the nonce's value.
#[verifier::external_body]
fn random_nonce() -> (r: [u8; 24]) {
    chacha20poly1305::XChaCha20Poly1305::generate_nonce(&mut chacha20poly1305::aead::OsRng).into()
}

/// Calls `Aead::encrypt` of `XChaCha20Poly1305`. The crate refuses a message
/// of `u32::MAX` or more 64-byte blocks and otherwise returns the ciphertext
/// followed by the 16-byte tag; the contract names that output and claims
/// that decrypting it with the same key, nonce and associated data gives the
/// message back.
#[verifier::external_body]
pub(crate) fn seal(key: &[u8; 32], nonce: &[u8; 24], plaintext: &[u8], aad: &[u8]) -> (r: Option<Vec<u8>>)
    ensures
        r is Some <==> plaintext@.len() / 64 < u32::MAX,
        r matches Some(c) ==> c@ == xchacha_seal(key@, nonce@, plaintext@, aad@),
        r matches Some(c) ==> c@.len() == plaintext@.len() + 16,
        r matches Some(c) ==> xchacha_open(key@, nonce@, c@, aad@) == Some(plaintext@),
{
    let cipher = chacha20poly1305::XChaCha20Poly1305::new(key.into());
    cipher.encrypt(
        chacha20poly1305::XNonce::from_slice(nonce),
        chacha20poly1305::aead::Payload { msg: plaintext, aad },
    ).ok()
}

/// Calls `Aead::decrypt` of `XChaCha20Poly1305`. The contract names the
/// outcome.
#[verifier::external_body]
pub(crate) fn open(key: &[u8; 32], nonce: &[u8; 24], ciphertext: &[u8], aad: &[u8]) -> (r: Option<Vec<u8>>)
    ensures
        r is Some <==> xchacha_open(key@, nonce@, ciphertext@, aad@) is Some,
        r matches Some(p) ==> xchacha_open(key@, nonce@, ciphertext@, aad@) == Some(p@),
{
    let cipher = chacha20poly1305::XChaCha20Poly1305::new(key.into());
    cipher.decrypt(
        chacha20poly1305::XNonce::from_slice(nonce),
        chacha20poly1305::aead::Payload { msg: ciphertext, aad },
    ).ok()
}

/// The 32-byte secret a group encrypts its payloads with.
#[derive(Clone)]
pub struct GroupSecret([u8; 32]);

impl View for GroupSecret {
    type V = Seq<u8>;

    closed spec fn view(&self) -> Seq<u8> {
        self.0@
    }
}

/// A nonce and the ciphertext sealed under it.
#[derive(Debug, Clone, PartialEq, Eq)]
pub struct EncryptedPayload {
    pub nonce: [u8; 24],
    pub ciphertext: Vec<u8>,
}

/// Why a payload could not be sealed or opened.
#[derive(Debug, Clone, Copy, PartialEq, Eq)]
pub enum EncryptionError {
    Encrypt,
    Decrypt,
}

/// Whether `payload` seals `plaintext` with `aad` under `key`: its
/// ciphertext is the one its nonce gives, and opening it gives the
/// plaintext back.
pub open spec fn seals(key: Seq<u8>, payload: EncryptedPayload, plaintext: Seq<u8>, aad: Seq<u8>) -> bool {
    &&& payload.ciphertext@ == xchacha_seal(key, payload.nonce@, plaintext, aad)
    &&& xchacha_open(key, payload.nonce@, payload.ciphertext@, aad) == Some(plaintext)
}

/// What opening `payload` with `aad` under `key` gives.
pub open spec fn opened(key: Seq<u8>, payload: EncryptedPayload, aad: Seq<u8>) -> Result<Seq<u8>, EncryptionError> {
    match xchacha_open(key, payload.nonce@, payload.ciphertext@, aad) {
        Some(p) => Ok(p),
        None => Err(EncryptionError::Decrypt),
    }
}

impl GroupSecret {
    /// A fresh random secret.
    pub fn generate() -> (r: Self)
        ensures
            r@.len() == 32,
    {
        GroupSecret(random_key())
    }

    pub fn from_bytes(bytes: [u8; 32]) -> (r: Self)
        ensures
            r@ == bytes@,
    {
        GroupSecret(bytes)
    }

    /// Seals `plaintext` with `associated_data` under a fresh random nonce.
    /// It fails only for a message of `u32::MAX` or more 64-byte blocks.
    pub fn encrypt(&self, plaintext: &[u8], associated_data: &[u8]) -> (r: Result<EncryptedPayload, EncryptionError>)
        ensures
            r is Ok <==> plaintext@.len() / 64 < u32::MAX,
            r is Err ==> r == Err::<EncryptedPayload, EncryptionError>(EncryptionError::Encrypt),
            r matches Ok(p) ==> seals(self@, p, plaintext@, associated_data@),
            r matches Ok(p) ==> p.ciphertext@.len() == plaintext@.len() + 16,
    {
        let nonce = random_nonce();
        match seal(&self.0, &nonce, plaintext, associated_data) {
            Some(ciphertext) => Ok(EncryptedPayload { nonce, ciphertext }),
            None => Err(EncryptionError::Encrypt),
        }
    }

    /// Opens `payload` with `associated_data`.
    pub fn decrypt(&self, payload: &EncryptedPayload, associated_data: &[u8]) -> (r: Result<Vec<u8>, EncryptionError>)
        ensures
            r matches Ok(p) ==> opened(self@, *payload, associated_data@) == Ok::<Seq<u8>, EncryptionError>(p@),
            r matches Err(e) ==> opened(self@, *payload, associated_data@) == Err::<Seq<u8>, EncryptionError>(e),
    {
        match open(&self.0, &payload.nonce, payload.ciphertext.as_slice(), associated_data) {
            Some(plaintext) => Ok(plaintext),
            None => Err(EncryptionError::Decrypt),
        }
    }
}

/// Opening what `encrypt` sealed, with the same secret and associated data,
/// gives the plaintext back.
pub proof fn law_decrypt_inverts_encrypt(key: Seq<u8>, payload: EncryptedPayload, plaintext: Seq<u8>, aad: Seq<u8>)
    requires
        seals(key, payload, plaintext, aad),
    ensures
        opened(key, payload, aad) == Ok::<Seq<u8>, EncryptionError>(plaintext),
{
}

} // verus!
