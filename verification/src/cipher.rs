//! The primitives the engine takes from outside: the AES-256 block cipher,
//! AES-256-GCM-SIV, PBKDF2 and the system's random source.
//!
//! Nothing in this file is proved. Each function below states what the
//! library it calls computes; the rest of the crate is proved from these
//! statements alone.

use vstd::prelude::*;
use aes::cipher::generic_array::GenericArray;
use aes::cipher::BlockDecrypt;
use aes::cipher::BlockEncrypt;
use aes::cipher::KeyInit;
use aes_gcm_siv::aead::Aead;
use aes_gcm_siv::aead::Payload;

verus! {

/// Length in bytes of an AES-256 key.
pub const KEY_LEN: usize = 32;

/// Length in bytes of one cipher block.
pub const BLOCK_LEN: usize = 16;

/// Length in bytes of an AEAD nonce.
pub const NONCE_LEN: usize = 12;

/// Length in bytes of an AEAD authentication tag.
pub const TAG_LEN: usize = 16;

/// Longest plaintext, and longest associated data, that the AEAD accepts.
pub const AEAD_MAX: u64 = 0x10_0000_0000;

/// Number of random bytes drawn for one operation of the engine.
pub const ENTROPY_LEN: usize = 64;

/// The AES-256 encryption of one 16-byte block under a 32-byte key.
pub uninterp spec fn aes256_encrypted(key: Seq<u8>, block: Seq<u8>) -> Seq<u8>;

/// The AES-256 decryption of one 16-byte block under a 32-byte key.
pub uninterp spec fn aes256_decrypted(key: Seq<u8>, block: Seq<u8>) -> Seq<u8>;

/// What AES-256-GCM-SIV makes of a plaintext: ciphertext followed by tag, or
/// nothing when an input is too long.
pub uninterp spec fn gcm_siv_sealed(
    key: Seq<u8>,
    nonce: Seq<u8>,
    aad: Seq<u8>,
    plaintext: Seq<u8>,
) -> Option<Seq<u8>>;

/// What AES-256-GCM-SIV recovers from a sealed message, or nothing when the
/// tag does not verify.
pub uninterp spec fn gcm_siv_opened(
    key: Seq<u8>,
    nonce: Seq<u8>,
    aad: Seq<u8>,
    sealed: Seq<u8>,
) -> Option<Seq<u8>>;

/// The 64 bytes that PBKDF2 with HMAC-SHA-256 derives.
pub uninterp spec fn pbkdf2_sha256_derived(password: Seq<u8>, salt: Seq<u8>, rounds: u32) -> Seq<u8>;

/// Calls `encrypt_block` of `aes::Aes256`.
///
/// Claims that the result is a function of key and block, and that
/// decrypting it under the same key gives the block back: a block cipher is
/// a permutation of the blocks.
#[verifier::external_body]
pub(crate) fn aes256_encrypt_block(key: &[u8; 32], block: &[u8; 16]) -> (out: [u8; 16])
    ensures
        out@ == aes256_encrypted(key@, block@),
        aes256_decrypted(key@, out@) == block@,
{
    let cipher = aes::Aes256::new(GenericArray::from_slice(key));
    let mut buffer = GenericArray::clone_from_slice(block);
    cipher.encrypt_block(&mut buffer);
    buffer.into()
}

/// Calls `decrypt_block` of `aes::Aes256`.
///
/// Claims that the result is a function of key and block, and that
/// encrypting it under the same key gives the block back.
#[verifier::external_body]
pub(crate) fn aes256_decrypt_block(key: &[u8; 32], block: &[u8; 16]) -> (out: [u8; 16])
    ensures
        out@ == aes256_decrypted(key@, block@),
        aes256_encrypted(key@, out@) == block@,
{
    let cipher = aes::Aes256::new(GenericArray::from_slice(key));
    let mut buffer = GenericArray::clone_from_slice(block);
    cipher.decrypt_block(&mut buffer);
    buffer.into()
}

/// Calls `Aead::encrypt` of `aes_gcm_siv::Aes256GcmSiv`.
///
/// Claims that the result is a function of the four inputs; that it fails
/// only when plaintext or associated data is longer than 2^36 bytes; that the
/// sealed message is 16 bytes longer than the plaintext; and that opening it
/// with the same key, nonce and associated data gives the plaintext back.
#[verifier::external_body]
pub(crate) fn gcm_siv_seal(key: &[u8; 32], nonce: &[u8; 12], aad: &[u8], plaintext: &[u8]) -> (out:
    Option<Vec<u8>>)
    ensures
        match out {
            Some(sealed) => {
                &&& gcm_siv_sealed(key@, nonce@, aad@, plaintext@) == Some(sealed@)
                &&& sealed@.len() == plaintext@.len() + TAG_LEN
                &&& gcm_siv_opened(key@, nonce@, aad@, sealed@) == Some(plaintext@)
            },
            None => gcm_siv_sealed(key@, nonce@, aad@, plaintext@) is None,
        },
        plaintext@.len() <= AEAD_MAX && aad@.len() <= AEAD_MAX ==> out is Some,
{
    let cipher = aes_gcm_siv::Aes256GcmSiv::new(GenericArray::from_slice(key));
    cipher.encrypt(GenericArray::from_slice(nonce), Payload { msg: plaintext, aad }).ok()
}

/// Calls `Aead::decrypt` of `aes_gcm_siv::Aes256GcmSiv`.
///
/// Claims that the result is a function of the four inputs, and that a
/// message that opens is 16 bytes longer than what it holds.
#[verifier::external_body]
pub(crate) fn gcm_siv_open(key: &[u8; 32], nonce: &[u8; 12], aad: &[u8], sealed: &[u8]) -> (out:
    Option<Vec<u8>>)
    ensures
        match out {
            Some(plaintext) => {
                &&& gcm_siv_opened(key@, nonce@, aad@, sealed@) == Some(plaintext@)
                &&& sealed@.len() == plaintext@.len() + TAG_LEN
            },
            None => gcm_siv_opened(key@, nonce@, aad@, sealed@) is None,
        },
{
    let cipher = aes_gcm_siv::Aes256GcmSiv::new(GenericArray::from_slice(key));
    cipher.decrypt(GenericArray::from_slice(nonce), Payload { msg: sealed, aad }).ok()
}

/// Calls `pbkdf2::pbkdf2_hmac_array` with SHA-256 and 64 bytes of output.
///
/// Claims that the result is a function of password, salt and rounds.
#[verifier::external_body]
pub(crate) fn pbkdf2_sha256(password: &[u8], salt: &[u8], rounds: u32) -> (out: [u8; 64])
    ensures
        out@ == pbkdf2_sha256_derived(password@, salt@, rounds),
{
    pbkdf2::pbkdf2_hmac_array::<sha2::Sha256, 64>(password, salt, rounds)
}

/// Calls `getrandom::getrandom` for 64 bytes.
///
/// Claims nothing of the bytes; `None` stands for the error of the random
/// source.
#[verifier::external_body]
pub(crate) fn os_entropy() -> (out: Option<[u8; 64]>)
{
    let mut buffer = [0u8; 64];
    match getrandom::getrandom(&mut buffer) {
        Ok(()) => Some(buffer),
        Err(_) => None,
    }
}

} // verus!
