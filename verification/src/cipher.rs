//! The boundary to OpenSSL: AES-256 in CBC mode with PKCS#7 padding.
//!
//! Nothing in this module is proved. The two spec functions name what the
//! cipher returns; the two wrappers are believed to return exactly that.

use openssl::error::ErrorStack;
use openssl::symm::Cipher;
use vstd::prelude::*;

verus! {

/// Key length of AES-256, in bytes.
pub const KEY_LEN: usize = 32;

/// Length of the CBC initialization vector, in bytes (one AES block).
pub const IV_LEN: usize = 16;

/// Longest input handed to the cipher in one call: the cipher counts bytes in
/// a signed 32-bit integer and may add one block of padding.
pub const MAX_CIPHER_INPUT: usize = 0x7fff_ffef;

/// `openssl::error::ErrorStack`, the error queue OpenSSL hands back when a
/// call fails. Nothing is known of its contents here.
#[verifier::external_type_specification]
#[verifier::external_body]
pub struct ExErrorStack(ErrorStack);

/// What AES-256-CBC encryption with PKCS#7 padding makes of `plaintext` under
/// `key` and `iv`: the ciphertext, or `None` where the cipher gives none.
pub uninterp spec fn aes256_cbc_seal(key: Seq<u8>, iv: Seq<u8>, plaintext: Seq<u8>) -> Option<Seq<u8>>;

/// What AES-256-CBC decryption makes of `ciphertext` under `key` and `iv`:
/// the plaintext, or `None` where the cipher gives none (the input is not a
/// whole number of blocks, or its padding is wrong).
pub uninterp spec fn aes256_cbc_open(key: Seq<u8>, iv: Seq<u8>, ciphertext: Seq<u8>) -> Option<Seq<u8>>;

/// Calls `openssl::symm::encrypt` with the AES-256-CBC cipher.
///
/// Believed, not proved: the call's result is the one named by
/// [`aes256_cbc_seal`], a function of key, vector and input alone, with an
/// error standing for `None`; and a ciphertext it returns decrypts back to
/// the input under the same key and vector. That the call succeeds is not
/// claimed. The length bounds keep OpenSSL's binding away from its own
/// assertions on key, vector and input sizes.
#[verifier::external_body]
pub(crate) fn seal_bytes(key: &[u8], iv: &[u8], plaintext: &[u8]) -> (r: Result<
    Vec<u8>,
    ErrorStack,
>)
    requires
        key@.len() == KEY_LEN,
        iv@.len() == IV_LEN,
        plaintext@.len() <= MAX_CIPHER_INPUT,
    ensures
        r is Ok <==> aes256_cbc_seal(key@, iv@, plaintext@) is Some,
        r matches Ok(c) ==> aes256_cbc_seal(key@, iv@, plaintext@) == Some(c@),
        r matches Ok(c) ==> aes256_cbc_open(key@, iv@, c@) == Some(plaintext@),
{
    openssl::symm::encrypt(Cipher::aes_256_cbc(), key, Some(iv), plaintext)
}

/// Calls `openssl::symm::decrypt` with the AES-256-CBC cipher.
///
/// Believed, not proved: the call's result is the one named by
/// [`aes256_cbc_open`], a function of key, vector and input alone, with an
/// error standing for `None`. That the call succeeds is not claimed.
#[verifier::external_body]
pub(crate) fn open_bytes(key: &[u8], iv: &[u8], ciphertext: &[u8]) -> (r: Result<
    Vec<u8>,
    ErrorStack,
>)
    requires
        key@.len() == KEY_LEN,
        iv@.len() == IV_LEN,
        ciphertext@.len() <= MAX_CIPHER_INPUT,
    ensures
        r is Ok <==> aes256_cbc_open(key@, iv@, ciphertext@) is Some,
        r matches Ok(p) ==> aes256_cbc_open(key@, iv@, ciphertext@) == Some(p@),
{
    openssl::symm::decrypt(Cipher::aes_256_cbc(), key, Some(iv), ciphertext)
}

} // verus!
