//! A cipher session: one key and one initialization vector, usable in both
//! directions. Every call is a complete transform of its whole input.

use crate::cipher::{
    aes256_cbc_open, aes256_cbc_seal, open_bytes, seal_bytes, IV_LEN, KEY_LEN, MAX_CIPHER_INPUT,
};
use crate::error::CryptoError;
use vstd::prelude::*;
use vstd::slice::slice_to_vec;

verus! {

/// The bytes an executable result holds, or its error.
pub open spec fn bytes_of(r: Result<Vec<u8>, CryptoError>) -> Result<Seq<u8>, CryptoError> {
    match r {
        Ok(bytes) => Ok(bytes@),
        Err(e) => Err(e),
    }
}

/// Encryption under `key` and `iv` as a session performs it: the cipher's
/// ciphertext, and an error where the input is longer than
/// [`MAX_CIPHER_INPUT`], where the cipher gives no ciphertext, and where the
/// ciphertext is itself longer than [`MAX_CIPHER_INPUT`].
pub open spec fn encrypted_under(key: Seq<u8>, iv: Seq<u8>, plaintext: Seq<u8>) -> Result<
    Seq<u8>,
    CryptoError,
> {
    if plaintext.len() > MAX_CIPHER_INPUT {
        Err(CryptoError::EncryptFailure)
    } else {
        match aes256_cbc_seal(key, iv, plaintext) {
            Some(ciphertext) => if ciphertext.len() <= MAX_CIPHER_INPUT {
                Ok(ciphertext)
            } else {
                Err(CryptoError::EncryptFailure)
            },
            None => Err(CryptoError::EncryptFailure),
        }
    }
}

/// Decryption under `key` and `iv` as a session performs it: what the
/// ciphertext opens to, and an error where the input is longer than
/// [`MAX_CIPHER_INPUT`] or opens to nothing.
pub open spec fn decrypted_under(key: Seq<u8>, iv: Seq<u8>, ciphertext: Seq<u8>) -> Result<
    Seq<u8>,
    CryptoError,
> {
    if ciphertext.len() > MAX_CIPHER_INPUT {
        Err(CryptoError::DecryptFailure)
    } else {
        match aes256_cbc_open(key, iv, ciphertext) {
            Some(plaintext) => Ok(plaintext),
            None => Err(CryptoError::DecryptFailure),
        }
    }
}

/// Key material of one peer, checked for length at construction.
pub struct CryptoSession {
    key: Vec<u8>,
    iv: Vec<u8>,
}

impl CryptoSession {
    /// The session key.
    pub closed spec fn key(&self) -> Seq<u8> {
        self.key@
    }

    /// The session initialization vector.
    pub closed spec fn iv(&self) -> Seq<u8> {
        self.iv@
    }

    /// Key and vector have the lengths the cipher needs.
    pub open spec fn wf(&self) -> bool {
        &&& self.key().len() == KEY_LEN
        &&& self.iv().len() == IV_LEN
    }

    #[verifier::type_invariant]
    spec fn inv(&self) -> bool {
        self.wf()
    }

    /// What the cipher makes of `plaintext` under this session, if anything.
    pub open spec fn sealed(&self, plaintext: Seq<u8>) -> Option<Seq<u8>> {
        aes256_cbc_seal(self.key(), self.iv(), plaintext)
    }

    /// What `ciphertext` decrypts to under this session, if anything.
    pub open spec fn opened(&self, ciphertext: Seq<u8>) -> Option<Seq<u8>> {
        aes256_cbc_open(self.key(), self.iv(), ciphertext)
    }

    /// What [`CryptoSession::encrypt`] returns for `plaintext`.
    pub open spec fn encrypted(&self, plaintext: Seq<u8>) -> Result<Seq<u8>, CryptoError> {
        encrypted_under(self.key(), self.iv(), plaintext)
    }

    /// What [`CryptoSession::decrypt`] returns for `ciphertext`.
    pub open spec fn decrypted(&self, ciphertext: Seq<u8>) -> Result<Seq<u8>, CryptoError> {
        decrypted_under(self.key(), self.iv(), ciphertext)
    }

    /// `ciphertext` is what this session returns for `plaintext`, and it
    /// opens again to `plaintext` under the same key and vector.
    pub open spec fn encrypts_to(&self, plaintext: Seq<u8>, ciphertext: Seq<u8>) -> bool {
        &&& self.encrypted(plaintext) == Ok::<Seq<u8>, CryptoError>(ciphertext)
        &&& self.opened(ciphertext) == Some(plaintext)
    }

    /// Binds a session to `key` and `iv`. Succeeds exactly when the key has
    /// [`KEY_LEN`] bytes and the vector [`IV_LEN`].
    pub fn new(key: &[u8], iv: &[u8]) -> (r: Result<CryptoSession, CryptoError>)
        ensures
            r is Ok <==> key@.len() == KEY_LEN && iv@.len() == IV_LEN,
            r matches Ok(s) ==> s.wf() && s.key() == key@ && s.iv() == iv@,
            r matches Err(e) ==> e == CryptoError::InvalidKeyMaterial,
    {
        if key.len() != KEY_LEN || iv.len() != IV_LEN {
            return Err(CryptoError::InvalidKeyMaterial);
        }
        Ok(CryptoSession { key: slice_to_vec(key), iv: slice_to_vec(iv) })
    }

    /// An independent session over the same key material.
    pub fn duplicate(&self) -> (r: CryptoSession)
        ensures
            r.wf(),
            r.key() == self.key(),
            r.iv() == self.iv(),
    {
        proof {
            use_type_invariant(self);
        }
        CryptoSession { key: slice_to_vec(self.key.as_slice()), iv: slice_to_vec(self.iv.as_slice()) }
    }

    /// Encrypts `plaintext` as one complete message.
    ///
    /// The result is the cipher's ciphertext of the input under this
    /// session's key and vector. It is an error where the input is longer
    /// than [`MAX_CIPHER_INPUT`], where the cipher gives no ciphertext, and
    /// where the ciphertext would be longer than [`CryptoSession::decrypt`]
    /// takes. A ciphertext that is returned decrypts back to the input.
    pub fn encrypt(&self, plaintext: &[u8]) -> (r: Result<Vec<u8>, CryptoError>)
        ensures
            bytes_of(r) == self.encrypted(plaintext@),
            r matches Ok(c) ==> self.encrypts_to(plaintext@, c@),
            r matches Ok(c) ==> self.decrypted(c@) == Ok::<Seq<u8>, CryptoError>(plaintext@),
    {
        proof {
            use_type_invariant(self);
        }
        if plaintext.len() > MAX_CIPHER_INPUT {
            return Err(CryptoError::EncryptFailure);
        }
        match seal_bytes(self.key.as_slice(), self.iv.as_slice(), plaintext) {
            Ok(c) => {
                if c.len() > MAX_CIPHER_INPUT {
                    Err(CryptoError::EncryptFailure)
                } else {
                    Ok(c)
                }
            },
            Err(_) => Err(CryptoError::EncryptFailure),
        }
    }

    /// Decrypts `ciphertext` as one complete message.
    ///
    /// The result is what the ciphertext opens to under this session's key
    /// and vector. It is an error where the input is longer than
    /// [`MAX_CIPHER_INPUT`] and where it opens to nothing.
    pub fn decrypt(&self, ciphertext: &[u8]) -> (r: Result<Vec<u8>, CryptoError>)
        ensures
            bytes_of(r) == self.decrypted(ciphertext@),
    {
        proof {
            use_type_invariant(self);
        }
        if ciphertext.len() > MAX_CIPHER_INPUT {
            return Err(CryptoError::DecryptFailure);
        }
        match open_bytes(self.key.as_slice(), self.iv.as_slice(), ciphertext) {
            Ok(p) => Ok(p),
            Err(_) => Err(CryptoError::DecryptFailure),
        }
    }
}

/// Encrypting and then decrypting under one session gives the input back:
/// `decrypt` returns `Ok` of the plaintext for every ciphertext that
/// `encrypt` returned for it.
pub proof fn lemma_round_trip(session: CryptoSession, plaintext: Seq<u8>, ciphertext: Seq<u8>)
    requires
        session.encrypts_to(plaintext, ciphertext),
    ensures
        session.decrypted(ciphertext) == Ok::<Seq<u8>, CryptoError>(plaintext),
{
}

/// Sessions over the same key material are interchangeable: what one
/// encrypts and decrypts, the other does too.
pub proof fn lemma_same_material(a: CryptoSession, b: CryptoSession, bytes: Seq<u8>)
    requires
        a.key() == b.key(),
        a.iv() == b.iv(),
    ensures
        a.encrypted(bytes) == b.encrypted(bytes),
        a.decrypted(bytes) == b.decrypted(bytes),
{
}

} // verus!
