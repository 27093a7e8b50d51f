use crate::error::StorageError;
use vstd::prelude::*;
use vstd::slice::slice_to_vec;

verus! {

/// The AES-256-GCM ciphertext (with its tag) of `plain` under `key` and `nonce`,
/// with no associated data.
pub uninterp spec fn sealed(key: Seq<u8>, nonce: Seq<u8>, plain: Seq<u8>) -> Seq<u8>;

/// The plaintext that AES-256-GCM recovers from `cipher` under `key` and
/// `nonce`, if the tag checks.
pub uninterp spec fn opened(key: Seq<u8>, nonce: Seq<u8>, cipher: Seq<u8>) -> Option<Seq<u8>>;

/// The longest plaintext that AES-GCM encrypts: 2^36 bytes.
pub const MAX_PLAINTEXT: u64 = 0x10_0000_0000;

/// Relies on aes_gcm::Aes256Gcm and `Aead::encrypt`: it fails exactly on a
/// plaintext longer than `P_MAX` (2^36 bytes); the ciphertext depends on key,
/// nonce and plaintext alone, and decryption under the same key and nonce
/// recovers the plaintext.
#[verifier::external_body]
fn aes_gcm_encrypt(key: &[u8; 32], nonce: &[u8; 12], data: &[u8]) -> (r: Result<Vec<u8>, String>)
    ensures
        r is Ok <==> data@.len() <= MAX_PLAINTEXT,
        r matches Ok(c) ==> c@ == sealed(key@, nonce@, data@) && opened(key@, nonce@, c@)
            == Some(data@),
{
    let cipher = <aes_gcm::Aes256Gcm as aes_gcm::KeyInit>::new(aes_gcm::Key::<aes_gcm::Aes256Gcm>::from_slice(key));
    aes_gcm::aead::Aead::encrypt(&cipher, aes_gcm::Nonce::from_slice(nonce), data)
        .map_err(|e| e.to_string())
}

/// Relies on aes_gcm::Aes256Gcm and `Aead::decrypt`: the plaintext, or an
/// error where the tag does not check.
#[verifier::external_body]
fn aes_gcm_decrypt(key: &[u8; 32], nonce: &[u8; 12], data: &[u8]) -> (r: Result<Vec<u8>, String>)
    ensures
        r is Ok <==> opened(key@, nonce@, data@) is Some,
        r matches Ok(p) ==> opened(key@, nonce@, data@) == Some(p@),
{
    let cipher = <aes_gcm::Aes256Gcm as aes_gcm::KeyInit>::new(aes_gcm::Key::<aes_gcm::Aes256Gcm>::from_slice(key));
    aes_gcm::aead::Aead::decrypt(&cipher, aes_gcm::Nonce::from_slice(nonce), data)
        .map_err(|e| e.to_string())
}

/// Symmetric authenticated encryption with a 256-bit key and a fixed 96-bit nonce.
pub struct EncryptionConfig {
    key: [u8; 32],
    nonce: [u8; 12],
    enabled: bool,
}

impl EncryptionConfig {
    pub closed spec fn key_spec(&self) -> Seq<u8> {
        self.key@
    }

    pub closed spec fn nonce_spec(&self) -> Seq<u8> {
        self.nonce@
    }

    pub closed spec fn is_enabled(&self) -> bool {
        self.enabled
    }

    /// `y` is an encryption of `x`: its ciphertext under the key and nonce,
    /// which decrypts back to `x`, when enabled; `x` itself when not.
    pub open spec fn encrypts(&self, x: Seq<u8>, y: Seq<u8>) -> bool {
        if self.is_enabled() {
            y == sealed(self.key_spec(), self.nonce_spec(), x) && opened(
                self.key_spec(),
                self.nonce_spec(),
                y,
            ) == Some(x)
        } else {
            y == x
        }
    }

    /// Encryption succeeds on `x`: always when switched off, else where `x`
    /// is at most `MAX_PLAINTEXT` bytes long.
    pub open spec fn accepts(&self, x: Seq<u8>) -> bool {
        !self.is_enabled() || x.len() <= MAX_PLAINTEXT
    }

    /// What decrypting `y` gives, if the tag checks.
    pub open spec fn decrypted(&self, y: Seq<u8>) -> Option<Seq<u8>> {
        if self.is_enabled() {
            opened(self.key_spec(), self.nonce_spec(), y)
        } else {
            Some(y)
        }
    }

    /// An enabled configuration with the given key and the fixed nonce.
    pub fn new(key: [u8; 32]) -> (r: Self)
        ensures
            r.is_enabled(),
            r.key_spec() == key@,
            r.nonce_spec().len() == 12,
    {
        EncryptionConfig {
            key,
            nonce: [115u8, 111, 109, 101, 100, 117, 109, 98, 115, 104, 105, 116],
            enabled: true,
        }
    }

    /// Encrypts under the key and nonce when enabled; hands the bytes back when not.
    pub fn encrypt(&self, data: &[u8]) -> (r: Result<Vec<u8>, StorageError>)
        ensures
            r is Ok <==> self.accepts(data@),
            r matches Ok(y) ==> self.encrypts(data@, y@),
            r matches Err(e) ==> e is Storage,
    {
        if !self.enabled {
            return Ok(slice_to_vec(data));
        }
        match aes_gcm_encrypt(&self.key, &self.nonce, data) {
            Ok(c) => Ok(c),
            Err(m) => Err(StorageError::Storage(String::from_str("Encryption Error: ").concat(m.as_str()))),
        }
    }

    /// Decrypts and checks the tag when enabled; hands the bytes back when not.
    pub fn decrypt(&self, data: &[u8]) -> (r: Result<Vec<u8>, StorageError>)
        ensures
            r is Ok <==> self.decrypted(data@) is Some,
            r matches Ok(x) ==> self.decrypted(data@) == Some(x@),
            r matches Err(e) ==> e is Storage,
    {
        if !self.enabled {
            return Ok(slice_to_vec(data));
        }
        match aes_gcm_decrypt(&self.key, &self.nonce, data) {
            Ok(p) => Ok(p),
            Err(m) => Err(StorageError::Storage(String::from_str("Decryption error: ").concat(m.as_str()))),
        }
    }
}

/// Decrypting what encryption produced, with the same key and nonce, gives
/// back the plaintext.
pub proof fn lemma_encryption_round_trip(e: EncryptionConfig, x: Seq<u8>, y: Seq<u8>)
    requires
        e.encrypts(x, y),
    ensures
        e.decrypted(y) == Some(x),
{
}

} // verus!
