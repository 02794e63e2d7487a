//! The per-share secrets: key derivation from the passphrase, the random
//! salt and nonces, and the filename cipher.
use crate::crypto::{
    aead_len_ok, aead_open, aead_seal, hkdf_sha256, hkdf_sha256_expand, os_random_bytes,
    xchacha20poly1305_seal, KEY_LEN, NONCE_LEN, STREAM_PREFIX_LEN,
};
use crate::error::ShareError;
use vstd::prelude::*;

verus! {

/// Bytes of the key-derivation salt.
pub const SALT_LEN: usize = 32;

/// The key of a share: HKDF-SHA256 of the passphrase and the salt, with
/// empty info, 32 bytes long.
pub open spec fn share_key(passphrase: Seq<u8>, salt: Seq<u8>) -> Seq<u8> {
    hkdf_sha256(passphrase, salt, KEY_LEN as nat)
}

/// `ciphertext` is the sealed form of `plain` under `key` and `nonce`.
pub open spec fn opens_to(key: Seq<u8>, nonce: Seq<u8>, ciphertext: Seq<u8>, plain: Seq<u8>) -> bool {
    aead_len_ok(plain.len()) && xchacha20poly1305_seal(key, nonce, plain) == ciphertext
}

/// Derives the 32-byte key of a share from the passphrase and the salt.
pub fn derive_key(passphrase: &[u8], salt: &[u8]) -> (key: Vec<u8>)
    ensures
        key@ == share_key(passphrase@, salt@),
        key@.len() == KEY_LEN,
{
    match hkdf_sha256_expand(passphrase, salt, KEY_LEN) {
        Ok(key) => key,
        Err(_) => Vec::new(),
    }
}

/// Seals the filename's bytes under the key and the filename nonce; the
/// result is 16 bytes longer.
pub fn seal_filename(key: &[u8], nonce: &[u8], filename: &[u8]) -> (r: Result<Vec<u8>, ShareError>)
    requires
        key@.len() == KEY_LEN,
        nonce@.len() == NONCE_LEN,
    ensures
        r is Ok <==> aead_len_ok(filename@.len()),
        r is Ok ==> r->Ok_0@ == xchacha20poly1305_seal(key@, nonce@, filename@),
        r is Ok ==> r->Ok_0@.len() == filename@.len() + 16,
        r is Err ==> r == Err::<Vec<u8>, ShareError>(ShareError::MessageTooLong),
{
    match aead_seal(key, nonce, filename) {
        Ok(c) => Ok(c),
        Err(_) => Err(ShareError::MessageTooLong),
    }
}

/// Opens a sealed filename; fails with `WrongPassphrase` when it does not
/// open under this key and nonce.
pub fn open_filename(key: &[u8], nonce: &[u8], ciphertext: &[u8]) -> (r: Result<Vec<u8>, ShareError>)
    requires
        key@.len() == KEY_LEN,
        nonce@.len() == NONCE_LEN,
    ensures
        r is Ok ==> opens_to(key@, nonce@, ciphertext@, r->Ok_0@),
        forall|p: Seq<u8>| #[trigger] opens_to(key@, nonce@, ciphertext@, p) ==> r is Ok && r->Ok_0@ == p,
        r is Err ==> r == Err::<Vec<u8>, ShareError>(ShareError::WrongPassphrase),
{
    match aead_open(key, nonce, ciphertext) {
        Ok(p) => Ok(p),
        Err(_) => Err(ShareError::WrongPassphrase),
    }
}

/// The random values drawn once per share.
#[derive(Debug, Clone, PartialEq, Eq)]
pub struct ShareSecrets {
    /// Salt of the key derivation, 32 bytes.
    pub salt: Vec<u8>,
    /// Nonce prefix of the block stream, 19 bytes.
    pub stream_nonce: Vec<u8>,
    /// Nonce of the filename cipher, 24 bytes.
    pub filename_nonce: Vec<u8>,
}

impl ShareSecrets {
    /// Each value has the length its use requires.
    pub open spec fn wf(&self) -> bool {
        &&& self.salt@.len() == SALT_LEN
        &&& self.stream_nonce@.len() == STREAM_PREFIX_LEN
        &&& self.filename_nonce@.len() == NONCE_LEN
    }

    /// Draws a fresh salt and fresh nonces from the operating system's
    /// generator; fails with `EntropyUnavailable` when it cannot.
    pub fn generate() -> (r: Result<ShareSecrets, ShareError>)
        ensures
            r is Ok ==> r->Ok_0.wf(),
            r is Err ==> r == Err::<ShareSecrets, ShareError>(ShareError::EntropyUnavailable),
    {
        let salt = match os_random_bytes(SALT_LEN) {
            Ok(b) => b,
            Err(_) => return Err(ShareError::EntropyUnavailable),
        };
        let stream_nonce = match os_random_bytes(STREAM_PREFIX_LEN) {
            Ok(b) => b,
            Err(_) => return Err(ShareError::EntropyUnavailable),
        };
        let filename_nonce = match os_random_bytes(NONCE_LEN) {
            Ok(b) => b,
            Err(_) => return Err(ShareError::EntropyUnavailable),
        };
        Ok(ShareSecrets { salt, stream_nonce, filename_nonce })
    }
}

} // verus!
