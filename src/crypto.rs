//! The cryptographic primitives this library builds on, each reached through
//! one small trusted function.
use aead::stream::{NewStream, StreamBE32, StreamPrimitive};
use chacha20poly1305::aead::generic_array::GenericArray;
use chacha20poly1305::aead::Aead;
use chacha20poly1305::{Key, KeyInit, XChaCha20Poly1305, XNonce};
use hkdf::Hkdf;
use sha2::Sha256;
use vstd::prelude::*;

verus! {

#[verifier::external_type_specification]
#[verifier::external_body]
pub struct ExAeadError(aead::Error);

#[verifier::external_type_specification]
#[verifier::external_body]
pub struct ExInvalidLength(hkdf::InvalidLength);

#[verifier::external_type_specification]
#[verifier::external_body]
pub struct ExRandomError(getrandom::Error);

/// HKDF-SHA256 output of `len` bytes for input key material `ikm`, `salt`
/// and empty `info`.
pub uninterp spec fn hkdf_sha256(ikm: Seq<u8>, salt: Seq<u8>, len: nat) -> Seq<u8>;

/// XChaCha20-Poly1305 ciphertext (message followed by its 16-byte tag) of
/// `plaintext` under `key` and the 24-byte `nonce`, with no associated data.
pub uninterp spec fn xchacha20poly1305_seal(key: Seq<u8>, nonce: Seq<u8>, plaintext: Seq<u8>) -> Seq<u8>;

/// Bytes in an XChaCha20-Poly1305 authentication tag.
pub const TAG_LEN: usize = 16;

/// Bytes in a key.
pub const KEY_LEN: usize = 32;

/// Bytes in a single-shot XChaCha20-Poly1305 nonce.
pub const NONCE_LEN: usize = 24;

/// Bytes in a STREAM nonce prefix: the full nonce less the counter and flag.
pub const STREAM_PREFIX_LEN: usize = 19;

/// Most bytes HKDF-SHA256 can expand to (255 blocks of 32 bytes).
pub const HKDF_MAX_OUTPUT: usize = 8160;

/// A message length the cipher accepts: fewer than 2^32 - 1 keystream blocks
/// of 64 bytes.
pub open spec fn aead_len_ok(n: nat) -> bool {
    n / 64 < 0xffff_ffff
}

/// The four big-endian bytes of `x` taken modulo 2^32.
pub open spec fn be32(x: int) -> Seq<u8> {
    seq![
        (x / 0x100_0000 % 0x100) as u8,
        (x / 0x1_0000 % 0x100) as u8,
        (x / 0x100 % 0x100) as u8,
        (x % 0x100) as u8,
    ]
}

/// The STREAM nonce of the block at `position`: the 19-byte prefix, the
/// position as a big-endian 32-bit counter, and a last-block flag byte.
pub open spec fn block_nonce(prefix: Seq<u8>, position: int, last: bool) -> Seq<u8> {
    prefix + be32(position) + seq![if last { 1u8 } else { 0u8 }]
}

/// Relies on hkdf's `Hkdf::<Sha256>::new(Some(salt), ikm)` followed by
/// `Hkdf::expand` with empty info: the expansion fails exactly when more than
/// 255 * 32 bytes are asked for, and otherwise fills all `len` bytes.
#[verifier::external_body]
pub(crate) fn hkdf_sha256_expand(ikm: &[u8], salt: &[u8], len: usize) -> (r: Result<Vec<u8>, hkdf::InvalidLength>)
    ensures
        r is Ok <==> len <= HKDF_MAX_OUTPUT,
        r is Ok ==> r->Ok_0@ == hkdf_sha256(ikm@, salt@, len as nat),
        r is Ok ==> r->Ok_0@.len() == len,
{
    let mut okm = vec![0u8; len];
    Hkdf::<Sha256>::new(Some(salt), ikm).expand(&[], &mut okm)?;
    Ok(okm)
}

/// Relies on chacha20poly1305's `XChaCha20Poly1305` through `Aead::encrypt`
/// with no associated data: a message of `64 * (2^32 - 1)` bytes or more is
/// refused, any other comes back followed by its 16-byte tag.
#[verifier::external_body]
pub(crate) fn aead_seal(key: &[u8], nonce: &[u8], plaintext: &[u8]) -> (r: Result<Vec<u8>, aead::Error>)
    requires
        key@.len() == KEY_LEN,
        nonce@.len() == NONCE_LEN,
    ensures
        r is Ok <==> aead_len_ok(plaintext@.len()),
        r is Ok ==> r->Ok_0@ == xchacha20poly1305_seal(key@, nonce@, plaintext@),
        r is Ok ==> r->Ok_0@.len() == plaintext@.len() + TAG_LEN,
{
    XChaCha20Poly1305::new(Key::from_slice(key)).encrypt(XNonce::from_slice(nonce), plaintext)
}

/// Relies on chacha20poly1305's `XChaCha20Poly1305` through `Aead::decrypt`
/// with no associated data: it recomputes the tag over the message part and
/// decrypts with the same keystream as `encrypt`, so it returns `p` exactly
/// when `encrypt` turns `p` into `ciphertext`.
#[verifier::external_body]
pub(crate) fn aead_open(key: &[u8], nonce: &[u8], ciphertext: &[u8]) -> (r: Result<Vec<u8>, aead::Error>)
    requires
        key@.len() == KEY_LEN,
        nonce@.len() == NONCE_LEN,
    ensures
        r is Ok ==> aead_len_ok(r->Ok_0@.len()),
        r is Ok ==> xchacha20poly1305_seal(key@, nonce@, r->Ok_0@) == ciphertext@,
        forall|p: Seq<u8>|
            aead_len_ok(p.len()) && #[trigger] xchacha20poly1305_seal(key@, nonce@, p) == ciphertext@
                ==> r is Ok && r->Ok_0@ == p,
{
    XChaCha20Poly1305::new(Key::from_slice(key)).decrypt(XNonce::from_slice(nonce), ciphertext)
}

/// Relies on aead's `StreamBE32` over `XChaCha20Poly1305`
/// (`StreamPrimitive::encrypt`): the block is sealed by the cipher under the
/// nonce `prefix ‖ be32(position) ‖ last`.
#[verifier::external_body]
pub(crate) fn stream_seal(key: &[u8], prefix: &[u8], position: u32, last: bool, plaintext: &[u8]) -> (r: Result<Vec<u8>, aead::Error>)
    requires
        key@.len() == KEY_LEN,
        prefix@.len() == STREAM_PREFIX_LEN,
    ensures
        r is Ok <==> aead_len_ok(plaintext@.len()),
        r is Ok ==> r->Ok_0@ == xchacha20poly1305_seal(key@, block_nonce(prefix@, position as int, last), plaintext@),
        r is Ok ==> r->Ok_0@.len() == plaintext@.len() + TAG_LEN,
{
    let aead = XChaCha20Poly1305::new(Key::from_slice(key));
    let stream: StreamBE32<XChaCha20Poly1305> = StreamBE32::from_aead(aead, GenericArray::from_slice(prefix));
    stream.encrypt(position, last, plaintext)
}

/// Relies on aead's `StreamBE32` over `XChaCha20Poly1305`
/// (`StreamPrimitive::decrypt`): the block is opened by the cipher under the
/// nonce `prefix ‖ be32(position) ‖ last`.
#[verifier::external_body]
pub(crate) fn stream_open(key: &[u8], prefix: &[u8], position: u32, last: bool, ciphertext: &[u8]) -> (r: Result<Vec<u8>, aead::Error>)
    requires
        key@.len() == KEY_LEN,
        prefix@.len() == STREAM_PREFIX_LEN,
    ensures
        r is Ok ==> aead_len_ok(r->Ok_0@.len()),
        r is Ok ==> xchacha20poly1305_seal(key@, block_nonce(prefix@, position as int, last), r->Ok_0@) == ciphertext@,
        forall|p: Seq<u8>|
            aead_len_ok(p.len())
                && #[trigger] xchacha20poly1305_seal(key@, block_nonce(prefix@, position as int, last), p) == ciphertext@
                ==> r is Ok && r->Ok_0@ == p,
{
    let aead = XChaCha20Poly1305::new(Key::from_slice(key));
    let stream: StreamBE32<XChaCha20Poly1305> = StreamBE32::from_aead(aead, GenericArray::from_slice(prefix));
    stream.decrypt(position, last, ciphertext)
}

/// Relies on getrandom's `getrandom`: when it succeeds it has filled the
/// whole buffer from the operating system's generator.
#[verifier::external_body]
pub(crate) fn os_random_bytes(len: usize) -> (r: Result<Vec<u8>, getrandom::Error>)
    ensures
        r is Ok ==> r->Ok_0@.len() == len,
{
    let mut buf = vec![0u8; len];
    getrandom::getrandom(&mut buf)?;
    Ok(buf)
}

/// Relies on random_string's `generate`: `length` characters, each drawn
/// from `charset`; it panics on an empty charset.
#[verifier::external_body]
pub(crate) fn random_string(length: usize, charset: &str) -> (r: String)
    requires
        charset@.len() > 0,
    ensures
        r@.len() == length,
        forall|i: int| 0 <= i < r@.len() ==> charset@.contains(#[trigger] r@[i]),
{
    random_string::generate(length, charset)
}

} // verus!
