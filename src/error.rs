//! What can go wrong while sharing a file.
use vstd::prelude::*;

verus! {

/// Why an upload or a download did not complete.
#[derive(Debug, Clone, Copy, PartialEq, Eq, Structural)]
pub enum ShareError {
    /// The filename does not open under the key derived from the passphrase.
    WrongPassphrase,
    /// A ciphertext block does not open at its place in the stream.
    CiphertextCorrupted,
    /// A block, or the whole plaintext, does not have the length the
    /// descriptor announces.
    SizeMismatch,
    /// The relay answered with this non-success status.
    RelayError(u16),
    /// The relay knows no share under the requested id.
    UnknownShare,
    /// The random generator could not provide the salt or a nonce.
    EntropyUnavailable,
    /// The descriptor's salt, nonces or block size cannot describe a share.
    MalformedMetadata,
    /// The block size is zero, or too large for a single cipher message.
    InvalidBlockSize,
    /// A message is too long for the cipher.
    MessageTooLong,
    /// The stream has used every block position its 32-bit counter allows,
    /// or has already sealed or opened its last block.
    StreamExhausted,
}

} // verus!
