//! The share descriptor: everything a recipient needs, besides the
//! passphrase, to open a share.
use vstd::prelude::*;

verus! {

/// The descriptor as the relay stores and serves it, stamped with the
/// email of the account that created the share.
#[derive(Debug, Clone, PartialEq, Eq)]
pub struct Metadata {
    pub creator_email: String,
    /// Salt of the key derivation.
    pub salt: Vec<u8>,
    /// Nonce prefix of the block stream.
    pub nonce: Vec<u8>,
    /// Nonce of the filename cipher.
    pub filename_nonce: Vec<u8>,
    /// The sealed filename.
    pub filename: Vec<u8>,
    /// Plaintext bytes of the whole file.
    pub size: usize,
    /// Plaintext bytes of every block but the last.
    pub block_size: usize,
}

/// The descriptor as an uploader sends it: without the creator's email,
/// which the relay adds.
#[derive(Debug, Clone, PartialEq, Eq)]
pub struct MetadataCreationReq {
    pub salt: Vec<u8>,
    pub nonce: Vec<u8>,
    pub filename_nonce: Vec<u8>,
    pub filename: Vec<u8>,
    pub size: usize,
    pub block_size: usize,
}

impl MetadataCreationReq {
    /// The stored descriptor: this request stamped with `creator_email`.
    pub fn into_metadata(self, creator_email: String) -> (m: Metadata)
        ensures
            m.creator_email@ == creator_email@,
            m.salt@ == self.salt@,
            m.nonce@ == self.nonce@,
            m.filename_nonce@ == self.filename_nonce@,
            m.filename@ == self.filename@,
            m.size == self.size,
            m.block_size == self.block_size,
    {
        let MetadataCreationReq { salt, nonce, filename_nonce, filename, size, block_size } = self;
        Metadata { creator_email, salt, nonce, filename_nonce, filename, size, block_size }
    }
}

} // verus!
