//! End-to-end encrypted file sharing: passphrase key derivation, the
//! filename cipher, the STREAM block construction over XChaCha20-Poly1305,
//! the share descriptor and the upload and download drivers.

pub mod cli;
pub mod config;
pub mod crypto;
pub mod descriptor;
pub mod download;
pub mod encoding;
pub mod error;
pub mod keys;
pub mod layout;
pub mod relay;
pub mod route;
pub mod session;
pub mod statics;
pub mod upload;
