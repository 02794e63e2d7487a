//! The byte fields of the share descriptor as they stand in its JSON:
//! standard base64 with padding.
use crate::error::ShareError;
use base64::Engine;
use vstd::prelude::*;

verus! {

#[verifier::external_type_specification]
#[verifier::external_body]
pub struct ExDecodeError(base64::DecodeError);

/// Standard base64 (RFC 4648 alphabet, `=` padding) of `bytes`.
pub uninterp spec fn base64_of(bytes: Seq<u8>) -> Seq<char>;

/// Characters in the standard base64 of `n` bytes: four for each three
/// bytes or part of three.
pub open spec fn base64_len(n: nat) -> nat {
    4 * ((n + 2) / 3)
}

/// Relies on base64's `engine::general_purpose::STANDARD` through
/// `Engine::encode`: standard alphabet with padding, four characters for each
/// three bytes or part of three; it panics only when that length overflows
/// `usize`.
#[verifier::external_body]
fn base64_encode(bytes: &[u8]) -> (r: String)
    requires
        base64_len(bytes@.len()) <= usize::MAX,
    ensures
        r@ == base64_of(bytes@),
        r@.len() == base64_len(bytes@.len()),
{
    base64::engine::general_purpose::STANDARD.encode(bytes)
}

/// Relies on base64's `engine::general_purpose::STANDARD` through
/// `Engine::decode`: what `Engine::encode` produced decodes back to the same
/// bytes.
#[verifier::external_body]
fn base64_decode(text: &str) -> (r: Result<Vec<u8>, base64::DecodeError>)
    ensures
        forall|b: Seq<u8>| #[trigger] base64_of(b) == text@ ==> r is Ok && r->Ok_0@ == b,
{
    base64::engine::general_purpose::STANDARD.decode(text)
}

/// A byte field written for the descriptor's JSON.
pub fn encode_field(bytes: &[u8]) -> (text: String)
    requires
        base64_len(bytes@.len()) <= usize::MAX,
    ensures
        text@ == base64_of(bytes@),
        text@.len() == base64_len(bytes@.len()),
{
    base64_encode(bytes)
}

/// A byte field read back from the descriptor's JSON. Whatever
/// `encode_field` wrote comes back as the same bytes; text that is not
/// standard base64 is `MalformedMetadata`.
pub fn decode_field(text: &str) -> (r: Result<Vec<u8>, ShareError>)
    ensures
        forall|b: Seq<u8>| #[trigger] base64_of(b) == text@ ==> r is Ok && r->Ok_0@ == b,
        r is Err ==> r->Err_0 == ShareError::MalformedMetadata,
{
    match base64_decode(text) {
        Ok(bytes) => Ok(bytes),
        Err(_) => Err(ShareError::MalformedMetadata),
    }
}

} // verus!
