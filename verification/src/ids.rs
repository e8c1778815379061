//! Identifier text and long-term public key validation, performed by
//! outside crates behind trusted contracts.

use vstd::prelude::*;

verus! {

/// The identifier that a byte text parses to, when it is well-formed UUID
/// text; the result depends on the bytes alone.
pub uninterp spec fn uuid_of_bytes(b: Seq<u8>) -> Option<u128>;

/// The canonical hyphenated text of an identifier; it depends on the
/// identifier alone.
pub uninterp spec fn hyphenated_of(id: u128) -> Seq<u8>;

/// Whether a byte sequence is a well-formed Ed25519 public key; this
/// depends on the bytes alone.
pub uninterp spec fn ed25519_valid(b: Seq<u8>) -> bool;

/// Relies on uuid::Uuid::try_parse_ascii (and as_u128 to read the parsed
/// value out): whether and how ASCII text parses as a UUID is a function
/// of the bytes alone.
#[verifier::external_body]
pub(crate) fn parse_uuid(b: &[u8]) -> (r: Option<u128>)
    ensures
        r == uuid_of_bytes(b@),
{
    match uuid::Uuid::try_parse_ascii(b) {
        Ok(u) => Some(u.as_u128()),
        Err(_) => None,
    }
}

/// Relies on uuid::Uuid::hyphenated (via from_u128): the canonical
/// hyphenated text is a function of the identifier alone and is always 36
/// bytes long.
#[verifier::external_body]
pub(crate) fn uuid_to_hyphenated(id: u128) -> (r: Vec<u8>)
    ensures
        r@ == hyphenated_of(id),
        r@.len() == 36,
{
    uuid::Uuid::from_u128(id).hyphenated().to_string().into_bytes()
}

/// Relies on ed25519_dalek::PublicKey::from_bytes: whether bytes form a
/// well-formed public key is a function of the bytes alone, and from_bytes
/// refuses every input that is not exactly 32 bytes. Two well-formed keys
/// parse to equal PublicKey values exactly when their bytes are equal,
/// since from_bytes keeps the compressed bytes it was given.
#[verifier::external_body]
pub(crate) fn validate_ltpk(b: &[u8]) -> (r: bool)
    ensures
        r == ed25519_valid(b@),
        r ==> b@.len() == 32,
{
    ed25519_dalek::PublicKey::from_bytes(b).is_ok()
}

} // verus!
