//! Secrets that the service is configured with, as base64 text.

use vstd::prelude::*;

verus! {

/// `base64::DecodeError`, carried through as it is.
#[verifier::external_type_specification]
#[verifier::external_body]
pub struct ExDecodeError(base64::DecodeError);

/// The bytes that standard base64 text with padding stands for, `None` where
/// the text is no such encoding.
pub uninterp spec fn base64_decoded(encoded: Seq<char>) -> Option<Seq<u8>>;

/// `base64::Engine::decode` of `base64::engine::general_purpose::STANDARD`:
/// decodes standard base64 with padding. What comes back is a function of the
/// text alone.
#[verifier::external_body]
fn decode_standard(encoded: &str) -> (r: Result<Vec<u8>, base64::DecodeError>)
    ensures
        match r {
            Ok(bytes) => base64_decoded(encoded@) == Some(bytes@),
            Err(_) => base64_decoded(encoded@) is None,
        },
{
    base64::Engine::decode(&base64::engine::general_purpose::STANDARD, encoded)
}

/// Why a configured secret cannot be used.
#[derive(Debug)]
pub enum SecretError {
    /// The text is not valid base64.
    NotBase64(base64::DecodeError),
}

/// The bytes of a secret that is configured as standard base64 text.
pub fn decode_secret(encoded: &str) -> (r: Result<Vec<u8>, SecretError>)
    ensures
        match r {
            Ok(bytes) => base64_decoded(encoded@) == Some(bytes@),
            Err(e) => base64_decoded(encoded@) is None && e is NotBase64,
        },
{
    match decode_standard(encoded) {
        Ok(bytes) => Ok(bytes),
        Err(e) => Err(SecretError::NotBase64(e)),
    }
}

} // verus!
