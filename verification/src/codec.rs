//! Trusted seams to the outside text codecs the protocol uses:
//! voice clips arrive base64-encoded, and file contents are handed
//! back to the UI base64-encoded.

use vstd::prelude::*;

verus! {

/// What standard base64 decoding yields for a text: the decoded
/// bytes, or nothing where the text is not valid base64.
pub uninterp spec fn b64_decode_of(s: Seq<char>) -> Option<Seq<u8>>;

/// What standard base64 encoding yields for a byte run.
pub uninterp spec fn b64_encode_of(b: Seq<u8>) -> Seq<char>;

/// Relies on base64's STANDARD engine `decode`: a pure function of
/// the input text that fails exactly on invalid base64.  The error
/// text is the engine's own description.
#[verifier::external_body]
pub fn b64_decode(s: &String) -> (r: Result<Vec<u8>, String>)
    ensures
        r is Ok <==> b64_decode_of(s@) is Some,
        r matches Ok(d) ==> Some(d@) == b64_decode_of(s@),
{
    match base64::Engine::decode(&base64::engine::general_purpose::STANDARD, s.as_str()) {
        Ok(v) => Ok(v),
        Err(e) => Err(format!("{}", e)),
    }
}

/// Relies on base64's STANDARD engine `encode`: a pure function of
/// the input bytes, four output characters for every started group
/// of three input bytes, the last group padded.
#[verifier::external_body]
pub fn b64_encode(b: &Vec<u8>) -> (r: String)
    ensures
        r@ == b64_encode_of(b@),
        r@.len() == 4 * ((b@.len() + 2) / 3),
{
    base64::Engine::encode(&base64::engine::general_purpose::STANDARD, b.as_slice())
}

} // verus!
