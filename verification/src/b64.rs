//! Base64 over string variables, through the `base64` crate's standard
//! alphabet with padding.

use vstd::prelude::*;
use base64::Engine;

use crate::errors::InterpError;
use crate::text::utf8_to_string;
use vstd::string::StringSliceAdditionalSpecFns;

verus! {

/// The standard-alphabet, padded base64 text of a byte sequence, as
/// `base64`'s `STANDARD` engine encodes it.
pub uninterp spec fn b64_encode_of(bytes: Seq<u8>) -> Seq<char>;

/// The bytes the `STANDARD` engine decodes base64 text to, or None where the
/// text is not valid base64.
pub uninterp spec fn b64_decode_of(text: Seq<char>) -> Option<Seq<u8>>;

/// Relies on base64's `Engine::encode` with the `STANDARD` engine: the
/// base64 rendering of the bytes, a function of the bytes alone; decoding
/// that canonical, padded rendering gives the bytes back, as the crate's
/// decode documents.
#[verifier::external_body]
fn b64_encode_bytes(bytes: &[u8]) -> (r: String)
    ensures
        r@ == b64_encode_of(bytes@),
        b64_decode_of(r@) == Some(bytes@),
{
    base64::engine::general_purpose::STANDARD.encode(bytes)
}

/// Relies on base64's `Engine::decode` with the `STANDARD` engine: the bytes
/// the text encodes, or an error on text outside the base64 alphabet.
#[verifier::external_body]
fn b64_decode_text(text: &str) -> (r: Option<Vec<u8>>)
    ensures
        match r {
            Some(v) => b64_decode_of(text@) == Some(v@),
            None => b64_decode_of(text@) is None,
        },
{
    match base64::engine::general_purpose::STANDARD.decode(text.as_bytes()) {
        Ok(v) => Some(v),
        Err(_) => None,
    }
}

/// Encodes the UTF-8 bytes of a string as base64 text; decoding the result
/// gives those bytes back.
pub fn encode_base64(input: &str) -> (r: String)
    ensures
        r@ == b64_encode_of(input.spec_bytes()),
        b64_decode_of(r@) == Some(input.spec_bytes()),
{
    let bytes = input.as_bytes();
    b64_encode_bytes(bytes)
}

/// Decodes base64 text back to a string; fails on text that is not base64 or
/// whose decoded bytes are not UTF-8.
pub fn decode_base64(input: &str) -> (r: Result<String, InterpError>)
    ensures
        match r {
            Ok(s) => b64_decode_of(input@) matches Some(bytes) && vstd::utf8::encode_utf8(s@)
                == bytes && vstd::utf8::valid_utf8(bytes),
            Err(e) => e is Io && (b64_decode_of(input@) matches Some(bytes) ==> !vstd::utf8::valid_utf8(
                bytes,
            )),
        },
{
    match b64_decode_text(input) {
        None => Err(InterpError::Io(input.to_owned())),
        Some(bytes) => {
            match utf8_to_string(&bytes) {
                Some(s) => Ok(s),
                None => Err(InterpError::Io(input.to_owned())),
            }
        },
    }
}

} // verus!
