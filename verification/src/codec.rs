//! Decoding of stored payloads: standard base64 to bytes, then UTF-8 to
//! text. Both decodings are functions of their input alone; the contract's
//! query channel is specified over their named results.

use vstd::prelude::*;

verus! {

/// The byte sequence that standard base64 decoding assigns to `s`, or
/// nothing where `s` is not well-formed base64.
pub uninterp spec fn base64_decode_spec(s: Seq<char>) -> Option<Seq<u8>>;

/// The text that UTF-8 decoding assigns to `bytes`, or nothing where the
/// bytes are not valid UTF-8.
pub uninterp spec fn utf8_decode_spec(bytes: Seq<u8>) -> Option<Seq<char>>;

/// A stored payload's decoded text: base64 to bytes, then bytes to text;
/// nothing where either step rejects its input.
pub open spec fn decoded_note(stored: Seq<char>) -> Option<Seq<char>> {
    match base64_decode_spec(stored) {
        Some(bytes) => utf8_decode_spec(bytes),
        None => None,
    }
}

/// Relies on base64::decode: decoding with the standard alphabet, a function
/// of the input characters alone, which returns `Err` exactly on ill-formed
/// base64.
#[verifier::external_body]
pub(crate) fn base64_decode(s: &String) -> (r: Option<Vec<u8>>)
    ensures
        match r {
            Some(v) => base64_decode_spec(s@) == Some(v@),
            None => base64_decode_spec(s@) is None,
        },
{
    base64::decode(s.as_str()).ok()
}

/// Relies on String::from_utf8: UTF-8 decoding, a function of the bytes
/// alone, which returns `Err` exactly on bytes that are not valid UTF-8.
#[verifier::external_body]
pub(crate) fn utf8_decode(bytes: Vec<u8>) -> (r: Option<String>)
    ensures
        match r {
            Some(t) => utf8_decode_spec(bytes@) == Some(t@),
            None => utf8_decode_spec(bytes@) is None,
        },
{
    String::from_utf8(bytes).ok()
}

} // verus!
