//! Text in bencode: byte strings that hold UTF-8.

use crate::value::{BenCode, BenValue};
use vstd::prelude::*;
use vstd::slice::slice_to_vec;
use vstd::utf8::{decode_utf8, encode_utf8, valid_utf8};

verus! {

/// The text that the bencode value `v` holds: the characters of a byte
/// string that is valid UTF-8.
pub open spec fn as_text(v: BenValue) -> Option<Seq<char>> {
    match v {
        BenValue::Bytes(b) => if valid_utf8(b) {
            Some(decode_utf8(b))
        } else {
            None
        },
        _ => None,
    }
}

/// `String::from_utf8`: the text that `bytes` hold, where they are valid
/// UTF-8, and nothing where they are not.
#[verifier::external_body]
pub(crate) fn string_from_utf8(bytes: Vec<u8>) -> (text: Option<String>)
    ensures
        match text {
            Some(s) => valid_utf8(bytes@) && s@ == decode_utf8(bytes@),
            None => !valid_utf8(bytes@),
        },
{
    String::from_utf8(bytes).ok()
}

/// The bytes of the text `s`.
pub fn text_to_bytes(s: &String) -> (bytes: Vec<u8>)
    ensures
        bytes@ == encode_utf8(s@),
{
    slice_to_vec(s.as_str().as_bytes())
}

/// The text that `value` holds, if it holds one.
pub fn text_from(value: &BenCode) -> (r: Option<String>)
    ensures
        match as_text(value@) {
            Some(chars) => r matches Some(s) && s@ == chars,
            None => r is None,
        },
{
    match value {
        BenCode::String(bytes) => string_from_utf8(slice_to_vec(bytes.as_slice())),
        _ => None,
    }
}

} // verus!
