//! What the engine takes from the `base64` and `serde_json` crates: the bytes
//! behind a base64url text, and the text members of a JSON document. The
//! contracts in this file are taken on trust from those crates.

use base64::Engine;
use vstd::prelude::*;

verus! {

/// `serde_json::Value`, a JSON value, made known as a type. Nothing is
/// claimed of what is inside it.
#[verifier::external_type_specification]
#[verifier::external_body]
pub struct ExJsonValue(serde_json::Value);

/// The bytes that `base64`'s `URL_SAFE_NO_PAD` engine decodes `text` to,
/// `None` where it rejects `text`.
pub uninterp spec fn base64_url_decoded(text: Seq<char>) -> Option<Seq<u8>>;

/// The members of a JSON value that are texts, by name: those of an object
/// whose value is a JSON string. A value that is no object has none.
pub uninterp spec fn json_text_members(value: serde_json::Value) -> Map<Seq<char>, Seq<char>>;

/// The text members of the JSON document that `serde_json` reads from
/// `bytes`, `None` where it rejects `bytes`.
pub uninterp spec fn json_parsed(bytes: Seq<u8>) -> Option<Map<Seq<char>, Seq<char>>>;

/// `Engine::decode_vec` of `base64`, on its `URL_SAFE_NO_PAD` engine and an
/// empty buffer. Claimed: the result is the decoding that `base64_url_decoded`
/// names, a function of the text alone; an error of the crate comes back as
/// `None`.
#[verifier::external_body]
pub(crate) fn decode_base64_url(text: &str) -> (bytes: Option<Vec<u8>>)
    ensures
        match bytes {
            Some(b) => base64_url_decoded(text@) == Some(b@),
            None => base64_url_decoded(text@) is None,
        },
{
    let mut buffer: Vec<u8> = Vec::new();
    match base64::engine::general_purpose::URL_SAFE_NO_PAD.decode_vec(text, &mut buffer) {
        Ok(()) => Some(buffer),
        Err(_) => None,
    }
}

/// `serde_json::from_slice` for a `serde_json::Value`. Claimed: whether the
/// bytes are accepted, and the text members of the value that comes back, are
/// what `json_parsed` names, a function of the bytes alone; an error of the
/// crate comes back as `None`.
#[verifier::external_body]
pub(crate) fn parse_json(bytes: &[u8]) -> (value: Option<serde_json::Value>)
    ensures
        match value {
            Some(v) => json_parsed(bytes@) == Some(json_text_members(v)),
            None => json_parsed(bytes@) is None,
        },
{
    match serde_json::from_slice::<serde_json::Value>(bytes) {
        Ok(value) => Some(value),
        Err(_) => None,
    }
}

/// `Value::get` with a text index, then `Value::as_str`, of `serde_json`.
/// Claimed: the result is the member of `json_text_members` under `name`,
/// `None` where the value has no text member of that name.
#[verifier::external_body]
pub(crate) fn text_member(value: &serde_json::Value, name: &str) -> (text: Option<String>)
    ensures
        match text {
            Some(t) => json_text_members(*value).dom().contains(name@) && json_text_members(
                *value,
            )[name@] == t@,
            None => !json_text_members(*value).dom().contains(name@),
        },
{
    match value.get(name) {
        Some(member) => match member.as_str() {
            Some(text) => Some(text.to_owned()),
            None => None,
        },
        None => None,
    }
}

} // verus!
