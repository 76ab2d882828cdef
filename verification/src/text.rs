//! The calls that turn bytes into text and text into JSON, and the clock.
//!
//! Each function here only makes a call into the standard library or into
//! `serde_json`. What is said of its result is taken from that function's
//! documentation and is not proved.
use vstd::prelude::*;
use vstd::utf8::{encode_utf8, valid_utf8};

verus! {

/// What `String::from_utf8_lossy` makes of `bytes`: their text as UTF-8, with
/// the replacement character where a sequence is not valid.
pub uninterp spec fn utf8_lossy(bytes: Seq<u8>) -> Seq<char>;

/// What `str::trim` leaves of `text`: `text` without the white space at its
/// start and at its end.
pub uninterp spec fn trimmed(text: Seq<char>) -> Seq<char>;

/// The compact JSON text that `serde_json` writes for an object of three
/// members, each a string, that were put into it in this order.
pub uninterp spec fn json_object(
    key0: Seq<char>,
    value0: Seq<char>,
    key1: Seq<char>,
    value1: Seq<char>,
    key2: Seq<char>,
    value2: Seq<char>,
) -> Seq<char>;

/// Calls `std::str::from_utf8`. There is a text exactly where the bytes are
/// valid UTF-8, and then they are the bytes of that text.
#[verifier::external_body]
pub(crate) fn utf8_text(bytes: &[u8]) -> (text: Option<String>)
    ensures
        match text {
            Some(t) => valid_utf8(bytes@) && encode_utf8(t@) == bytes@,
            None => !valid_utf8(bytes@),
        },
{
    match std::str::from_utf8(bytes) {
        Ok(text) => Some(text.to_string()),
        Err(_) => None,
    }
}

/// Calls `String::from_utf8_lossy`. The result depends on the bytes alone.
#[verifier::external_body]
pub(crate) fn lossy_text(bytes: &[u8]) -> (text: String)
    ensures
        text@ == utf8_lossy(bytes@),
{
    String::from_utf8_lossy(bytes).into_owned()
}

/// Calls `str::trim`. The result depends on the text alone.
#[verifier::external_body]
pub(crate) fn trim_text(text: &str) -> (out: String)
    ensures
        out@ == trimmed(text@),
{
    text.trim().to_string()
}

/// Puts three members, each a string, into a `serde_json::Map` and calls
/// `to_string` on the `serde_json::Value` that holds it. The result depends on
/// the keys and values alone, in the order given.
#[verifier::external_body]
pub(crate) fn object_text(
    key0: &str,
    value0: &str,
    key1: &str,
    value1: &str,
    key2: &str,
    value2: &str,
) -> (text: String)
    ensures
        text@ == json_object(key0@, value0@, key1@, value1@, key2@, value2@),
{
    let mut object = serde_json::Map::new();
    object.insert(key0.to_string(), serde_json::Value::String(value0.to_string()));
    object.insert(key1.to_string(), serde_json::Value::String(value1.to_string()));
    object.insert(key2.to_string(), serde_json::Value::String(value2.to_string()));
    serde_json::Value::Object(object).to_string()
}

/// Calls `std::time::SystemTime::now` and writes the time in its `Debug`
/// form. Nothing is said of the result: it differs from call to call.
#[verifier::external_body]
pub(crate) fn wall_clock() -> String {
    format!("{:?}", std::time::SystemTime::now())
}

} // verus!
