//! JSON strings, written and read by `serde_json`.
//!
//! Nothing in this file is proved. The two spec functions name what
//! `serde_json` computes; the two functions call it and say no more of the
//! result than that it is the named value.
use vstd::prelude::*;

verus! {

/// The failure of `serde_json`, as a value that is handed on unread.
#[verifier::external_type_specification]
#[verifier::external_body]
pub struct ExJsonError(serde_json::Error);

/// The bytes that `serde_json::to_vec` writes for the string `text`: the JSON
/// string literal of `text`, in UTF-8. `None` where it fails.
pub uninterp spec fn json_literal(text: Seq<char>) -> Option<Seq<u8>>;

/// What `serde_json::from_slice::<String>` makes of `bytes`: the string that
/// it reads, or its failure. The failure is `true` where `serde_json` reports
/// that the bytes ended too early (`Error::is_eof`), and `false` where it
/// reports anything else.
pub uninterp spec fn json_reading(bytes: Seq<u8>) -> Result<Seq<char>, bool>;

/// Calls `serde_json::to_vec` on a string. Claims that the outcome is the
/// value named `json_literal` of the string: the bytes that were written, or
/// a failure, the same for the same string.
#[verifier::external_body]
pub(crate) fn quote(text: &str) -> (r: core::result::Result<Vec<u8>, serde_json::Error>)
    ensures
        match r {
            Ok(bytes) => json_literal(text@) == Some(bytes@),
            Err(_) => json_literal(text@) is None,
        },
{
    serde_json::to_vec(text)
}

/// Calls `serde_json::from_slice::<String>` and, where it fails, asks the
/// failure whether the input ended too early (`Error::is_eof`). Claims that
/// the outcome is the value named `json_reading` of the bytes, the same for
/// the same bytes.
#[verifier::external_body]
pub(crate) fn unquote(bytes: &[u8]) -> (r: core::result::Result<String, bool>)
    ensures
        match r {
            Ok(text) => json_reading(bytes@) == Ok::<Seq<char>, bool>(text@),
            Err(cut) => json_reading(bytes@) == Err::<Seq<char>, bool>(cut),
        },
{
    match serde_json::from_slice::<String>(bytes) {
        Ok(text) => Ok(text),
        Err(error) => Err(error.is_eof()),
    }
}

} // verus!
