//! What the adapter of the embedded tree decides.
//!
//! The tree maps byte strings to byte strings. The adapter stores a value as
//! the bytes of its text and reads it back as text; a removal fails where the
//! tree held nothing for the key.
use vstd::prelude::*;
use vstd::utf8::{decode_utf8, valid_utf8};
use crate::error::{KvsError, Repr};

verus! {

/// The failure of `String::from_utf8`, as a value that is handed on unread.
#[verifier::external_type_specification]
#[verifier::external_body]
pub struct ExFromUtf8Error(std::string::FromUtf8Error);

/// Calls `String::from_utf8`. Claims what its documentation says: the bytes
/// become the string that they encode, and the call fails if and only if
/// the bytes are not UTF-8.
#[verifier::external_body]
fn text_from_utf8(bytes: Vec<u8>) -> (r: Result<String, std::string::FromUtf8Error>)
    ensures
        match r {
            Ok(text) => valid_utf8(bytes@) && text@ == decode_utf8(bytes@),
            Err(_) => !valid_utf8(bytes@),
        },
{
    String::from_utf8(bytes)
}

/// The reply to a read, from what the tree holds for the key: its text, or
/// `None` where it holds nothing. Fails where the bytes are not text.
pub fn stored_text(stored: Option<Vec<u8>>) -> (r: Result<Option<String>, KvsError>)
    ensures
        match r {
            Ok(Some(text)) => {
                &&& stored matches Some(bytes)
                &&& valid_utf8(bytes@)
                &&& text@ == decode_utf8(bytes@)
            },
            Ok(None) => stored is None,
            Err(e) => {
                &&& stored matches Some(bytes)
                &&& !valid_utf8(bytes@)
                &&& e.repr() is Encoding
            },
        },
{
    match stored {
        None => Ok(None),
        Some(bytes) => match text_from_utf8(bytes) {
            Ok(text) => Ok(Some(text)),
            Err(_) => Err(KvsError::new(Repr::Encoding("the stored value is not text".to_owned()))),
        },
    }
}

/// The outcome of a removal, from what the tree held for the key before it:
/// key-not-found where it held nothing.
pub fn removal(previous: Option<Vec<u8>>) -> (r: Result<(), KvsError>)
    ensures
        match r {
            Ok(_) => previous is Some,
            Err(e) => previous is None && e.is_key_not_found(),
        },
{
    match previous {
        Some(_) => Ok(()),
        None => Err(KvsError::key_not_found()),
    }
}

} // verus!
