use crate::text::string_views;
use vstd::prelude::*;

verus! {

/// Why a stored row could not be read back.
#[derive(Clone, Copy, Debug, PartialEq, Eq, Structural)]
pub enum RowError {
    InvalidUuid,
    InvalidTimestamp,
    InvalidJson,
}

/// The 128-bit value of a UUID text, in any of the forms that `Uuid::parse_str`
/// accepts.
pub uninterp spec fn uuid_from_text(s: Seq<char>) -> Option<u128>;

/// The hyphenated lower-case text of a UUID value.
pub uninterp spec fn uuid_to_text(id: u128) -> Seq<char>;

/// The list of strings that a JSON text denotes, if it denotes one.
pub uninterp spec fn json_string_list(s: Seq<char>) -> Option<Seq<Seq<char>>>;

/// The JSON text of a list of strings.
pub uninterp spec fn json_of_strings(items: Seq<Seq<char>>) -> Seq<char>;

/// `uuid::Uuid::parse_str`, as the 128-bit value: none when the text is not a
/// UUID; the result is named `uuid_from_text`.
#[verifier::external_body]
pub(crate) fn parse_uuid(s: &str) -> (id: Option<u128>)
    ensures
        id == uuid_from_text(s@),
{
    match uuid::Uuid::parse_str(s) {
        Ok(u) => Some(u.as_u128()),
        Err(_) => None,
    }
}

/// `uuid::Uuid::from_u128(id).to_string()`; the result is named `uuid_to_text`.
/// The text is the hyphenated form, which `Uuid::parse_str` reads back to the
/// same value (its documentation: every form the crate writes is parsed).
#[verifier::external_body]
pub(crate) fn uuid_text(id: u128) -> (s: String)
    ensures
        s@ == uuid_to_text(id),
        uuid_from_text(s@) == Some(id),
{
    uuid::Uuid::from_u128(id).to_string()
}

/// `serde_json::from_str::<Vec<String>>`: none when the text is not a JSON list of
/// strings; the result is named `json_string_list`.
#[verifier::external_body]
pub(crate) fn parse_string_list(s: &str) -> (items: Option<Vec<String>>)
    ensures
        match (items, json_string_list(s@)) {
            (Some(v), Some(w)) => string_views(v@) == w,
            (None, None) => true,
            _ => false,
        },
{
    match serde_json::from_str::<Vec<String>>(s) {
        Ok(v) => Some(v),
        Err(_) => None,
    }
}

/// `serde_json::to_string` of a list of strings; the text is named
/// `json_of_strings`. Its documentation says that serialization fails only where
/// a `Serialize` impl decides to fail or a map has keys that are not strings,
/// neither of which a list of strings has, so some text comes back; and
/// `serde_json::from_str::<Vec<String>>` reads that text back to the same list.
#[verifier::external_body]
pub(crate) fn string_list_json(items: &Vec<String>) -> (s: Option<String>)
    ensures
        s is Some,
        s matches Some(t) ==> t@ == json_of_strings(string_views(items@)),
        s matches Some(t) ==> json_string_list(t@) == Some(string_views(items@)),
{
    match serde_json::to_string(items) {
        Ok(t) => Some(t),
        Err(_) => None,
    }
}

} // verus!
