//! Reading members of a JSON document, as `serde_json` parses it.

use vstd::prelude::*;

verus! {

/// A JSON value, as far as the broker reads it.
pub ghost enum Json {
    /// A string.
    Text(Seq<char>),
    /// A boolean.
    Flag(bool),
    /// An object.
    Object(Map<Seq<char>, Json>),
    /// A number, an array or null.
    Other,
}

/// A parsed JSON value.
#[verifier::external_type_specification]
#[verifier::external_body]
pub struct ExJsonValue(serde_json::Value);

/// Why a text is no JSON document.
#[verifier::external_type_specification]
#[verifier::external_body]
pub struct ExJsonError(serde_json::Error);

/// What a parsed value holds.
pub uninterp spec fn json_content(v: serde_json::Value) -> Json;

/// The document that `serde_json::from_str` reads from a text, if it accepts
/// the text.
pub uninterp spec fn json_document(text: Seq<char>) -> Option<Json>;

/// `serde_json::from_str` for `serde_json::Value`: parses a JSON document.
/// Which texts it accepts, and what it reads from them, is `json_document`.
#[verifier::external_body]
pub(crate) fn parse_json(text: &str) -> (r: Result<serde_json::Value, serde_json::Error>)
    ensures
        match r {
            Ok(v) => json_document(text@) == Some(json_content(v)),
            Err(_) => json_document(text@) is None,
        },
{
    serde_json::from_str(text)
}

/// The document that `serde_json::from_slice` reads from bytes, if it accepts
/// them.
pub uninterp spec fn json_bytes_document(bytes: Seq<u8>) -> Option<Json>;

/// `serde_json::from_slice` for `serde_json::Value`: parses a JSON document.
/// Which bytes it accepts, and what it reads from them, is
/// `json_bytes_document`.
#[verifier::external_body]
pub(crate) fn parse_json_bytes(bytes: &[u8]) -> (r: Result<serde_json::Value, serde_json::Error>)
    ensures
        match r {
            Ok(v) => json_bytes_document(bytes@) == Some(json_content(v)),
            Err(_) => json_bytes_document(bytes@) is None,
        },
{
    serde_json::from_slice(bytes)
}

/// `serde_json::Value::get` with a string: the member of that name, if the
/// value is an object that has one.
#[verifier::external_body]
pub(crate) fn json_get<'a>(v: &'a serde_json::Value, name: &str) -> (r: Option<
    &'a serde_json::Value,
>)
    ensures
        match r {
            Some(m) => json_content(*v) matches Json::Object(o) && o.contains_key(name@)
                && json_content(*m) == o[name@],
            None => !(json_content(*v) matches Json::Object(o) && o.contains_key(name@)),
        },
{
    v.get(name)
}

/// `serde_json::Value::as_str`: the text of a string, nothing of any other
/// value.
#[verifier::external_body]
pub(crate) fn json_text<'a>(v: &'a serde_json::Value) -> (r: Option<&'a str>)
    ensures
        match r {
            Some(t) => json_content(*v) == Json::Text(t@),
            None => !(json_content(*v) is Text),
        },
{
    v.as_str()
}

/// `serde_json::Value::as_bool`: the value of a boolean, nothing of any other
/// value.
#[verifier::external_body]
pub(crate) fn json_flag(v: &serde_json::Value) -> (r: Option<bool>)
    ensures
        match r {
            Some(b) => json_content(*v) == Json::Flag(b),
            None => !(json_content(*v) is Flag),
        },
{
    v.as_bool()
}

/// A member of a document.
#[derive(Debug, Clone)]
pub enum Member {
    Absent,
    /// A member that is no string.
    Other,
    Text(String),
}

/// The texts of [`Member`].
pub ghost enum MemberView {
    Absent,
    Other,
    Text(Seq<char>),
}

impl View for Member {
    type V = MemberView;

    open spec fn view(&self) -> MemberView {
        match self {
            Member::Absent => MemberView::Absent,
            Member::Other => MemberView::Other,
            Member::Text(t) => MemberView::Text(t@),
        }
    }
}

/// The member `name` of a document.
pub open spec fn member(doc: Json, name: Seq<char>) -> MemberView {
    match doc {
        Json::Object(o) => if o.contains_key(name) {
            match o[name] {
                Json::Text(t) => MemberView::Text(t),
                _ => MemberView::Other,
            }
        } else {
            MemberView::Absent
        },
        _ => MemberView::Absent,
    }
}

/// The member `name` of a parsed document.
pub(crate) fn read_member(doc: &serde_json::Value, name: &str) -> (r: Member)
    ensures
        r@ == member(json_content(*doc), name@),
{
    match json_get(doc, name) {
        Some(v) => match json_text(v) {
            Some(t) => Member::Text(t.to_owned()),
            None => Member::Other,
        },
        None => Member::Absent,
    }
}

/// The value of the boolean member `name` of a document.
pub open spec fn flag(doc: Json, name: Seq<char>) -> Option<bool> {
    match doc {
        Json::Object(o) => if o.contains_key(name) {
            match o[name] {
                Json::Flag(b) => Some(b),
                _ => None,
            }
        } else {
            None
        },
        _ => None,
    }
}

/// The value of the boolean member `name` of a parsed document.
pub(crate) fn read_flag(doc: &serde_json::Value, name: &str) -> (r: Option<bool>)
    ensures
        r == flag(json_content(*doc), name@),
{
    match json_get(doc, name) {
        Some(v) => json_flag(v),
        None => None,
    }
}

} // verus!
