//! Reading members of `serde_json` objects.
//!
//! A `serde_json::Value` is opaque to Verus. The library reads it only as an object: the
//! member under a key, classified into absent, `null`, a string, or anything else (with its
//! compact JSON text and, for non-negative integers, its `u64` value).
use vstd::prelude::*;

verus! {

#[verifier::external_type_specification]
#[verifier::external_body]
pub struct ExJsonValue(serde_json::Value);

/// A member of a JSON object, as plain values.
pub enum JsonField {
    /// No member under that key (or the value is not an object).
    Absent,
    /// A member: its compact JSON text, its text when it is a string, its value when it is
    /// an integer that fits in `u64`, and whether it is `null`.
    Present { rendered: String, as_str: Option<String>, as_u64: Option<u64>, is_null: bool },
}

/// The view of a [`JsonField`].
pub enum JsonFieldV {
    Absent,
    Present { rendered: Seq<char>, as_str: Option<Seq<char>>, as_u64: Option<u64>, is_null: bool },
}

impl View for JsonField {
    type V = JsonFieldV;

    open spec fn view(&self) -> JsonFieldV {
        match self {
            JsonField::Absent => JsonFieldV::Absent,
            JsonField::Present { rendered, as_str, as_u64, is_null } => JsonFieldV::Present {
                rendered: rendered@,
                as_str: match as_str {
                    Some(s) => Some(s@),
                    None => None,
                },
                as_u64: *as_u64,
                is_null: *is_null,
            },
        }
    }
}

/// The members of a JSON object, each by its key; empty for a value that is not an object.
pub uninterp spec fn json_members(v: serde_json::Value) -> Map<Seq<char>, JsonFieldV>;

/// The member of `v` under `key`, as the library reads it (`Absent` when there is none).
pub open spec fn member(v: serde_json::Value, key: Seq<char>) -> JsonFieldV {
    if json_members(v).contains_key(key) {
        json_members(v)[key]
    } else {
        JsonFieldV::Absent
    }
}

/// The string under `key`, or `None` when the member is missing or not a string.
pub open spec fn member_str(v: serde_json::Value, key: Seq<char>) -> Option<Seq<char>> {
    match member(v, key) {
        JsonFieldV::Present { as_str, .. } => as_str,
        _ => None,
    }
}

/// The `u64` under `key`, or `None` when the member is missing or not such an integer.
pub open spec fn member_u64(v: serde_json::Value, key: Seq<char>) -> Option<u64> {
    match member(v, key) {
        JsonFieldV::Present { as_u64, .. } => as_u64,
        _ => None,
    }
}

/// Looks `key` up with `Value::get` and reads the member with `Value::to_string`,
/// `Value::as_str`, `Value::as_u64` and `Value::is_null`. The contract claims only that the
/// result is the member that [`json_members`] holds under `key`.
#[verifier::external_body]
pub(crate) fn json_member(v: &serde_json::Value, key: &str) -> (r: JsonField)
    ensures
        r@ == (if json_members(*v).contains_key(key@) {
            json_members(*v)[key@]
        } else {
            JsonFieldV::Absent
        }),
{
    match v.get(key) {
        None => JsonField::Absent,
        Some(x) => JsonField::Present {
            rendered: x.to_string(),
            as_str: x.as_str().map(|s| s.to_string()),
            as_u64: x.as_u64(),
            is_null: x.is_null(),
        },
    }
}

/// The string member under `key`, if there is one.
pub fn get_str(v: &serde_json::Value, key: &str) -> (r: Option<String>)
    ensures
        r matches Some(s) ==> member_str(*v, key@) == Some(s@),
        r is None ==> member_str(*v, key@) is None,
{
    match json_member(v, key) {
        JsonField::Present { as_str, .. } => as_str,
        _ => None,
    }
}

/// The `u64` member under `key`, if there is one.
pub fn get_u64(v: &serde_json::Value, key: &str) -> (r: Option<u64>)
    ensures
        r == member_u64(*v, key@),
{
    match json_member(v, key) {
        JsonField::Present { as_u64, .. } => as_u64,
        _ => None,
    }
}

/// What `serde_json::from_str::<Value>` gives for a text: the value, or the `Display` text
/// of the parse error.
pub uninterp spec fn json_parse(text: Seq<char>) -> Result<serde_json::Value, Seq<char>>;

/// Parses a JSON text with `serde_json::from_str::<Value>`. The contract claims that the
/// result (or the error's message) is [`json_parse`] of the text.
#[verifier::external_body]
pub(crate) fn parse_arguments(text: &str) -> (r: Result<serde_json::Value, String>)
    ensures
        match r {
            Ok(v) => json_parse(text@) == Ok::<serde_json::Value, Seq<char>>(v),
            Err(m) => json_parse(text@) == Err::<serde_json::Value, Seq<char>>(m@),
        },
{
    serde_json::from_str::<serde_json::Value>(text).map_err(|e| e.to_string())
}

/// The parsed arguments of a tool call, or, when they are not JSON, their raw text (as a
/// tool result shows them).
pub fn parsed_or_text(arguments: &str) -> (r: Result<serde_json::Value, String>)
    ensures
        match r {
            Ok(v) => json_parse(arguments@) == Ok::<serde_json::Value, Seq<char>>(v),
            Err(t) => json_parse(arguments@) is Err && t@ == arguments@,
        },
{
    match parse_arguments(arguments) {
        Ok(v) => Ok(v),
        Err(_) => Err(crate::text::copy_str(&crate::text::string_of(&crate::text::chars_of(arguments)))),
    }
}

} // verus!
