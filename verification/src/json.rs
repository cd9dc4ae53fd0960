//! What the library asks of a JSON document.

use crate::binary64::Binary64;
use vstd::prelude::*;

verus! {

/// The document type of `serde_json`.
#[verifier::external_type_specification]
#[verifier::external_body]
pub struct ExJsonValue(serde_json::Value);

/// The error type of `serde_json`.
#[verifier::external_type_specification]
#[verifier::external_body]
pub struct ExJsonError(serde_json::Error);

/// What one value of a document says of itself.
#[derive(Clone, Debug)]
pub struct JsonScalar {
    /// It is `null`.
    pub null: bool,
    /// Its value, where it is an integer that fits 64 unsigned bits.
    pub unsigned: Option<u64>,
    /// Its value as a binary64 number, where it is a number.
    pub number: Option<Binary64>,
    /// Its text, where it is a string.
    pub text: Option<String>,
}

/// The same, with a text in place of a string.
pub struct JsonEntry {
    pub null: bool,
    pub unsigned: Option<u64>,
    pub number: Option<Binary64>,
    pub text: Option<Seq<char>>,
}

/// The entry that a scalar reports.
pub open spec fn entry_of(s: JsonScalar) -> JsonEntry {
    JsonEntry {
        null: s.null,
        unsigned: s.unsigned,
        number: s.number,
        text: match s.text {
            Some(t) => Some(t@),
            None => None,
        },
    }
}

/// What `serde_json::from_str` reads from a text: nothing where the text is not a
/// JSON document.
pub uninterp spec fn json_parsed(text: Seq<char>) -> Option<serde_json::Value>;

/// The values that a document holds, by their JSON Pointers.
pub uninterp spec fn json_contents(value: serde_json::Value) -> Map<Seq<char>, JsonEntry>;

/// The member of a document that `value[key]` gives: `null` where there is none.
pub uninterp spec fn json_member_of(value: serde_json::Value, key: Seq<char>) -> serde_json::Value;

/// The text that `serde_json::to_string` writes for a document.
pub uninterp spec fn json_rendered(value: serde_json::Value) -> Seq<char>;

/// The string that `serde_json::Value::from` makes of a text, or `null` where there
/// is none.
pub uninterp spec fn json_of_text(text: Option<Seq<char>>) -> serde_json::Value;

/// The number that `serde_json::Value::from` makes of an unsigned integer.
pub uninterp spec fn json_of_unsigned(n: u64) -> serde_json::Value;

/// The object that collecting names and values into a `serde_json::Value` makes.
pub uninterp spec fn json_of_members(members: Seq<(Seq<char>, serde_json::Value)>) -> serde_json::Value;

/// What the document of a text holds, where the text is one.
pub open spec fn json_document(text: Seq<char>) -> Option<Map<Seq<char>, JsonEntry>> {
    match json_parsed(text) {
        Some(value) => Some(json_contents(value)),
        None => None,
    }
}

/// What `null` says of itself.
pub open spec fn null_entry() -> JsonEntry {
    JsonEntry { null: true, unsigned: None, number: None, text: None }
}

/// A key that means the same as one step of a JSON Pointer: it has no escape, no
/// further step, and no digit that could be the index of an array.
pub open spec fn is_plain_key(key: Seq<char>) -> bool {
    forall|i: int| 0 <= i < key.len() ==> (#[trigger] key[i]) != '/' && key[i] != '~' && !('0' <= key[i] <= '9')
}

/// A text without line ends.
pub open spec fn on_one_line(text: Seq<char>) -> bool {
    forall|i: int| 0 <= i < text.len() ==> #[trigger] text[i] != '\n' && text[i] != '\r'
}

/// A text in braces.
pub open spec fn in_braces(text: Seq<char>) -> bool {
    text.len() >= 2 && text[0] == '{' && text.last() == '}'
}

/// The value at a JSON Pointer.
pub open spec fn scalar_at(contents: Map<Seq<char>, JsonEntry>, pointer: Seq<char>) -> Option<JsonEntry> {
    if contents.dom().contains(pointer) {
        Some(contents[pointer])
    } else {
        None
    }
}

/// The number at a JSON Pointer, where a number stands there.
pub open spec fn number_at(contents: Map<Seq<char>, JsonEntry>, pointer: Seq<char>) -> Option<Binary64> {
    match scalar_at(contents, pointer) {
        Some(s) => s.number,
        None => None,
    }
}

/// The unsigned integer at a JSON Pointer, where one stands there.
pub open spec fn unsigned_at(contents: Map<Seq<char>, JsonEntry>, pointer: Seq<char>) -> Option<u64> {
    match scalar_at(contents, pointer) {
        Some(s) => s.unsigned,
        None => None,
    }
}

/// The text at a JSON Pointer, where a string stands there.
pub open spec fn text_at(contents: Map<Seq<char>, JsonEntry>, pointer: Seq<char>) -> Option<Seq<char>> {
    match scalar_at(contents, pointer) {
        Some(s) => s.text,
        None => None,
    }
}

/// Some value other than `null` stands at a JSON Pointer.
pub open spec fn present_at(contents: Map<Seq<char>, JsonEntry>, pointer: Seq<char>) -> bool {
    match scalar_at(contents, pointer) {
        Some(s) => !s.null,
        None => false,
    }
}

/// `serde_json::from_str` into a `serde_json::Value`. Claimed: whether the text
/// is accepted, and the document then read, depend on the text alone. What the
/// error says of a refused text is left unsaid.
#[verifier::external_body]
pub(crate) fn parse_json(text: &str) -> (r: Result<serde_json::Value, serde_json::Error>)
    ensures
        r is Ok <==> json_parsed(text@) is Some,
        r matches Ok(v) ==> json_parsed(text@) == Some(v),
{
    serde_json::from_str(text)
}

/// Indexing a `serde_json::Value` by a key. Claimed: the result depends on the
/// document and the key alone; for a plain key it is what stands at that key, and
/// `null` where nothing does.
#[verifier::external_body]
pub(crate) fn json_member<'a>(value: &'a serde_json::Value, key: &str) -> (r: &'a serde_json::Value)
    ensures
        *r == json_member_of(*value, key@),
        is_plain_key(key@) ==> scalar_at(json_contents(*r), ""@) == (match scalar_at(
            json_contents(*value),
            "/"@ + key@,
        ) {
            Some(e) => Some(e),
            None => Some(null_entry()),
        }),
{
    &value[key]
}

/// `serde_json::to_string` of a `serde_json::Value`, the compact form. Claimed: it
/// succeeds, its text depends on the document alone, and there is no line end in
/// it, because control characters within strings are written as escapes.
#[verifier::external_body]
pub(crate) fn render_json(value: &serde_json::Value) -> (r: Result<String, serde_json::Error>)
    ensures
        r is Ok,
        r matches Ok(s) ==> s@ == json_rendered(*value) && on_one_line(s@),
{
    serde_json::to_string(value)
}

/// `serde_json::Value::from` of a text that may be missing. Claimed: the result is
/// that string, or `null`.
#[verifier::external_body]
pub(crate) fn text_value(text: Option<String>) -> (r: serde_json::Value)
    ensures
        r == json_of_text(
            match text {
                Some(t) => Some(t@),
                None => None,
            },
        ),
        text is None ==> scalar_at(json_contents(r), ""@) == Some(null_entry()),
        text matches Some(t) ==> scalar_at(json_contents(r), ""@) == Some(
            JsonEntry { null: false, unsigned: None, number: None, text: Some(t@) },
        ),
{
    serde_json::Value::from(text)
}

/// `serde_json::Value::from` of an unsigned integer. Claimed: the result is that
/// number.
#[verifier::external_body]
pub(crate) fn unsigned_value(n: u64) -> (r: serde_json::Value)
    ensures
        r == json_of_unsigned(n),
        unsigned_at(json_contents(r), ""@) == Some(n),
        text_at(json_contents(r), ""@) is None && present_at(json_contents(r), ""@),
{
    serde_json::Value::from(n)
}

/// Collecting names and values into a `serde_json::Value`. Claimed: the result
/// depends on them alone, and what is written for it stands in braces.
#[verifier::external_body]
pub(crate) fn object_value(members: Vec<(String, serde_json::Value)>) -> (r: serde_json::Value)
    ensures
        r == json_of_members(members@.map_values(|m: (String, serde_json::Value)| (m.0@, m.1))),
        in_braces(json_rendered(r)),
{
    members.into_iter().collect()
}

/// `serde_json::Value::pointer`, with `is_null`, `as_u64`, `as_f64` and `as_str` of
/// the value found. Claimed: the result is the entry of the document's contents at
/// that pointer, and nothing where there is none.
#[verifier::external_body]
pub(crate) fn json_scalar(value: &serde_json::Value, pointer: &str) -> (r: Option<JsonScalar>)
    ensures
        r is Some <==> scalar_at(json_contents(*value), pointer@) is Some,
        r matches Some(s) ==> scalar_at(json_contents(*value), pointer@) == Some(entry_of(s)),
{
    value.pointer(pointer).map(
        |v|
            JsonScalar {
                null: v.is_null(),
                unsigned: v.as_u64(),
                number: v.as_f64().map(|x| Binary64 { bits: x.to_bits() }),
                text: v.as_str().map(|x| x.to_owned()),
            },
    )
}

/// The number at a JSON Pointer of a document.
pub fn json_number(value: &serde_json::Value, pointer: &str) -> (r: Option<Binary64>)
    ensures
        r == number_at(json_contents(*value), pointer@),
{
    match json_scalar(value, pointer) {
        Some(s) => s.number,
        None => None,
    }
}

/// The unsigned integer at a JSON Pointer of a document.
pub fn json_unsigned(value: &serde_json::Value, pointer: &str) -> (r: Option<u64>)
    ensures
        r == unsigned_at(json_contents(*value), pointer@),
{
    match json_scalar(value, pointer) {
        Some(s) => s.unsigned,
        None => None,
    }
}

/// The text at a JSON Pointer of a document.
pub fn json_text(value: &serde_json::Value, pointer: &str) -> (r: Option<String>)
    ensures
        r is Some <==> text_at(json_contents(*value), pointer@) is Some,
        r matches Some(t) ==> text_at(json_contents(*value), pointer@) == Some(t@),
{
    match json_scalar(value, pointer) {
        Some(s) => s.text,
        None => None,
    }
}

/// Whether a value other than `null` stands at a JSON Pointer of a document.
pub fn json_present(value: &serde_json::Value, pointer: &str) -> (r: bool)
    ensures
        r == present_at(json_contents(*value), pointer@),
{
    match json_scalar(value, pointer) {
        Some(s) => !s.null,
        None => false,
    }
}

/// What is read at a place of a document is what stands there, as a number, an unsigned
/// integer or a text where it is one, and nothing where the document has no such place.
pub proof fn law_values_are_read_where_they_stand(
    value: &serde_json::Value,
    pointer: &str,
    number: Option<Binary64>,
    unsigned: Option<u64>,
    text: Option<String>,
    present: bool,
)
    requires
        call_ensures(json_number, (value, pointer), number),
        call_ensures(json_unsigned, (value, pointer), unsigned),
        call_ensures(json_text, (value, pointer), text),
        call_ensures(json_present, (value, pointer), present),
    ensures
        ({
            let contents = json_contents(*value);
            let there = contents.dom().contains(pointer@);
            &&& there ==> number == contents[pointer@].number && unsigned == contents[pointer@].unsigned
            &&& there ==> (text is Some <==> contents[pointer@].text is Some)
            &&& there && text is Some ==> contents[pointer@].text == Some(text->0@)
            &&& there ==> (present <==> !contents[pointer@].null)
            &&& !there ==> number is None && unsigned is None && text is None && !present
        }),
{
}

} // verus!
