//! JSON texts: what the library asks of one.
use serde_json::Value;
use vstd::prelude::*;

verus! {

/// A JSON value, as `serde_json` holds it.
#[verifier::external_type_specification]
#[verifier::external_body]
pub struct ExValue(Value);

/// What a JSON value holds. The value of a number is left open.
pub enum JsonView {
    Null,
    Bool(bool),
    Number,
    Text(Seq<char>),
    Array(Seq<JsonView>),
    Object(Map<Seq<char>, JsonView>),
}

impl JsonView {
    /// The member of an object with the given key.
    pub open spec fn member(self, key: Seq<char>) -> Option<JsonView> {
        match self {
            JsonView::Object(members) => if members.contains_key(key) {
                Some(members[key])
            } else {
                None
            },
            _ => None,
        }
    }

    /// An object with a text for the given key. Any other value stays as it is.
    pub open spec fn with_text(self, key: Seq<char>, text: Seq<char>) -> JsonView {
        match self {
            JsonView::Object(members) => JsonView::Object(
                members.insert(key, JsonView::Text(text)),
            ),
            other => other,
        }
    }

    /// The text of a string.
    pub open spec fn text(self) -> Option<Seq<char>> {
        match self {
            JsonView::Text(text) => Some(text),
            _ => None,
        }
    }
}

/// What a `serde_json::Value` holds.
pub uninterp spec fn json_content(value: Value) -> JsonView;

/// What `serde_json::from_str` reads from a text; `None` where the text is no JSON.
pub uninterp spec fn json_of_text(text: Seq<char>) -> Option<JsonView>;

/// What `serde_json::from_slice` reads from bytes; `None` where they are no JSON.
pub uninterp spec fn json_of_bytes(bytes: Seq<u8>) -> Option<JsonView>;

/// What an optional value holds.
pub open spec fn content_of(value: Option<Value>) -> Option<JsonView> {
    match value {
        Some(value) => Some(json_content(value)),
        None => None,
    }
}

/// Calls `serde_json::from_str::<Value>` and drops the error. The result depends on the text alone.
#[verifier::external_body]
fn parse_text(text: &str) -> (res: Option<Value>)
    ensures
        content_of(res) == json_of_text(text@),
{
    serde_json::from_str::<Value>(text).ok()
}

/// Calls `serde_json::from_slice::<Value>` and drops the error. The result depends on the bytes
/// alone.
#[verifier::external_body]
pub(crate) fn parse_bytes(bytes: &[u8]) -> (res: Option<Value>)
    ensures
        content_of(res) == json_of_bytes(bytes@),
{
    serde_json::from_slice::<Value>(bytes).ok()
}

/// Calls `Value::get` with a key and clones what it finds: the member of an object with that key,
/// `None` for an object without it and for any other value.
#[verifier::external_body]
pub(crate) fn member(value: &Value, key: &str) -> (res: Option<Value>)
    ensures
        content_of(res) == json_content(*value).member(key@),
{
    value.get(key).cloned()
}

/// Calls `Value::as_str`: the text of a string, `None` for any other value.
#[verifier::external_body]
pub(crate) fn text_of(value: &Value) -> (res: Option<String>)
    ensures
        res.deep_view() == json_content(*value).text(),
{
    value.as_str().map(str::to_string)
}

/// Makes an empty object, a `Value::Object` of `serde_json::Map::new`.
#[verifier::external_body]
pub(crate) fn empty_object() -> (res: Value)
    ensures
        json_content(res) == JsonView::Object(Map::empty()),
{
    Value::Object(serde_json::Map::new())
}

/// Calls `Value::as_object_mut`, and on the object that it finds `serde_json::Map::insert` with a
/// text: the object holds the text for the key, and any other value stays as it is.
#[verifier::external_body]
pub(crate) fn put_text(value: &mut Value, key: &str, text: &str)
    ensures
        json_content(*final(value)) == json_content(*old(value)).with_text(key@, text@),
{
    if let Some(members) = value.as_object_mut() {
        members.insert(key.to_string(), Value::String(text.to_string()));
    }
}

/// Calls `Value::is_object`.
#[verifier::external_body]
fn is_object(value: &Value) -> (res: bool)
    ensures
        res == (json_content(*value) is Object),
{
    value.is_object()
}

/// A payload reports an error where it is an object with a member `error`, whatever that holds.
pub open spec fn reports_error(payload: Option<JsonView>) -> bool {
    match payload {
        Some(value) => value.member("error"@) is Some,
        None => false,
    }
}

/// Whether a parsed payload reports an error.
pub fn value_reports_error(payload: &Option<Value>) -> (res: bool)
    ensures
        res == reports_error(content_of(*payload)),
{
    match payload {
        Some(value) => member(value, "error").is_some(),
        None => false,
    }
}

/// Whether a payload reports an upstream error.
pub fn is_upstream_error_payload(payload: &str) -> (res: bool)
    ensures
        res == reports_error(json_of_text(payload@)),
{
    let value = parse_text(payload);
    value_reports_error(&value)
}

/// The arguments with which a tool is called: the text as it came where it is a JSON object, and
/// an empty object where it is anything else.
pub open spec fn object_or_empty(arguments: Seq<char>, parsed: Option<JsonView>) -> Seq<char> {
    match parsed {
        Some(JsonView::Object(_)) => arguments,
        _ => "{}"@,
    }
}

/// The arguments to call a tool with, given what their text parsed to.
pub fn coerce_arguments(arguments: &str, parsed: &Option<Value>) -> (res: String)
    ensures
        res@ == object_or_empty(arguments@, content_of(*parsed)),
{
    match parsed {
        Some(value) => if is_object(value) {
            arguments.to_owned()
        } else {
            "{}".to_owned()
        },
        None => "{}".to_owned(),
    }
}

/// The arguments to call a tool with.
pub fn dispatch_arguments(arguments: &str) -> (res: String)
    ensures
        res@ == object_or_empty(arguments@, json_of_text(arguments@)),
{
    let parsed = parse_text(arguments);
    coerce_arguments(arguments, &parsed)
}

/// A payload reports an error where it is an object with a member `error`, whatever that holds, and
/// in no other case.
pub proof fn law_errors_are_members(payload: Option<JsonView>)
    ensures
        reports_error(payload) <==> payload is Some && payload->0 is Object
            && payload->0->Object_0.contains_key("error"@),
{
}

/// A tool is called with the arguments as they came where they are an object, and with an empty
/// object where they are not.
pub proof fn law_only_objects_are_arguments(arguments: Seq<char>, parsed: Option<JsonView>)
    ensures
        parsed is Some && parsed->0 is Object ==> object_or_empty(arguments, parsed) == arguments,
        parsed is None || !(parsed->0 is Object) ==> object_or_empty(arguments, parsed) == "{}"@,
{
}

/// A text put into an object is read back, and the other members stay as they are.
pub proof fn law_texts_are_read_back(
    members: Map<Seq<char>, JsonView>,
    key: Seq<char>,
    text: Seq<char>,
    other: Seq<char>,
)
    ensures
        ({
            let after = JsonView::Object(members).with_text(key, text);
            &&& after.member(key) == Some(JsonView::Text(text))
            &&& JsonView::Text(text).text() == Some(text)
            &&& other != key && members.contains_key(other) ==> after.member(other) == Some(
                members[other],
            )
            &&& other != key && !members.contains_key(other) ==> after.member(other) is None
        }),
{
}

} // verus!
