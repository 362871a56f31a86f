//! Lines that are JSON objects: each member becomes a field.

use crate::fields::FieldMap;
use vstd::prelude::*;

verus! {

/// The value of one member of a JSON object, as far as a field needs it.
#[derive(Debug)]
pub enum JsonValue {
    /// `null`.
    Null,
    /// `true` or `false`.
    Bool(bool),
    /// A number, in the text that the JSON library prints it as.
    Number(String),
    /// A string, unescaped.
    Text(String),
    /// An array or an object, in the compact text that the JSON library prints it as.
    Nested(String),
}

/// A `JsonValue` as plain values.
pub enum JsonValueView {
    Null,
    Bool(bool),
    Number(Seq<char>),
    Text(Seq<char>),
    Nested(Seq<char>),
}

impl View for JsonValue {
    type V = JsonValueView;

    open spec fn view(&self) -> JsonValueView {
        match *self {
            JsonValue::Null => JsonValueView::Null,
            JsonValue::Bool(b) => JsonValueView::Bool(b),
            JsonValue::Number(t) => JsonValueView::Number(t@),
            JsonValue::Text(t) => JsonValueView::Text(t@),
            JsonValue::Nested(t) => JsonValueView::Nested(t@),
        }
    }
}

/// One member of a JSON object.
#[derive(Debug)]
pub struct JsonMember {
    pub key: String,
    pub value: JsonValue,
}

impl View for JsonMember {
    type V = (Seq<char>, JsonValueView);

    open spec fn view(&self) -> (Seq<char>, JsonValueView) {
        (self.key@, self.value@)
    }
}

/// The members of a list, each as plain values.
pub open spec fn members_view(members: Seq<JsonMember>) -> Seq<(Seq<char>, JsonValueView)> {
    members.map_values(|m: JsonMember| m@)
}

/// A JSON value of `serde_json`.
#[verifier::external_type_specification]
#[verifier::external_body]
pub struct ExJsonValue(serde_json::Value);

/// A parsed line of JSON, as far as the fields need it.
pub enum JsonDocumentView {
    /// An object, with its members in the order the library hands them out.
    Object(Seq<(Seq<char>, JsonValueView)>),
    /// Anything else: a scalar or an array.
    Other,
}

/// What `serde_json` reads `input` as, or nothing when the text is not JSON.
pub uninterp spec fn json_document_of(input: Seq<char>) -> Option<JsonDocumentView>;

/// What a parsed JSON value is as a document.
pub uninterp spec fn json_document_model(value: serde_json::Value) -> JsonDocumentView;

/// The members that `input` gives as a line of JSON: those of the object it
/// is. Text that is not JSON, and JSON that is not an object, give nothing.
pub open spec fn json_object_of(input: Seq<char>) -> Option<Seq<(Seq<char>, JsonValueView)>> {
    match json_document_of(input) {
        Some(JsonDocumentView::Object(members)) => Some(members),
        _ => None,
    }
}

/// What a JSON value holds, as far as a field needs it.
pub uninterp spec fn json_model(value: serde_json::Value) -> JsonValueView;

/// Keyed JSON values, each as plain values.
pub open spec fn json_models(members: Seq<(String, serde_json::Value)>) -> Seq<
    (Seq<char>, JsonValueView),
> {
    members.map_values(|m: (String, serde_json::Value)| (m.0@, json_model(m.1)))
}

/// Calls `serde_json::from_str` for a `Value`. Parsing has no state, so the
/// result depends on the text alone.
#[verifier::external_body]
fn read_json(input: &str) -> (value: Option<serde_json::Value>)
    ensures
        match value {
            Some(v) => json_document_of(input@) == Some(json_document_model(v)),
            None => json_document_of(input@) is None,
        },
{
    serde_json::from_str::<serde_json::Value>(input).ok()
}

/// Tells the `Object` variant of `serde_json::Value` from the others and
/// hands out its keys and values in the order of the map.
#[verifier::external_body]
fn json_object_members(value: serde_json::Value) -> (members: Option<
    Vec<(String, serde_json::Value)>,
>)
    ensures
        match members {
            Some(list) => json_document_model(value) == JsonDocumentView::Object(
                json_models(list@),
            ),
            None => json_document_model(value) == JsonDocumentView::Other,
        },
{
    match value {
        serde_json::Value::Object(map) => Some(map.into_iter().collect()),
        _ => None,
    }
}

/// Tells the variants of `serde_json::Value` apart and moves what each
/// holds: scalars as they are, numbers through the library's `Display`,
/// arrays and objects through `serde_json::to_string`, which does not fail
/// for a `Value`.
#[verifier::external_body]
fn json_value_of(value: &serde_json::Value) -> (model: JsonValue)
    ensures
        model@ == json_model(*value),
{
    match value {
        serde_json::Value::Null => JsonValue::Null,
        serde_json::Value::Bool(b) => JsonValue::Bool(*b),
        serde_json::Value::Number(n) => JsonValue::Number(n.to_string()),
        serde_json::Value::String(s) => JsonValue::Text(s.clone()),
        other => JsonValue::Nested(serde_json::to_string(other).unwrap_or_default()),
    }
}

/// Keyed JSON values as values of this library.
fn members_from(parsed: &Vec<(String, serde_json::Value)>) -> (members: Vec<JsonMember>)
    ensures
        members_view(members@) == json_models(parsed@),
{
    let mut members: Vec<JsonMember> = Vec::new();
    let mut i: usize = 0;
    while i < parsed.len()
        invariant
            i <= parsed.len(),
            members_view(members@) == json_models(parsed@).take(i as int),
        decreases parsed.len() - i,
    {
        let ghost before = members_view(members@);
        let pair = &parsed[i];
        let member = JsonMember { key: pair.0.clone(), value: json_value_of(&pair.1) };
        let ghost shown = member@;
        members.push(member);
        proof {
            assert(members_view(members@) =~= before.push(shown));
            assert(json_models(parsed@)[i as int] == shown);
            assert(json_models(parsed@).take(i + 1) =~= json_models(parsed@).take(i as int).push(
                shown,
            ));
        }
        i += 1;
    }
    assert(json_models(parsed@).take(i as int) =~= json_models(parsed@));
    members
}

/// The text a member's value is shown as.
pub open spec fn json_value_text(value: JsonValueView) -> Seq<char> {
    match value {
        JsonValueView::Null => "null"@,
        JsonValueView::Bool(b) => if b {
            "true"@
        } else {
            "false"@
        },
        JsonValueView::Number(t) => t,
        JsonValueView::Text(t) => t,
        JsonValueView::Nested(t) => t,
    }
}

/// The fields that the members of an object give; a key that comes again
/// takes the later value.
pub open spec fn json_fields_of(members: Seq<(Seq<char>, JsonValueView)>) -> Map<
    Seq<char>,
    Seq<char>,
>
    decreases members.len(),
{
    if members.len() == 0 {
        Map::empty()
    } else {
        json_fields_of(members.drop_last()).insert(
            members.last().0,
            json_value_text(members.last().1),
        )
    }
}

/// The text a member's value is shown as.
pub fn json_value_to_string(value: &JsonValue) -> (text: String)
    ensures
        text@ == json_value_text(value@),
{
    match value {
        JsonValue::Null => "null".to_owned(),
        JsonValue::Bool(b) => if *b {
            "true".to_owned()
        } else {
            "false".to_owned()
        },
        JsonValue::Number(t) => t.clone(),
        JsonValue::Text(t) => t.clone(),
        JsonValue::Nested(t) => t.clone(),
    }
}

/// The fields that the members of a JSON object give.
pub fn json_fields(members: &Vec<JsonMember>) -> (fields: FieldMap<String>)
    ensures
        fields.wf(),
        fields@ == json_fields_of(members_view(members@)),
{
    let mut fields: FieldMap<String> = FieldMap::new();
    let mut i: usize = 0;
    while i < members.len()
        invariant
            i <= members.len(),
            fields.wf(),
            fields@ == json_fields_of(members_view(members@).take(i as int)),
        decreases members.len() - i,
    {
        let member = &members[i];
        fields.insert(member.key.clone(), json_value_to_string(&member.value));
        proof {
            let all = members_view(members@);
            assert(all.take(i + 1).drop_last() =~= all.take(i as int));
            assert(all.take(i + 1).last() == member@);
        }
        i += 1;
    }
    proof {
        assert(members_view(members@).take(i as int) =~= members_view(members@));
    }
    fields
}

/// Reads a line as a JSON object. Anything else, valid JSON or not, gives nothing.
pub fn parse_json(input: &str) -> (fields: Option<FieldMap<String>>)
    ensures
        match fields {
            Some(map) => {
                &&& map.wf()
                &&& json_object_of(input@) is Some
                &&& map@ == json_fields_of(json_object_of(input@).unwrap())
            },
            None => json_object_of(input@) is None,
        },
{
    match read_json(input) {
        Some(value) => match json_object_members(value) {
            Some(parsed) => Some(json_fields(&members_from(&parsed))),
            None => None,
        },
        None => None,
    }
}

} // verus!
