//! JSON objects: their fields as plain values, and the calls into `serde_json`
//! that read and write them.

use serde_json::{Map as JsonMap, Value as JsonValue};
use vstd::prelude::*;

use crate::text::{same_str, signed_padded};

verus! {

broadcast use vstd::string::group_string_axioms;

/// `serde_json::Map`, a JSON object that keeps the order of its keys.
#[verifier::external_type_specification]
#[verifier::external_body]
#[verifier::reject_recursive_types(K)]
#[verifier::reject_recursive_types(V)]
pub struct ExJsonMap<K, V>(JsonMap<K, V>);

/// `serde_json::Value`, any JSON value.
#[verifier::external_type_specification]
#[verifier::external_body]
pub struct ExJsonValue(JsonValue);

/// What a field of an object holds.
pub enum FieldView {
    Text(Seq<char>),
    /// A number, by its text.
    Number(Seq<char>),
    Bool(bool),
    /// `null`, an array or an object, by its compact text.
    Other(Seq<char>),
}

/// A field as a plain value.
pub enum Field {
    Text(String),
    /// The text of a number, its nearest double as IEEE 754 bits, and the
    /// number itself where it is an integer of 64 bits.
    Number { text: String, double: Option<u64>, integer: Option<i64> },
    Bool(bool),
    Other(String),
}

impl View for Field {
    type V = FieldView;

    open spec fn view(&self) -> FieldView {
        match self {
            Field::Text(s) => FieldView::Text(s@),
            Field::Number { text, .. } => FieldView::Number(text@),
            Field::Bool(b) => FieldView::Bool(*b),
            Field::Other(s) => FieldView::Other(s@),
        }
    }
}

/// The fields of an object, in their order.
pub uninterp spec fn json_entries(m: JsonMap<String, JsonValue>) -> Seq<(Seq<char>, FieldView)>;

/// A JSON value, as far as it is looked at.
pub enum JsonView {
    /// The fields of an object.
    Object(Seq<(Seq<char>, FieldView)>),
    /// The items of an array; of those that are objects, the fields.
    List(Seq<Option<Seq<(Seq<char>, FieldView)>>>),
    Other,
}

/// A JSON value, as far as it is looked at.
pub enum Json {
    Object(JsonMap<String, JsonValue>),
    List(Vec<Option<JsonMap<String, JsonValue>>>),
    Other,
}

/// The fields of an item that is an object.
pub open spec fn item_view(m: Option<JsonMap<String, JsonValue>>) -> Option<
    Seq<(Seq<char>, FieldView)>,
> {
    match m {
        Some(m) => Some(json_entries(m)),
        None => None,
    }
}

impl View for Json {
    type V = JsonView;

    open spec fn view(&self) -> JsonView {
        match self {
            Json::Object(m) => JsonView::Object(json_entries(*m)),
            Json::List(items) => JsonView::List(
                items@.map_values(|m: Option<JsonMap<String, JsonValue>>| item_view(m)),
            ),
            Json::Other => JsonView::Other,
        }
    }
}

/// What a text says as JSON; the message of the error when it is not JSON.
pub uninterp spec fn json_value(text: Seq<char>) -> Result<JsonView, Seq<char>>;

/// The compact text of an object.
pub uninterp spec fn json_text(entries: Seq<(Seq<char>, FieldView)>) -> Option<Seq<char>>;

/// The double nearest to a number that was read from JSON, as IEEE 754 bits.
pub uninterp spec fn json_double(number: Seq<char>) -> Option<u64>;

/// `serde_json::from_str` into a `Value`, taken apart into an object, the items
/// of an array, another value, or the message of the error.
#[verifier::external_body]
pub(crate) fn parse_json(text: &str) -> (r: Result<Json, String>)
    ensures
        match r {
            Ok(j) => json_value(text@) == Ok::<JsonView, Seq<char>>(j@),
            Err(e) => json_value(text@) == Err::<JsonView, Seq<char>>(e@),
        },
{
    let object = |v: JsonValue| match v {
        JsonValue::Object(m) => Some(m),
        _ => None,
    };
    match serde_json::from_str(text) {
        Ok(JsonValue::Object(m)) => Ok(Json::Object(m)),
        Ok(JsonValue::Array(items)) => Ok(Json::List(items.into_iter().map(object).collect())),
        Ok(_) => Ok(Json::Other),
        Err(e) => Err(e.to_string()),
    }
}

/// The integer of 64 bits that a number is, by its text.
pub open spec fn integer_value(text: Seq<char>) -> Option<i64> {
    if exists|n: i64| text == #[trigger] signed_padded(n as int, 1) {
        Some(choose|n: i64| text == #[trigger] signed_padded(n as int, 1))
    } else {
        None
    }
}

/// Fields as plain values, by their views.
pub open spec fn entries_view(v: Seq<(String, Field)>) -> Seq<(Seq<char>, FieldView)> {
    v.map_values(|e: (String, Field)| (e.0@, e.1@))
}

/// `Map::iter`: the fields of an object in their order, each as a plain value.
/// A number comes with its text and with what `Number::as_f64` and
/// `Number::as_i64` give; `null`, arrays and objects come as their text.
#[verifier::external_body]
pub(crate) fn entries(m: &JsonMap<String, JsonValue>) -> (r: Vec<(String, Field)>)
    ensures
        entries_view(r@) == json_entries(*m),
        forall|i: int|
            0 <= i < r@.len() ==> ((#[trigger] r@[i]).1 matches Field::Number {
                text,
                double,
                integer,
            } ==> double == json_double(text@) && integer == integer_value(text@)),
{
    let field = |v: &JsonValue| match v {
        JsonValue::String(s) => Field::Text(s.clone()),
        JsonValue::Number(n) => Field::Number {
            text: n.to_string(),
            double: n.as_f64().map(|x| x.to_bits()),
            integer: n.as_i64(),
        },
        JsonValue::Bool(b) => Field::Bool(*b),
        other => Field::Other(other.to_string()),
    };
    m.iter().map(|(k, v)| (k.clone(), field(v))).collect()
}

/// The fields with that of the key replaced.
pub open spec fn with_field(
    e: Seq<(Seq<char>, FieldView)>,
    key: Seq<char>,
    v: FieldView,
) -> Seq<(Seq<char>, FieldView)> {
    e.map_values(
        |f: (Seq<char>, FieldView)|
            if f.0 == key {
                (key, v)
            } else {
                f
            },
    )
}

/// The object has the key.
pub open spec fn has_key(e: Seq<(Seq<char>, FieldView)>, key: Seq<char>) -> bool {
    exists|i: int| 0 <= i < e.len() && (#[trigger] e[i]).0 == key
}

/// A new value of a field.
pub enum NewField {
    Text(String),
    Integer(i64),
}

impl View for NewField {
    type V = FieldView;

    open spec fn view(&self) -> FieldView {
        match self {
            NewField::Text(s) => FieldView::Text(s@),
            NewField::Integer(n) => FieldView::Number(signed_padded(*n as int, 1)),
        }
    }
}

/// `Map::insert` under a key that the object has: the field keeps its place,
/// and every other field is as before.
#[verifier::external_body]
pub(crate) fn set_field(m: &mut JsonMap<String, JsonValue>, key: &str, v: NewField)
    requires
        has_key(json_entries(*old(m)), key@),
    ensures
        json_entries(*final(m)) == with_field(json_entries(*old(m)), key@, v@),
{
    let value = match v {
        NewField::Text(s) => JsonValue::String(s),
        NewField::Integer(n) => JsonValue::from(n),
    };
    m.insert(key.to_string(), value);
}

/// `serde_json::to_string` of an object.
#[verifier::external_body]
pub(crate) fn write_object(m: &JsonMap<String, JsonValue>) -> (r: Option<String>)
    ensures
        match r {
            Some(s) => json_text(json_entries(*m)) == Some(s@),
            None => json_text(json_entries(*m)) is None,
        },
{
    serde_json::to_string(m).ok()
}

/// What the first field with the key holds, from the `i`th on.
pub open spec fn field_from(
    e: Seq<(Seq<char>, FieldView)>,
    key: Seq<char>,
    i: int,
) -> Option<FieldView>
    decreases e.len() - i,
{
    if i < 0 || i >= e.len() {
        None
    } else if e[i].0 == key {
        Some(e[i].1)
    } else {
        field_from(e, key, i + 1)
    }
}

/// The field with the key.
pub open spec fn field_of(e: Seq<(Seq<char>, FieldView)>, key: Seq<char>) -> Option<FieldView> {
    field_from(e, key, 0)
}

/// The position of the field with the key.
pub fn find_key(e: &Vec<(String, Field)>, key: &str) -> (r: Option<usize>)
    ensures
        match r {
            Some(i) => {
                &&& i < e@.len()
                &&& e@[i as int].0@ == key@
                &&& field_of(entries_view(e@), key@) == Some(e@[i as int].1@)
                &&& has_key(entries_view(e@), key@)
            },
            None => field_of(entries_view(e@), key@) is None,
        },
{
    let mut i: usize = 0;
    while i < e.len()
        invariant
            i <= e@.len(),
            field_of(entries_view(e@), key@) == field_from(entries_view(e@), key@, i as int),
        decreases e@.len() - i,
    {
        assert(entries_view(e@)[i as int] == (e@[i as int].0@, e@[i as int].1@));
        if same_str(e[i].0.as_str(), key) {
            return Some(i);
        }
        i += 1;
    }
    None
}

} // verus!
