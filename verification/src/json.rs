//! JSON values: a tree of plain values, and how it is read.
use serde_json::Value;
use vstd::prelude::*;

use crate::text::str_eq;

verus! {

/// A JSON value. A number that is no integer of 64 bits is kept as the bits
/// of its binary64 form.
#[derive(Debug, PartialEq)]
pub enum Json {
    Null,
    Bool(bool),
    Unsigned(u64),
    Negative(i64),
    Float { bits: u64 },
    String(String),
    Array(Vec<Json>),
    Object(Vec<(String, Json)>),
}

/// What a JSON value holds, as mathematical values.
#[verifier::ext_equal]
pub enum JsonView {
    Null,
    Bool(bool),
    Unsigned(u64),
    Negative(i64),
    Float { bits: u64 },
    String(Seq<char>),
    Array(Seq<JsonView>),
    Object(Seq<(Seq<char>, JsonView)>),
}

/// What a JSON value holds.
pub open spec fn json_view(json: Json) -> JsonView
    decreases json,
{
    match json {
        Json::Null => JsonView::Null,
        Json::Bool(b) => JsonView::Bool(b),
        Json::Unsigned(n) => JsonView::Unsigned(n),
        Json::Negative(n) => JsonView::Negative(n),
        Json::Float { bits } => JsonView::Float { bits },
        Json::String(s) => JsonView::String(s@),
        Json::Array(items) => JsonView::Array(
            Seq::new(
                items@.len(),
                |i: int|
                    if 0 <= i < items@.len() {
                        json_view(items@[i])
                    } else {
                        JsonView::Null
                    },
            ),
        ),
        Json::Object(fields) => JsonView::Object(
            Seq::new(
                fields@.len(),
                |i: int|
                    if 0 <= i < fields@.len() {
                        (fields@[i].0@, json_view(fields@[i].1))
                    } else {
                        (Seq::<char>::empty(), JsonView::Null)
                    },
            ),
        ),
    }
}

impl View for Json {
    type V = JsonView;

    open spec fn view(&self) -> JsonView {
        json_view(*self)
    }
}

/// The members of an object that a JSON value is.
pub open spec fn members(json: JsonView) -> Seq<(Seq<char>, JsonView)> {
    match json {
        JsonView::Object(fields) => fields,
        _ => Seq::empty(),
    }
}

/// The value of the first member with the given name.
pub open spec fn member_of(fields: Seq<(Seq<char>, JsonView)>, name: Seq<char>) -> Option<JsonView>
    decreases fields.len(),
{
    if fields.len() == 0 {
        None
    } else if fields[0].0 == name {
        Some(fields[0].1)
    } else {
        member_of(fields.skip(1), name)
    }
}

/// The value of a member, where the JSON value is an object that has it.
pub open spec fn member(json: JsonView, name: Seq<char>) -> Option<JsonView> {
    member_of(members(json), name)
}

/// A field of a record that is written as an object by names, or as an array
/// in a fixed order.
pub open spec fn slot(json: JsonView, index: int, name: Seq<char>) -> Option<JsonView> {
    match json {
        JsonView::Array(items) => if 0 <= index < items.len() {
            Some(items[index])
        } else {
            None
        },
        _ => member(json, name),
    }
}

/// Whether a value is an object, or an array of a length in the given range.
pub open spec fn shaped(json: JsonView, least: int, most: int) -> bool {
    match json {
        JsonView::Object(_) => true,
        JsonView::Array(items) => least <= items.len() <= most,
        _ => false,
    }
}

/// The text that a JSON value is.
pub open spec fn text_of(json: Option<JsonView>) -> Option<Seq<char>> {
    match json {
        Some(JsonView::String(s)) => Some(s),
        _ => None,
    }
}

/// What an optional text holds.
pub open spec fn str_view(text: Option<&str>) -> Option<Seq<char>> {
    match text {
        Some(s) => Some(s@),
        None => None,
    }
}

/// What an optional reference to a JSON value holds.
pub open spec fn ref_view(value: Option<&Json>) -> Option<JsonView> {
    match value {
        Some(json) => Some(json@),
        None => None,
    }
}

/// What an optional owned text holds.
pub open spec fn string_view(text: Option<String>) -> Option<Seq<char>> {
    match text {
        Some(s) => Some(s@),
        None => None,
    }
}

/// What an optional JSON value holds.
pub open spec fn option_view(json: Option<Json>) -> Option<JsonView> {
    match json {
        Some(j) => Some(j@),
        None => None,
    }
}

impl Json {
    /// The value of the first member with the given name, where this is an
    /// object that has one.
    pub fn get(&self, name: &str) -> (r: Option<&Json>)
        ensures
            match r {
                Some(value) => member(self@, name@) == Some(value@),
                None => member(self@, name@) is None,
            },
    {
        match self {
            Json::Object(fields) => {
                let ghost all = members(self@);
                let mut i: usize = 0;
                assert(all.skip(0) =~= all);
                while i < fields.len()
                    invariant
                        i <= fields@.len(),
                        self@ == JsonView::Object(all),
                        *self == Json::Object(*fields),
                        all.len() == fields@.len(),
                        member(self@, name@) == member_of(all.skip(i as int), name@),
                    decreases fields@.len() - i,
                {
                    let field = &fields[i];
                    assert(all.skip(i as int)[0] == (field.0@, field.1@));
                    if str_eq(field.0.as_str(), name) {
                        return Some(&field.1);
                    }
                    assert(all.skip(i as int).skip(1) =~= all.skip(i + 1));
                    i = i + 1;
                }
                None
            },
            _ => None,
        }
    }

    /// A field of a record that is written as an object by names, or as an
    /// array in a fixed order.
    pub fn slot(&self, index: usize, name: &str) -> (r: Option<&Json>)
        ensures
            ref_view(r) == slot(self@, index as int, name@),
    {
        match self {
            Json::Array(items) => if index < items.len() {
                assert(self@->Array_0[index as int] == items@[index as int]@);
                Some(&items[index])
            } else {
                None
            },
            _ => self.get(name),
        }
    }

    /// Whether this is an object, or an array of a length in the given range.
    pub fn shaped(&self, least: usize, most: usize) -> (r: bool)
        ensures
            r == shaped(self@, least as int, most as int),
    {
        match self {
            Json::Object(_) => true,
            Json::Array(items) => least <= items.len() && items.len() <= most,
            _ => false,
        }
    }

    /// The text that this value is.
    pub fn as_str(&self) -> (r: Option<&str>)
        ensures
            str_view(r) == text_of(Some(self@)),
    {
        match self {
            Json::String(s) => Some(s.as_str()),
            _ => None,
        }
    }
}

impl Clone for Json {
    fn clone(&self) -> (r: Json)
        ensures
            r@ == self@,
    {
        copy_json(self)
    }
}

/// A copy of a JSON value.
fn copy_json(json: &Json) -> (r: Json)
    ensures
        r@ == json@,
    decreases json,
{
    match json {
        Json::Null => Json::Null,
        Json::Bool(b) => Json::Bool(*b),
        Json::Unsigned(n) => Json::Unsigned(*n),
        Json::Negative(n) => Json::Negative(*n),
        Json::Float { bits } => Json::Float { bits: *bits },
        Json::String(s) => Json::String(s.clone()),
        Json::Array(items) => {
            let mut copies: Vec<Json> = Vec::new();
            let mut i: usize = 0;
            while i < items.len()
                invariant
                    i <= items@.len(),
                    copies@.len() == i,
                    *json == Json::Array(*items),
                    forall|j: int| 0 <= j < i ==> (#[trigger] copies@[j])@ == items@[j]@,
                decreases items@.len() - i,
            {
                assert(decreases_to!(*json => json->Array_0));
                assert(decreases_to!(json->Array_0 => json->Array_0@[i as int]));
                let copy = copy_json(&items[i]);
                copies.push(copy);
                i = i + 1;
            }
            let r = Json::Array(copies);
            proof {
                let got = r@->Array_0;
                let want = json@->Array_0;
                assert forall|j: int| 0 <= j < want.len() implies got[j] == want[j] by {
                    assert(got[j] == copies@[j]@);
                    assert(want[j] == items@[j]@);
                }
                assert(got =~= want);
            }
            r
        },
        Json::Object(fields) => {
            let mut copies: Vec<(String, Json)> = Vec::new();
            let mut i: usize = 0;
            while i < fields.len()
                invariant
                    i <= fields@.len(),
                    copies@.len() == i,
                    *json == Json::Object(*fields),
                    forall|j: int|
                        0 <= j < i ==> (#[trigger] copies@[j]).0@ == fields@[j].0@
                            && copies@[j].1@ == fields@[j].1@,
                decreases fields@.len() - i,
            {
                let field = &fields[i];
                assert(decreases_to!(*json => json->Object_0));
                assert(decreases_to!(json->Object_0 => json->Object_0@[i as int]));
                assert(decreases_to!(json->Object_0@[i as int] => json->Object_0@[i as int].1));
                let copy = copy_json(&field.1);
                copies.push((field.0.clone(), copy));
                i = i + 1;
            }
            let r = Json::Object(copies);
            proof {
                let got = r@->Object_0;
                let want = json@->Object_0;
                assert forall|j: int| 0 <= j < want.len() implies got[j] == want[j] by {
                    assert(got[j] == (copies@[j].0@, copies@[j].1@));
                    assert(want[j] == (fields@[j].0@, fields@[j].1@));
                }
                assert(got =~= want);
            }
            r
        },
    }
}

// ---- members of a wire object ----

/// A member that may be left out or null.
pub open spec fn optional(value: Option<JsonView>) -> Option<JsonView> {
    match value {
        Some(JsonView::Null) => None,
        other => other,
    }
}

/// A text member that may be left out or null; nothing where it is something
/// else than a text.
pub open spec fn optional_text(value: Option<JsonView>) -> Option<Option<Seq<char>>> {
    match value {
        None => Some(None),
        Some(JsonView::Null) => Some(None),
        Some(JsonView::String(s)) => Some(Some(s)),
        Some(_) => None,
    }
}

/// A text member that may be left out, and is then empty; nothing where it is
/// something else than a text.
pub open spec fn defaulted_text(value: Option<JsonView>) -> Option<Seq<char>> {
    match value {
        None => Some(Seq::empty()),
        Some(JsonView::String(s)) => Some(s),
        Some(_) => None,
    }
}

/// A member that is an unsigned number.
pub open spec fn unsigned_of(value: Option<JsonView>) -> Option<u64> {
    match value {
        Some(JsonView::Unsigned(n)) => Some(n),
        _ => None,
    }
}

/// What an optional text that may itself be absent holds.
pub open spec fn nested_view(value: Option<Option<String>>) -> Option<Option<Seq<char>>> {
    match value {
        Some(text) => Some(string_view(text)),
        None => None,
    }
}

/// Reads such a member.
pub(crate) fn read_optional(value: Option<&Json>) -> (r: Option<Json>)
    ensures
        option_view(r) == optional(ref_view(value)),
{
    match value {
        None => None,
        Some(Json::Null) => None,
        Some(json) => Some(json.clone()),
    }
}

/// Reads such a member.
pub(crate) fn read_optional_text(value: Option<&Json>) -> (r: Option<Option<String>>)
    ensures
        nested_view(r) == optional_text(ref_view(value)),
{
    match value {
        None => Some(None),
        Some(Json::Null) => Some(None),
        Some(Json::String(s)) => Some(Some(s.clone())),
        Some(_) => None,
    }
}

/// Reads such a member.
pub(crate) fn read_text(value: Option<&Json>) -> (r: Option<String>)
    ensures
        string_view(r) == text_of(ref_view(value)),
{
    match value {
        Some(Json::String(s)) => Some(s.clone()),
        _ => None,
    }
}

/// Reads such a member.
pub(crate) fn read_defaulted_text(value: Option<&Json>) -> (r: Option<String>)
    ensures
        string_view(r) == defaulted_text(ref_view(value)),
{
    match value {
        None => {
            let empty = String::new();
            assert(empty@ =~= Seq::<char>::empty());
            Some(empty)
        },
        Some(Json::String(s)) => Some(s.clone()),
        Some(_) => None,
    }
}

/// Reads such a member.
pub(crate) fn read_unsigned(value: Option<&Json>) -> (r: Option<u64>)
    ensures
        r == unsigned_of(ref_view(value)),
{
    match value {
        Some(Json::Unsigned(n)) => Some(*n),
        _ => None,
    }
}

// ---- serde_json ----

/// A value of `serde_json`, carried from its parser to the tree above.
#[verifier::external_type_specification]
#[verifier::external_body]
pub struct ExValue(serde_json::Value);

/// What `serde_json::from_str` reads in a text; nothing where the text is no
/// JSON document.
pub uninterp spec fn json_document(text: Seq<char>) -> Option<JsonView>;

/// The tree of a `serde_json::Value`, node for node: integers by
/// `Number::as_u64` and `as_i64`, other numbers by the bits of `as_f64`.
#[verifier::external_body]
fn json_of(value: Value) -> Json {
    match value {
        Value::Null => Json::Null,
        Value::Bool(b) => Json::Bool(b),
        Value::Number(n) => match (n.as_u64(), n.as_i64()) {
            (Some(u), _) => Json::Unsigned(u),
            (None, Some(i)) => Json::Negative(i),
            (None, None) => Json::Float { bits: n.as_f64().unwrap_or_default().to_bits() },
        },
        Value::String(s) => Json::String(s),
        Value::Array(items) => Json::Array(items.into_iter().map(json_of).collect()),
        Value::Object(fields) => Json::Object(
            fields.into_iter().map(|(name, value)| (name, json_of(value))).collect(),
        ),
    }
}

/// `serde_json::from_str` to a value of any shape: the document that the text
/// spells, as a function of the text alone. Of members with one name the last
/// is kept; a number out of range or too deep a nesting, in any member, makes
/// the text no document.
#[verifier::external_body]
pub(crate) fn parse_json(text: &str) -> (r: Option<Json>)
    ensures
        option_view(r) == json_document(text@),
{
    serde_json::from_str::<serde_json::Value>(text).ok().map(json_of)
}

} // verus!
