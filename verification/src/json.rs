use vstd::prelude::*;

use crate::book::{text_less, text_order};
use crate::text::{isbn_chars, normalize_isbn, string_of};

verus! {

/// A JSON value as read from a page's linked-data script.
///
/// An object keeps its members in the order its map yields them.
#[derive(Debug)]
pub enum JsonValue {
    Null,
    Bool(bool),
    Number(String),
    Str(String),
    Array(Vec<JsonValue>),
    Object(Vec<(String, JsonValue)>),
}

#[verifier::external_type_specification]
#[verifier::external_body]
pub struct ExSerdeJsonValue(serde_json::Value);

/// The value `serde_json` reads from `text` as a `serde_json::Value`,
/// converted variant for variant (`None` where the text is not JSON).
pub uninterp spec fn parsed_json(text: Seq<char>) -> Option<JsonValue>;

/// Converts a `serde_json::Value` variant for variant; an object's members
/// come in the order its map yields them, a number as its JSON text.
#[verifier::external_body]
fn json_of(v: serde_json::Value) -> JsonValue {
    match v {
        serde_json::Value::Null => JsonValue::Null,
        serde_json::Value::Bool(b) => JsonValue::Bool(b),
        serde_json::Value::Number(n) => JsonValue::Number(n.to_string()),
        serde_json::Value::String(s) => JsonValue::Str(s),
        serde_json::Value::Array(a) => JsonValue::Array(a.into_iter().map(json_of).collect()),
        serde_json::Value::Object(m) => JsonValue::Object(m.into_iter().map(|(k, v)| (k, json_of(v))).collect()),
    }
}

/// `serde_json::from_str::<serde_json::Value>`, its value converted: what
/// [`parsed_json`] names for the text. serde_json's map is a `BTreeMap`
/// here (its `preserve_order` feature is off), so every object yields its
/// member names once each, in ascending order: the value is valid.
#[verifier::external_body]
pub(crate) fn parse_json(text: &str) -> (res: Option<JsonValue>)
    ensures
        res == parsed_json(text@),
        res matches Some(v) ==> json_valid(v),
{
    serde_json::from_str::<serde_json::Value>(text).ok().map(json_of)
}

/// A JSON value as a JSON map holds it: every object's member names stand in
/// strictly ascending order (so none occurs twice), at every depth.
pub open spec fn json_valid(v: JsonValue) -> bool
    decreases v,
{
    match v {
        JsonValue::Object(es) => members_valid(es@),
        JsonValue::Array(items) => items_valid(items@),
        _ => true,
    }
}

/// The members' names ascend strictly and their values are valid.
pub open spec fn members_valid(es: Seq<(String, JsonValue)>) -> bool
    decreases es,
{
    if es.len() == 0 {
        true
    } else {
        &&& json_valid(es[0].1)
        &&& (es.len() > 1 ==> text_less(es[0].0@, es[1].0@))
        &&& members_valid(es.drop_first())
    }
}

/// The items are valid.
pub open spec fn items_valid(vs: Seq<JsonValue>) -> bool
    decreases vs,
{
    if vs.len() == 0 {
        true
    } else {
        json_valid(vs[0]) && items_valid(vs.drop_first())
    }
}

/// Whether a JSON value is valid (see [`json_valid`]).
pub fn json_well_formed(v: &JsonValue) -> (res: bool)
    ensures
        res == json_valid(*v),
    decreases v,
{
    match v {
        JsonValue::Object(es) => {
            let mut j: usize = 0;
            assert(es@.skip(0) =~= es@);
            while j < es.len()
                invariant
                    j <= es.len(),
                    *v == JsonValue::Object(*es),
                    json_valid(*v) == members_valid(es@.skip(j as int)),
                decreases es.len() - j,
            {
                assert(es@.skip(j as int)[0] == es@[j as int]);
                assert(es@.skip(j as int).drop_first() =~= es@.skip(j + 1));
                assert(decreases_to!(*v => es@[j as int].1));
                if !json_well_formed(&es[j].1) {
                    return false;
                }
                if j + 1 < es.len() {
                    assert(es@.skip(j as int)[1] == es@[j + 1]);
                    if text_order(es[j].0.as_str(), es[j + 1].0.as_str()) >= 0 {
                        return false;
                    }
                }
                j = j + 1;
            }
            true
        },
        JsonValue::Array(items) => {
            let mut j: usize = 0;
            assert(items@.skip(0) =~= items@);
            while j < items.len()
                invariant
                    j <= items.len(),
                    *v == JsonValue::Array(*items),
                    json_valid(*v) == items_valid(items@.skip(j as int)),
                decreases items.len() - j,
            {
                assert(items@.skip(j as int)[0] == items@[j as int]);
                assert(items@.skip(j as int).drop_first() =~= items@.skip(j + 1));
                assert(decreases_to!(*v => items@[j as int]));
                if !json_well_formed(&items[j]) {
                    return false;
                }
                j = j + 1;
            }
            true
        },
        _ => true,
    }
}

/// The member name `isbn`.
pub open spec fn isbn_key() -> Seq<char> {
    seq!['i', 's', 'b', 'n']
}

/// The value of the first member named `isbn`, if any.
pub open spec fn isbn_member(es: Seq<(String, JsonValue)>) -> Option<JsonValue>
    decreases es.len(),
{
    if es.len() == 0 {
        None
    } else if es[0].0@ == isbn_key() {
        Some(es[0].1)
    } else {
        isbn_member(es.drop_first())
    }
}

/// The ISBN text found in `v`: an object's own `isbn` member where it is a
/// string, else the first one found in its member values in order; for an
/// array, the first one found in its items in order.
pub open spec fn json_isbn(v: JsonValue) -> Option<Seq<char>>
    decreases v,
{
    match v {
        JsonValue::Object(es) => match isbn_member(es@) {
            Some(JsonValue::Str(s)) => Some(s@),
            _ => members_isbn(es@),
        },
        JsonValue::Array(items) => items_isbn(items@),
        _ => None,
    }
}

/// The first ISBN text found in the member values `es`, in order.
pub open spec fn members_isbn(es: Seq<(String, JsonValue)>) -> Option<Seq<char>>
    decreases es,
{
    if es.len() == 0 {
        None
    } else {
        match json_isbn(es[0].1) {
            Some(s) => Some(s),
            None => members_isbn(es.drop_first()),
        }
    }
}

/// The first ISBN text found in the items `vs`, in order.
pub open spec fn items_isbn(vs: Seq<JsonValue>) -> Option<Seq<char>>
    decreases vs,
{
    if vs.len() == 0 {
        None
    } else {
        match json_isbn(vs[0]) {
            Some(s) => Some(s),
            None => items_isbn(vs.drop_first()),
        }
    }
}

/// Where the first member named `isbn` stands among `es`.
fn isbn_member_index(es: &Vec<(String, JsonValue)>) -> (res: Option<usize>)
    ensures
        match res {
            Some(k) => k < es.len() && isbn_member(es@) == Some(es@[k as int].1),
            None => isbn_member(es@) is None,
        },
{
    let key = string_of(&vec!['i', 's', 'b', 'n']);
    let mut k: usize = 0;
    assert(es@.skip(0) =~= es@);
    while k < es.len()
        invariant
            k <= es.len(),
            key@ == isbn_key(),
            isbn_member(es@) == isbn_member(es@.skip(k as int)),
        decreases es.len() - k,
    {
        assert(es@.skip(k as int)[0] == es@[k as int]);
        if es[k].0 == key {
            return Some(k);
        }
        assert(es@.skip(k as int).drop_first() =~= es@.skip(k + 1));
        k = k + 1;
    }
    None
}

/// Looks through a linked-data value for an ISBN text: an object's own `isbn`
/// string member first, then its member values in order, then array items in order.
pub fn find_json_isbn(v: &JsonValue) -> (res: Option<String>)
    requires
        json_valid(*v),
    ensures
        match res {
            Some(s) => json_isbn(*v) == Some(s@),
            None => json_isbn(*v) is None,
        },
    decreases v,
{
    match v {
        JsonValue::Object(es) => {
            match isbn_member_index(es) {
                Some(k) => match &es[k].1 {
                    JsonValue::Str(s) => {
                        return Some(s.clone());
                    },
                    _ => {},
                },
                None => {},
            }
            let mut j: usize = 0;
            assert(es@.skip(0) =~= es@);
            while j < es.len()
                invariant
                    j <= es.len(),
                    *v == JsonValue::Object(*es),
                    members_valid(es@.skip(j as int)),
                    json_isbn(*v) == members_isbn(es@.skip(j as int)),
                decreases es.len() - j,
            {
                assert(es@.skip(j as int)[0] == es@[j as int]);
                assert(es@.skip(j as int).drop_first() =~= es@.skip(j + 1));
                assert(decreases_to!(*v => es@[j as int].1));
                match find_json_isbn(&es[j].1) {
                    Some(s) => {
                        return Some(s);
                    },
                    None => {},
                }
                j = j + 1;
            }
            None
        },
        JsonValue::Array(items) => {
            let mut j: usize = 0;
            assert(items@.skip(0) =~= items@);
            while j < items.len()
                invariant
                    j <= items.len(),
                    *v == JsonValue::Array(*items),
                    items_valid(items@.skip(j as int)),
                    json_isbn(*v) == items_isbn(items@.skip(j as int)),
                decreases items.len() - j,
            {
                assert(items@.skip(j as int)[0] == items@[j as int]);
                assert(items@.skip(j as int).drop_first() =~= items@.skip(j + 1));
                assert(decreases_to!(*v => items@[j as int]));
                match find_json_isbn(&items[j]) {
                    Some(s) => {
                        return Some(s);
                    },
                    None => {},
                }
                j = j + 1;
            }
            None
        },
        _ => None,
    }
}

/// The normalized ISBN of the first of `values` (the page's linked-data
/// scripts, `None` where one did not read as JSON) in which one is found.
pub open spec fn scripts_isbn(values: Seq<Option<JsonValue>>) -> Option<Seq<char>>
    decreases values.len(),
{
    if values.len() == 0 {
        None
    } else {
        match values[0] {
            Some(v) => match json_isbn(v) {
                Some(s) => Some(isbn_chars(s)),
                None => scripts_isbn(values.drop_first()),
            },
            None => scripts_isbn(values.drop_first()),
        }
    }
}

/// The normalized ISBN of the first linked-data script that carries one.
pub fn isbn_from_scripts(values: &Vec<Option<JsonValue>>) -> (res: Option<String>)
    requires
        forall|i: int| 0 <= i < values.len() && (#[trigger] values@[i]) is Some ==> json_valid(values@[i]->Some_0),
    ensures
        match res {
            Some(s) => scripts_isbn(values@) == Some(s@),
            None => scripts_isbn(values@) is None,
        },
{
    let mut j: usize = 0;
    assert(values@.skip(0) =~= values@);
    while j < values.len()
        invariant
            j <= values.len(),
            forall|i: int| 0 <= i < values.len() && (#[trigger] values@[i]) is Some ==> json_valid(values@[i]->Some_0),
            scripts_isbn(values@) == scripts_isbn(values@.skip(j as int)),
        decreases values.len() - j,
    {
        assert(values@.skip(j as int)[0] == values@[j as int]);
        assert(values@.skip(j as int).drop_first() =~= values@.skip(j + 1));
        match &values[j] {
            Some(v) => match find_json_isbn(v) {
                Some(s) => {
                    return Some(normalize_isbn(s.as_str()));
                },
                None => {},
            },
            None => {},
        }
        j = j + 1;
    }
    None
}

} // verus!
