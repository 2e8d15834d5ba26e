//! JSON text: read and written by `serde_json`, one level at a time.
//!
//! The value tree of `serde_json` is opaque here. It is opened and built
//! level by level; what a tree holds is the model that these steps agree on.

use serde_json::{Number, Value};
use vstd::prelude::*;
use crate::error::{Entity, ErrorKind, ParseError};
use crate::json::{
    fields_fit, fits, items_fit, lemma_fields_fit, lemma_items_fit, Json, JsonView, MAX_LEVELS,
};
use crate::text::str_eq;

verus! {

/// The value tree of the JSON reader, `serde_json::Value`, carried as it is.
#[verifier::external_type_specification]
#[verifier::external_body]
pub struct ExValue(serde_json::Value);

/// The failure of the JSON reader, `serde_json::Error`, carried as it is.
#[verifier::external_type_specification]
#[verifier::external_body]
pub struct ExError(serde_json::Error);

/// What a value tree of the JSON reader holds: a number that
/// `Number::as_i64` gives as `Integer`, any other number as `Decimal` with
/// the text that the number displays as, the entries of an object in the
/// order in which the tree keeps them.
pub uninterp spec fn json_of_value(value: Value) -> JsonView;

/// What `serde_json::from_str` reads from `text`; `None` where it fails.
pub uninterp spec fn parsed(text: Seq<char>) -> Option<JsonView>;

/// The number that `serde_json::Number` reads from `text` by its `from_str`;
/// `None` where it fails.
pub uninterp spec fn number_of_text(text: Seq<char>) -> Option<JsonView>;

/// The text that `serde_json::to_string_pretty` writes for a value tree that
/// holds `j`; `None` where it fails.
pub uninterp spec fn text_of(j: JsonView) -> Option<Seq<char>>;

/// One level of a value tree of the JSON reader, as it is read: the values
/// below it are those of the tree.
enum Peeled<'a> {
    Null,
    Boolean(bool),
    Integer(i64),
    Decimal(String),
    Text(&'a String),
    Array(&'a Vec<Value>),
    Object(Vec<(&'a String, &'a Value)>),
}

/// One level of a value tree of the JSON reader, as it is built: with the
/// values below it.
enum Level {
    Null,
    Boolean(bool),
    Integer(i64),
    Text(String),
    Array(Vec<Value>),
    Object(Vec<(String, Value)>),
}

/// What a value tree holds of which `p` is the top level.
spec fn peeled_view(p: Peeled) -> JsonView {
    match p {
        Peeled::Null => JsonView::Null,
        Peeled::Boolean(b) => JsonView::Boolean(b),
        Peeled::Integer(i) => JsonView::Integer(i),
        Peeled::Decimal(t) => JsonView::Decimal(t@),
        Peeled::Text(t) => JsonView::Text(t@),
        Peeled::Array(items) => JsonView::Array(items@.map_values(|v: Value| json_of_value(v))),
        Peeled::Object(fields) => JsonView::Object(
            fields@.map_values(|f: (&String, &Value)| (f.0@, json_of_value(*f.1))),
        ),
    }
}

/// What a value tree holds of which `level` is the top level.
spec fn level_view(level: Level) -> JsonView {
    match level {
        Level::Null => JsonView::Null,
        Level::Boolean(b) => JsonView::Boolean(b),
        Level::Integer(i) => JsonView::Integer(i),
        Level::Text(t) => JsonView::Text(t@),
        Level::Array(items) => JsonView::Array(items@.map_values(|v: Value| json_of_value(v))),
        Level::Object(fields) => JsonView::Object(
            fields@.map_values(|f: (String, Value)| (f.0@, json_of_value(f.1))),
        ),
    }
}

/// Calls `serde_json::from_str` for a value tree. The contract names the
/// result by what the tree holds.
#[verifier::external_body]
fn text_to_value(text: &str) -> (r: Result<Value, serde_json::Error>)
    ensures
        r matches Ok(v) ==> parsed(text@) == Some(json_of_value(v)),
        r is Err ==> parsed(text@) is None,
{
    serde_json::from_str(text)
}

/// Opens the top level of a `serde_json::Value`, variant by variant: a
/// number becomes `Integer` where `Number::as_i64` gives one, else `Decimal`
/// with the text that the number displays as; an object gives its entries as
/// `Map::iter` does, which is their order in the tree, the map being one
/// that keeps the order of insertion. The contract says that the tree holds
/// what this level holds, with what the values below it hold.
#[verifier::external_body]
fn peel(value: &Value) -> (p: Peeled<'_>)
    ensures
        peeled_view(p) == json_of_value(*value),
{
    match value {
        Value::Null => Peeled::Null,
        Value::Bool(b) => Peeled::Boolean(*b),
        Value::Number(n) => match n.as_i64() {
            Some(i) => Peeled::Integer(i),
            None => Peeled::Decimal(n.to_string()),
        },
        Value::String(t) => Peeled::Text(t),
        Value::Array(items) => Peeled::Array(items),
        Value::Object(map) => Peeled::Object(map.iter().collect()),
    }
}

/// Reads a number from `text` by `serde_json::Number`'s `from_str`. The
/// contract names the result by what the number holds.
#[verifier::external_body]
fn number_value(text: &str) -> (r: Option<Value>)
    ensures
        r matches Some(v) ==> number_of_text(text@) == Some(json_of_value(v)),
        r is None ==> number_of_text(text@) is None,
{
    text.parse::<Number>().ok().map(Value::Number)
}

/// Builds a `serde_json::Value` from its top level and the values below it,
/// variant by variant; the entries of an object are collected into a map
/// that keeps the order of insertion, so with keys that differ the map holds
/// the entries as given. The contract says that the tree holds what the
/// level holds, with what the values below it hold.
#[verifier::external_body]
fn build(level: Level) -> (r: Value)
    requires
        level matches Level::Object(fields) ==> forall|i: int, j: int|
            0 <= i < j < fields.len() ==> (#[trigger] fields[i]).0@ != (#[trigger] fields[j]).0@,
    ensures
        json_of_value(r) == level_view(level),
{
    match level {
        Level::Null => Value::Null,
        Level::Boolean(b) => Value::Bool(b),
        Level::Integer(i) => Value::Number(Number::from(i)),
        Level::Text(t) => Value::String(t),
        Level::Array(items) => Value::Array(items),
        Level::Object(fields) => Value::Object(fields.into_iter().collect()),
    }
}

/// Calls `serde_json::to_string_pretty` on a value tree. The contract names
/// the result by what the tree holds. The writer descends level by level,
/// so the nesting is bounded.
#[verifier::external_body]
fn value_to_text(value: &Value) -> (r: Result<String, serde_json::Error>)
    requires
        fits(json_of_value(*value), MAX_LEVELS as nat),
    ensures
        r matches Ok(t) ==> text_of(json_of_value(*value)) == Some(t@),
        r is Err ==> text_of(json_of_value(*value)) is None,
{
    serde_json::to_string_pretty(value)
}

/// The message of a `serde_json::Error`, by its `Display`. Nothing is
/// promised of the text.
#[verifier::external_body]
fn error_text(error: &serde_json::Error) -> (r: String) {
    error.to_string()
}

/// Whether no key stands twice among `fields`.
pub open spec fn keys_differ(fields: Seq<(Seq<char>, JsonView)>) -> bool {
    forall|i: int, j: int|
        0 <= i < j < fields.len() ==> (#[trigger] fields[i]).0 != (#[trigger] fields[j]).0
}

/// What the value tree holds that is built for `j`: `j` itself, but with
/// each `Decimal` as the JSON writer reads its text. `None` where a
/// `Decimal` is no number to the writer, and where an object holds a key
/// twice.
pub open spec fn written(j: JsonView) -> Option<JsonView>
    decreases j,
{
    match j {
        JsonView::Decimal(t) => match number_of_text(t) {
            Some(JsonView::Integer(i)) => Some(JsonView::Integer(i)),
            Some(JsonView::Decimal(d)) => Some(JsonView::Decimal(d)),
            _ => None,
        },
        JsonView::Array(items) => match written_items(items) {
            Some(ws) => Some(JsonView::Array(ws)),
            None => None,
        },
        JsonView::Object(fields) => if keys_differ(fields) {
            match written_fields(fields) {
                Some(ws) => Some(JsonView::Object(ws)),
                None => None,
            }
        } else {
            None
        },
        _ => Some(j),
    }
}

/// What is built for each of `items`; `None` where nothing is built for one
/// of them.
pub open spec fn written_items(items: Seq<JsonView>) -> Option<Seq<JsonView>>
    decreases items,
{
    if items.len() == 0 {
        Some(Seq::empty())
    } else {
        match (written_items(items.drop_last()), written(items.last())) {
            (Some(head), Some(last)) => Some(head.push(last)),
            _ => None,
        }
    }
}

/// What is built for the value of each of `fields`, under its key; `None`
/// where nothing is built for one of them.
pub open spec fn written_fields(fields: Seq<(Seq<char>, JsonView)>) -> Option<
    Seq<(Seq<char>, JsonView)>,
>
    decreases fields,
{
    if fields.len() == 0 {
        Some(Seq::empty())
    } else {
        match (written_fields(fields.drop_last()), written(fields.last().1)) {
            (Some(head), Some(last)) => Some(head.push((fields.last().0, last))),
            _ => None,
        }
    }
}

/// What is built for a list is as long as the list, and where nothing is
/// built for some items of a list, nothing is built for the list.
proof fn lemma_written_items(items: Seq<JsonView>, n: int)
    requires
        0 <= n <= items.len(),
    ensures
        written_items(items) matches Some(ws) ==> ws.len() == items.len(),
        written_items(items.take(n)) is None ==> written_items(items) is None,
    decreases items.len(),
{
    if items.len() > 0 {
        if n < items.len() {
            assert(items.drop_last().take(n) =~= items.take(n));
            lemma_written_items(items.drop_last(), n);
        } else {
            assert(items.take(n) =~= items);
            lemma_written_items(items.drop_last(), n - 1);
        }
    } else {
        assert(items.take(n) =~= items);
    }
}

/// What is built for the fields of an object keeps their number and their
/// keys, and where nothing is built for some fields, nothing is built for
/// them all.
proof fn lemma_written_fields(fields: Seq<(Seq<char>, JsonView)>, n: int)
    requires
        0 <= n <= fields.len(),
    ensures
        written_fields(fields) matches Some(ws) ==> ws.len() == fields.len() && forall|i: int|
            0 <= i < ws.len() ==> (#[trigger] ws[i]).0 == fields[i].0,
        written_fields(fields.take(n)) is None ==> written_fields(fields) is None,
    decreases fields.len(),
{
    if fields.len() > 0 {
        if n < fields.len() {
            assert(fields.drop_last().take(n) =~= fields.take(n));
            lemma_written_fields(fields.drop_last(), n);
        } else {
            assert(fields.take(n) =~= fields);
            lemma_written_fields(fields.drop_last(), n - 1);
        }
        if written_fields(fields) is Some {
            let ws = written_fields(fields)->0;
            let head = written_fields(fields.drop_last())->0;
            assert forall|i: int| 0 <= i < ws.len() implies (#[trigger] ws[i]).0 == fields[i].0 by {
                if i < head.len() {
                    assert(ws[i] == head[i]);
                    assert(fields.drop_last()[i] == fields[i]);
                }
            }
        }
    } else {
        assert(fields.take(n) =~= fields);
    }
}

/// What is built for a value nests no deeper than the value.
proof fn lemma_written_fits(j: JsonView, levels: nat)
    requires
        fits(j, levels),
        written(j) is Some,
    ensures
        fits(written(j)->0, levels),
    decreases j,
{
    match j {
        JsonView::Array(items) => {
            lemma_written_items_fit(items, (levels - 1) as nat);
        },
        JsonView::Object(fields) => {
            lemma_written_fields_fit(fields, (levels - 1) as nat);
        },
        _ => {},
    }
}

/// What is built for the items of a list nests no deeper than the items.
proof fn lemma_written_items_fit(items: Seq<JsonView>, levels: nat)
    requires
        items_fit(items, levels),
        written_items(items) is Some,
    ensures
        items_fit(written_items(items)->0, levels),
    decreases items,
{
    if items.len() > 0 {
        let head = written_items(items.drop_last())->0;
        let last = written(items.last())->0;
        lemma_written_items_fit(items.drop_last(), levels);
        lemma_written_fits(items.last(), levels);
        assert(head.push(last).drop_last() =~= head);
    }
}

/// What is built for the fields of an object nests no deeper than they.
proof fn lemma_written_fields_fit(fields: Seq<(Seq<char>, JsonView)>, levels: nat)
    requires
        fields_fit(fields, levels),
        written_fields(fields) is Some,
    ensures
        fields_fit(written_fields(fields)->0, levels),
    decreases fields,
{
    if fields.len() > 0 {
        let head = written_fields(fields.drop_last())->0;
        let last = (fields.last().0, written(fields.last().1)->0);
        lemma_written_fields_fit(fields.drop_last(), levels);
        lemma_written_fits(fields.last().1, levels);
        assert(head.push(last).drop_last() =~= head);
    }
}

/// The text that is written for `j`; `None` where none can be written: for
/// a value of more than `MAX_LEVELS` levels, for one for which no value tree
/// is built, and where the writer fails.
pub open spec fn printed(j: JsonView) -> Option<Seq<char>> {
    if fits(j, MAX_LEVELS as nat) {
        match written(j) {
            Some(w) => text_of(w),
            None => None,
        }
    } else {
        None
    }
}

/// Copies a value tree of the JSON reader, level by level.
fn from_value(value: &Value) -> (j: Json)
    ensures
        j.deep_view() == json_of_value(*value),
    decreases json_of_value(*value),
{
    let ghost whole = json_of_value(*value);
    match peel(value) {
        Peeled::Null => Json::Null,
        Peeled::Boolean(b) => Json::Boolean(b),
        Peeled::Integer(i) => Json::Integer(i),
        Peeled::Decimal(t) => Json::Decimal(t),
        Peeled::Text(t) => Json::Text(t.clone()),
        Peeled::Array(items) => {
            let ghost all = whole->Array_0;
            let mut out: Vec<Json> = Vec::new();
            let mut i: usize = 0;
            while i < items.len()
                invariant
                    i <= items.len(),
                    out.len() == i,
                    whole == json_of_value(*value),
                    whole == JsonView::Array(all),
                    all == items@.map_values(|v: Value| json_of_value(v)),
                    forall|k: int| 0 <= k < i ==> (#[trigger] out[k]).deep_view() == all[k],
                decreases items.len() - i,
            {
                proof {
                    assert(all[i as int] == json_of_value(items[i as int]));
                    assert(decreases_to!(whole => whole->Array_0));
                    assert(decreases_to!(whole->Array_0 => whole->Array_0[i as int]));
                }
                out.push(from_value(&items[i]));
                i += 1;
            }
            assert(out.deep_view() =~= all);
            Json::array(out)
        },
        Peeled::Object(fields) => {
            let ghost all = whole->Object_0;
            let mut out: Vec<(String, Json)> = Vec::new();
            let mut i: usize = 0;
            while i < fields.len()
                invariant
                    i <= fields.len(),
                    out.len() == i,
                    whole == json_of_value(*value),
                    whole == JsonView::Object(all),
                    all == fields@.map_values(|f: (&String, &Value)| (f.0@, json_of_value(*f.1))),
                    forall|k: int| 0 <= k < i ==> (#[trigger] out[k]).deep_view() == all[k],
                decreases fields.len() - i,
            {
                proof {
                    assert(all[i as int] == (
                        fields[i as int].0@,
                        json_of_value(*fields[i as int].1),
                    ));
                    assert(decreases_to!(whole => whole->Object_0));
                    assert(decreases_to!(whole->Object_0 => whole->Object_0[i as int]));
                    assert(decreases_to!(whole->Object_0[i as int] => whole->Object_0[i as int].1));
                }
                let key: &String = fields[i].0;
                let item: &Value = fields[i].1;
                out.push((key.clone(), from_value(item)));
                i += 1;
            }
            assert(out.deep_view() =~= all);
            Json::object(out)
        },
    }
}

/// Whether no key stands twice among `fields`.
fn keys_are_distinct(fields: &Vec<(String, Json)>) -> (r: bool)
    ensures
        r == keys_differ(fields.deep_view()),
{
    let ghost all = fields.deep_view();
    let mut j: usize = 0;
    while j < fields.len()
        invariant
            j <= fields.len(),
            all == fields.deep_view(),
            forall|a: int, b: int|
                0 <= a < b < j ==> (#[trigger] all[a]).0 != (#[trigger] all[b]).0,
        decreases fields.len() - j,
    {
        let mut i: usize = 0;
        while i < j
            invariant
                i <= j < fields.len(),
                all == fields.deep_view(),
                forall|a: int| 0 <= a < i ==> (#[trigger] all[a]).0 != all[j as int].0,
            decreases j - i,
        {
            if str_eq(fields[i].0.as_str(), fields[j].0.as_str()) {
                assert(all[i as int].0 == all[j as int].0);
                return false;
            }
            i += 1;
        }
        j += 1;
    }
    true
}

/// Builds the value tree of the JSON reader for `j`, level by level.
fn to_value(j: &Json, levels: usize) -> (r: Option<Value>)
    requires
        fits(j.deep_view(), levels as nat),
    ensures
        match written(j.deep_view()) {
            Some(w) => r is Some && json_of_value(r->0) == w,
            None => r is None,
        },
    decreases levels,
{
    match j {
        Json::Null => Some(build(Level::Null)),
        Json::Boolean(b) => Some(build(Level::Boolean(*b))),
        Json::Integer(i) => Some(build(Level::Integer(*i))),
        Json::Decimal(t) => match number_value(t.as_str()) {
            Some(v) => match peel(&v) {
                Peeled::Integer(_) => Some(v),
                Peeled::Decimal(_) => Some(v),
                _ => None,
            },
            None => None,
        },
        Json::Text(t) => Some(build(Level::Text(t.clone()))),
        Json::Array(items) => {
            let ghost all = j.deep_view()->Array_0;
            proof {
                lemma_items_fit(all, (levels - 1) as nat);
            }
            let mut out: Vec<Value> = Vec::new();
            let mut i: usize = 0;
            assert(all.take(0) =~= Seq::empty());
            assert(out@.map_values(|v: Value| json_of_value(v)) =~= Seq::empty());
            while i < items.len()
                invariant
                    i <= items.len(),
                    levels > 0,
                    j.deep_view() == JsonView::Array(all),
                    all.len() == items.len(),
                    forall|k: int|
                        0 <= k < items.len() ==> all[k] == (#[trigger] items[k]).deep_view(),
                    forall|k: int|
                        0 <= k < all.len() ==> fits(#[trigger] all[k], (levels - 1) as nat),
                    written_items(all.take(i as int)) == Some(
                        out@.map_values(|v: Value| json_of_value(v)),
                    ),
                decreases items.len() - i,
            {
                let ghost before = out@.map_values(|v: Value| json_of_value(v));
                assert(all.take(i + 1).drop_last() =~= all.take(i as int));
                assert(all.take(i + 1).last() == all[i as int]);
                match to_value(&items[i], levels - 1) {
                    Some(v) => {
                        out.push(v);
                        assert(out@.map_values(|v: Value| json_of_value(v)) =~= before.push(
                            json_of_value(v),
                        ));
                    },
                    None => {
                        proof {
                            lemma_written_items(all, i + 1);
                        }
                        return None;
                    },
                }
                i += 1;
            }
            assert(all.take(i as int) =~= all);
            Some(build(Level::Array(out)))
        },
        Json::Object(fields) => {
            let ghost all = j.deep_view()->Object_0;
            assert(all =~= fields.deep_view());
            if !keys_are_distinct(fields) {
                return None;
            }
            proof {
                lemma_fields_fit(all, (levels - 1) as nat);
            }
            let mut out: Vec<(String, Value)> = Vec::new();
            let mut i: usize = 0;
            assert(all.take(0) =~= Seq::empty());
            assert(out@.map_values(|f: (
                String,
                Value,
            )| (f.0@, json_of_value(f.1))) =~= Seq::empty());
            while i < fields.len()
                invariant
                    i <= fields.len(),
                    levels > 0,
                    j.deep_view() == JsonView::Object(all),
                    keys_differ(all),
                    all == fields.deep_view(),
                    forall|k: int|
                        0 <= k < all.len() ==> fits((#[trigger] all[k]).1, (levels - 1) as nat),
                    written_fields(all.take(i as int)) == Some(
                        out@.map_values(|f: (String, Value)| (f.0@, json_of_value(f.1))),
                    ),
                decreases fields.len() - i,
            {
                let ghost before = out@.map_values(|f: (String, Value)| (f.0@, json_of_value(f.1)));
                assert(all.take(i + 1).drop_last() =~= all.take(i as int));
                assert(all.take(i + 1).last() == all[i as int]);
                assert(all[i as int] == (fields[i as int].0@, fields[i as int].1.deep_view()));
                match to_value(&fields[i].1, levels - 1) {
                    Some(v) => {
                        out.push((fields[i].0.clone(), v));
                        assert(out@.map_values(|f: (String, Value)| (f.0@, json_of_value(f.1)))
                            =~= before.push((all[i as int].0, json_of_value(v))));
                    },
                    None => {
                        proof {
                            lemma_written_fields(all, i + 1);
                        }
                        return None;
                    },
                }
                i += 1;
            }
            assert(all.take(i as int) =~= all);
            proof {
                lemma_written_fields(all, 0);
                let ws = written_fields(all)->0;
                assert forall|a: int, b: int| 0 <= a < b < out.len() implies (#[trigger] out[a]).0@
                    != (#[trigger] out[b]).0@ by {
                    assert(ws[a].0 == all[a].0 && ws[b].0 == all[b].0);
                    assert(ws[a] == (out[a].0@, json_of_value(out[a].1)));
                    assert(ws[b] == (out[b].0@, json_of_value(out[b].1)));
                }
            }
            Some(build(Level::Object(out)))
        },
    }
}

impl Json {
    /// Reads `text` as one JSON value. Text that is no JSON, or nests deeper
    /// than the reader allows, gives a `Malformed` failure that carries the
    /// reader's message. Where an object of the text holds a key twice, the
    /// reader keeps the last entry only: a caller that must refuse such text
    /// reads it with every entry kept and hands the value to `from_json`.
    pub fn parse(text: &str) -> (r: Result<Json, ParseError>)
        ensures
            match parsed(text@) {
                Some(j) => r is Ok && r->Ok_0.deep_view() == j,
                None => r is Err && r->Err_0.kind == ErrorKind::Malformed && r->Err_0.entity
                    == Entity::Document && r->Err_0.field@.len() == 0,
            },
    {
        match text_to_value(text) {
            Ok(value) => Ok(from_value(&value)),
            Err(error) => Err(
                ParseError {
                    kind: ErrorKind::Malformed,
                    entity: Entity::Document,
                    field: String::new(),
                    detail: error_text(&error),
                },
            ),
        }
    }

    /// Writes the value as indented JSON text; `None` for a value that
    /// nests too deep, holds a `Decimal` that is no number, or holds a key
    /// twice in one object.
    pub fn render(&self) -> (r: Option<String>)
        ensures
            r.deep_view() == printed(self.deep_view()),
    {
        if !self.nests_within(MAX_LEVELS) {
            return None;
        }
        match to_value(self, MAX_LEVELS) {
            Some(value) => {
                proof {
                    lemma_written_fits(self.deep_view(), MAX_LEVELS as nat);
                }
                match value_to_text(&value) {
                    Ok(text) => Some(text),
                    Err(_) => None,
                }
            },
            None => None,
        }
    }
}

} // verus!
