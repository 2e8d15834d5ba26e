//! A plain JSON value tree and its mathematical model.

pub mod text;

pub use text::{parsed, printed};

use vstd::prelude::*;

verus! {

/// A JSON value. Objects keep their entries in document order.
#[derive(Debug, PartialEq, Eq)]
pub enum Json {
    Null,
    Boolean(bool),
    /// A number that fits `i64`.
    Integer(i64),
    /// Any other number, as its decimal text.
    Decimal(String),
    Text(String),
    Array(Vec<Json>),
    Object(Vec<(String, Json)>),
}

/// The model of a [`Json`] value.
pub enum JsonView {
    Null,
    Boolean(bool),
    Integer(i64),
    Decimal(Seq<char>),
    Text(Seq<char>),
    Array(Seq<JsonView>),
    Object(Seq<(Seq<char>, JsonView)>),
}

/// The model of `j`.
pub open spec fn json_view(j: Json) -> JsonView
    decreases j,
{
    match j {
        Json::Null => JsonView::Null,
        Json::Boolean(b) => JsonView::Boolean(b),
        Json::Integer(i) => JsonView::Integer(i),
        Json::Decimal(t) => JsonView::Decimal(t@),
        Json::Text(t) => JsonView::Text(t@),
        Json::Array(items) => JsonView::Array(
            Seq::new(
                items@.len(),
                |i: int|
                    if 0 <= i < items@.len() {
                        json_view(items@[i])
                    } else {
                        JsonView::Null
                    },
            ),
        ),
        Json::Object(fields) => JsonView::Object(
            Seq::new(
                fields@.len(),
                |i: int|
                    if 0 <= i < fields@.len() {
                        (fields@[i].0@, json_view(fields@[i].1))
                    } else {
                        (Seq::empty(), JsonView::Null)
                    },
            ),
        ),
    }
}

impl DeepView for Json {
    type V = JsonView;

    open spec fn deep_view(&self) -> JsonView {
        json_view(*self)
    }
}

/// The value stored under `key`: that of the last entry with this key.
pub open spec fn lookup(fields: Seq<(Seq<char>, JsonView)>, key: Seq<char>) -> Option<JsonView>
    decreases fields.len(),
{
    if fields.len() == 0 {
        None
    } else if fields.last().0 == key {
        Some(fields.last().1)
    } else {
        lookup(fields.drop_last(), key)
    }
}

/// The number of levels of nesting up to which a value is written: a value
/// that is no array and no object has one level, an array or object one more
/// than the deepest value in it.
pub const MAX_LEVELS: usize = 128;

/// Whether `j` has at most `levels` levels of nesting.
pub open spec fn fits(j: JsonView, levels: nat) -> bool
    decreases levels, 0nat,
{
    if levels == 0 {
        false
    } else {
        match j {
            JsonView::Array(items) => items_fit(items, (levels - 1) as nat),
            JsonView::Object(fields) => fields_fit(fields, (levels - 1) as nat),
            _ => true,
        }
    }
}

/// Whether each of `items` has at most `levels` levels of nesting.
pub open spec fn items_fit(items: Seq<JsonView>, levels: nat) -> bool
    decreases levels, items.len() + 1,
{
    items.len() == 0 || (items_fit(items.drop_last(), levels) && fits(items.last(), levels))
}

/// Whether the value of each of `fields` has at most `levels` levels of
/// nesting.
pub open spec fn fields_fit(fields: Seq<(Seq<char>, JsonView)>, levels: nat) -> bool
    decreases levels, fields.len() + 1,
{
    fields.len() == 0 || (fields_fit(fields.drop_last(), levels) && fits(fields.last().1, levels))
}

/// Items fit together exactly when each of them fits.
pub proof fn lemma_items_fit(items: Seq<JsonView>, levels: nat)
    ensures
        items_fit(items, levels) <==> forall|i: int|
            0 <= i < items.len() ==> fits(#[trigger] items[i], levels),
    decreases items.len(),
{
    if items.len() > 0 {
        let head = items.drop_last();
        lemma_items_fit(head, levels);
        if items_fit(items, levels) {
            assert forall|i: int| 0 <= i < items.len() implies fits(
                #[trigger] items[i],
                levels,
            ) by {
                if i < head.len() {
                    assert(head[i] == items[i]);
                }
            }
        } else if fits(items.last(), levels) {
            let i = choose|i: int| 0 <= i < head.len() && !fits(#[trigger] head[i], levels);
            assert(head[i] == items[i]);
        } else {
            assert(items.last() == items[items.len() - 1]);
        }
    }
}

/// Fields fit together exactly when the value of each of them fits.
pub proof fn lemma_fields_fit(fields: Seq<(Seq<char>, JsonView)>, levels: nat)
    ensures
        fields_fit(fields, levels) <==> forall|i: int|
            0 <= i < fields.len() ==> fits((#[trigger] fields[i]).1, levels),
    decreases fields.len(),
{
    if fields.len() > 0 {
        let head = fields.drop_last();
        lemma_fields_fit(head, levels);
        if fields_fit(fields, levels) {
            assert forall|i: int| 0 <= i < fields.len() implies fits(
                (#[trigger] fields[i]).1,
                levels,
            ) by {
                if i < head.len() {
                    assert(head[i] == fields[i]);
                }
            }
        } else if fits(fields.last().1, levels) {
            let i = choose|i: int| 0 <= i < head.len() && !fits((#[trigger] head[i]).1, levels);
            assert(head[i] == fields[i]);
        } else {
            assert(fields.last() == fields[fields.len() - 1]);
        }
    }
}

impl Json {
    /// Whether the value has at most `levels` levels of nesting.
    pub fn nests_within(&self, levels: usize) -> (r: bool)
        ensures
            r == fits(self.deep_view(), levels as nat),
        decreases levels,
    {
        if levels == 0 {
            return false;
        }
        match self {
            Json::Array(items) => {
                let ghost all = self.deep_view()->Array_0;
                proof {
                    lemma_items_fit(all, (levels - 1) as nat);
                }
                let mut i: usize = 0;
                while i < items.len()
                    invariant
                        i <= items.len(),
                        levels > 0,
                        all.len() == items.len(),
                        forall|k: int|
                            0 <= k < items.len() ==> all[k] == (#[trigger] items[k]).deep_view(),
                        forall|k: int| 0 <= k < i ==> fits(#[trigger] all[k], (levels - 1) as nat),
                        self.deep_view() == JsonView::Array(all),
                        items_fit(all, (levels - 1) as nat) <==> forall|k: int|
                            0 <= k < all.len() ==> fits(#[trigger] all[k], (levels - 1) as nat),
                    decreases items.len() - i,
                {
                    if !items[i].nests_within(levels - 1) {
                        assert(!fits(all[i as int], (levels - 1) as nat));
                        return false;
                    }
                    i += 1;
                }
                true
            },
            Json::Object(fields) => {
                let ghost all = self.deep_view()->Object_0;
                proof {
                    lemma_fields_fit(all, (levels - 1) as nat);
                }
                let mut i: usize = 0;
                while i < fields.len()
                    invariant
                        i <= fields.len(),
                        levels > 0,
                        all.len() == fields.len(),
                        forall|k: int|
                            0 <= k < fields.len() ==> all[k].1 == (
                            #[trigger] fields[k]).1.deep_view(),
                        forall|k: int| 0 <= k < i ==> fits(
                            (#[trigger] all[k]).1,
                            (levels - 1) as nat,
                        ),
                        self.deep_view() == JsonView::Object(all),
                        fields_fit(all, (levels - 1) as nat) <==> forall|k: int|
                            0 <= k < all.len() ==> fits((#[trigger] all[k]).1, (levels - 1) as nat),
                    decreases fields.len() - i,
                {
                    if !fields[i].1.nests_within(levels - 1) {
                        assert(!fits(all[i as int].1, (levels - 1) as nat));
                        return false;
                    }
                    i += 1;
                }
                true
            },
            _ => true,
        }
    }

    /// The entries of an object; `None` for any other value.
    pub fn as_object(&self) -> (r: Option<&Vec<(String, Json)>>)
        ensures
            match self.deep_view() {
                JsonView::Object(fields) => r is Some && r->0.deep_view() == fields,
                _ => r is None,
            },
    {
        match self {
            Json::Object(fields) => {
                assert(fields.deep_view() =~= self.deep_view()->Object_0);
                Some(fields)
            },
            _ => None,
        }
    }

    /// The items of an array; `None` for any other value.
    pub fn as_array(&self) -> (r: Option<&Vec<Json>>)
        ensures
            match self.deep_view() {
                JsonView::Array(items) => r is Some && r->0.deep_view() == items,
                _ => r is None,
            },
    {
        match self {
            Json::Array(items) => {
                assert(items.deep_view() =~= self.deep_view()->Array_0);
                Some(items)
            },
            _ => None,
        }
    }

    /// The characters of a string; `None` for any other value.
    pub fn as_text(&self) -> (r: Option<&String>)
        ensures
            match self.deep_view() {
                JsonView::Text(t) => r is Some && r->0@ == t,
                _ => r is None,
            },
    {
        match self {
            Json::Text(t) => Some(t),
            _ => None,
        }
    }

    /// The value of a boolean; `None` for any other value.
    pub fn as_boolean(&self) -> (r: Option<bool>)
        ensures
            match self.deep_view() {
                JsonView::Boolean(b) => r == Some(b),
                _ => r is None,
            },
    {
        match self {
            Json::Boolean(b) => Some(*b),
            _ => None,
        }
    }

    /// The value of an integer; `None` for any other value.
    pub fn as_integer(&self) -> (r: Option<i64>)
        ensures
            match self.deep_view() {
                JsonView::Integer(i) => r == Some(i),
                _ => r is None,
            },
    {
        match self {
            Json::Integer(i) => Some(*i),
            _ => None,
        }
    }

    /// Whether the value is `null`.
    pub fn is_null(&self) -> (r: bool)
        ensures
            r == (self.deep_view() is Null),
    {
        match self {
            Json::Null => true,
            _ => false,
        }
    }

    /// The array that holds `items`.
    pub fn array(items: Vec<Json>) -> (j: Json)
        ensures
            j.deep_view() == JsonView::Array(items.deep_view()),
    {
        let j = Json::Array(items);
        assert(j.deep_view()->Array_0 =~= items.deep_view());
        j
    }

    /// The object that holds `fields`.
    pub fn object(fields: Vec<(String, Json)>) -> (j: Json)
        ensures
            j.deep_view() == JsonView::Object(fields.deep_view()),
    {
        let j = Json::Object(fields);
        assert(j.deep_view()->Object_0 =~= fields.deep_view());
        j
    }

    /// The string that holds the characters of `t`.
    pub fn text(t: &str) -> (j: Json)
        ensures
            j.deep_view() == JsonView::Text(t@),
    {
        Json::Text(t.to_owned())
    }
}

} // verus!
