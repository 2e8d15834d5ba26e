//! Formula text, written as one string or as a list of lines.

use std::cmp::Ordering;
use vstd::prelude::*;
use vstd::std_specs::cmp::PartialEqSpecImpl;
use crate::codec::{
    item_at, keys_distinct, lemma_first_unknown_none, lemma_lookup_present, lemma_present_known,
    lemma_repeated_at, names, present, read_item, read_text, refused_key, strict_fields_of,
    strict_object_of, text_at, ObjectWriter, Wire,
};
use crate::error::{failure, Entity, ErrorKind, ParseError, ParseErrorView};
use crate::json::{lookup, Json, JsonView};
use crate::sorting::Ranked;
use crate::text::{
    folded, lemma_bytes_le_total, lemma_bytes_le_transitive, name_le, name_precedes, name_rank,
    ordering_of, rank_names, to_ordering,
};

verus! {

/// Formula text. Two expressions are equal when they render to the same
/// text, whichever form they have.
#[derive(Debug, Eq, Clone)]
pub enum Expression {
    /// The lines of the text.
    Vec(Vec<String>),
    /// The whole text.
    String(String),
}

/// The model of an [`Expression`].
pub enum ExpressionView {
    Vec(Seq<Seq<char>>),
    String(Seq<char>),
}

impl DeepView for Expression {
    type V = ExpressionView;

    open spec fn deep_view(&self) -> ExpressionView {
        match self {
            Expression::Vec(lines) => ExpressionView::Vec(lines.deep_view()),
            Expression::String(text) => ExpressionView::String(text@),
        }
    }
}

/// The lines joined by line feeds.
pub open spec fn joined(lines: Seq<Seq<char>>) -> Seq<char>
    decreases lines.len(),
{
    if lines.len() == 0 {
        Seq::empty()
    } else if lines.len() == 1 {
        lines[0]
    } else {
        joined(lines.drop_last()) + seq!['\n'] + lines.last()
    }
}

/// The text that an expression stands for.
pub open spec fn rendered(v: ExpressionView) -> Seq<char> {
    match v {
        ExpressionView::Vec(lines) => joined(lines),
        ExpressionView::String(text) => text,
    }
}

impl Expression {
    /// The text that the expression stands for: its lines joined by line
    /// feeds, or the string itself.
    pub fn to_string(&self) -> (r: String)
        ensures
            r@ == rendered(self.deep_view()),
    {
        match self {
            Expression::Vec(lines) => {
                let ghost all = lines.deep_view();
                let mut out = String::new();
                let mut i: usize = 0;
                assert(all.take(0) =~= Seq::empty());
                while i < lines.len()
                    invariant
                        i <= lines.len(),
                        all == lines.deep_view(),
                        out@ == joined(all.take(i as int)),
                    decreases lines.len() - i,
                {
                    proof {
                        reveal_strlit("\n");
                        assert("\n"@ =~= seq!['\n']);
                        assert(all.take(i + 1).drop_last() =~= all.take(i as int));
                        assert(all.take(i + 1).last() == lines[i as int]@);
                        if i == 0 {
                            assert(out@ + lines[0]@ =~= lines[0]@);
                            assert(all.take(1)[0] == lines[0]@);
                        }
                    }
                    if i > 0 {
                        out.append("\n");
                    }
                    out.append(lines[i].as_str());
                    i += 1;
                }
                assert(all.take(i as int) =~= all);
                out
            },
            Expression::String(text) => text.clone(),
        }
    }
}

impl PartialEq for Expression {
    fn eq(&self, other: &Self) -> (r: bool) {
        self.to_string() == other.to_string()
    }
}

impl PartialEqSpecImpl for Expression {
    open spec fn obeys_eq_spec() -> bool {
        true
    }

    open spec fn eq_spec(&self, other: &Self) -> bool {
        rendered(self.deep_view()) == rendered(other.deep_view())
    }
}

/// Whether every one of `items` is a string.
pub open spec fn all_text(items: Seq<JsonView>) -> bool {
    forall|i: int| 0 <= i < items.len() ==> #[trigger] items[i] is Text
}

impl Wire for Expression {
    open spec fn decode(j: JsonView) -> Result<ExpressionView, ParseErrorView> {
        match j {
            JsonView::Array(items) if all_text(items) => Ok(
                ExpressionView::Vec(items.map_values(|item: JsonView| item->Text_0)),
            ),
            JsonView::Text(text) => Ok(ExpressionView::String(text)),
            _ => Err(failure(ErrorKind::VariantMismatch, Entity::Expression, Seq::empty())),
        }
    }

    open spec fn encode(v: ExpressionView) -> JsonView {
        match v {
            ExpressionView::Vec(lines) => JsonView::Array(
                lines.map_values(|line: Seq<char>| JsonView::Text(line)),
            ),
            ExpressionView::String(text) => JsonView::Text(text),
        }
    }

    fn from_json(j: &Json) -> (r: Result<Expression, ParseError>) {
        proof {
            reveal_strlit("");
            assert(""@ =~= Seq::empty());
        }
        match j {
            Json::Array(_) => {
                let items = j.as_array().unwrap();
                let mut lines: Vec<String> = Vec::new();
                let mut i: usize = 0;
                while i < items.len()
                    invariant
                        i <= items.len(),
                        lines.len() == i,
                        j.deep_view() == JsonView::Array(items.deep_view()),
                        forall|k: int| 0 <= k < i ==> (#[trigger] items.deep_view()[k]) is Text,
                        forall|k: int|
                            0 <= k < i ==> (#[trigger] lines[k])@ == items.deep_view()[k]->Text_0,
                    decreases items.len() - i,
                {
                    match items[i].as_text() {
                        Some(line) => {
                            lines.push(line.clone());
                        },
                        None => {
                            proof {
                                reveal_strlit("");
                                assert(""@ =~= Seq::empty());
                                assert(!(items.deep_view()[i as int] is Text));
                            }
                            return Err(
                                ParseError::new(ErrorKind::VariantMismatch, Entity::Expression, ""),
                            );
                        },
                    }
                    i += 1;
                }
                assert(lines.deep_view() =~= items.deep_view().map_values(
                    |item: JsonView| item->Text_0,
                ));
                Ok(Expression::Vec(lines))
            },
            Json::Text(text) => Ok(Expression::String(text.clone())),
            _ => Err(ParseError::new(ErrorKind::VariantMismatch, Entity::Expression, "")),
        }
    }

    fn to_json(&self) -> (j: Json) {
        match self {
            Expression::Vec(lines) => {
                let mut items: Vec<Json> = Vec::new();
                let mut i: usize = 0;
                while i < lines.len()
                    invariant
                        i <= lines.len(),
                        items.len() == i,
                        forall|k: int|
                            0 <= k < i ==> (#[trigger] items[k]).deep_view() == JsonView::Text(
                                lines[k]@,
                            ),
                    decreases lines.len() - i,
                {
                    items.push(Json::Text(lines[i].clone()));
                    i += 1;
                }
                assert(items.deep_view() =~= lines.deep_view().map_values(
                    |line: Seq<char>| JsonView::Text(line),
                ));
                Json::array(items)
            },
            Expression::String(text) => Json::Text(text.clone()),
        }
    }

    open spec fn strict_keys() -> Option<Seq<Seq<char>>> {
        None
    }

    open spec fn declared_keys() -> Option<Seq<Seq<char>>> {
        None
    }

    proof fn lemma_refuses_unknown_key(fields: Seq<(Seq<char>, JsonView)>, i: int) {
    }

    proof fn lemma_refuses_repeated_key(fields: Seq<(Seq<char>, JsonView)>, i: int, j: int) {
    }

    proof fn lemma_round_trip(v: ExpressionView) {
        match v {
            ExpressionView::Vec(lines) => {
                let items = lines.map_values(|line: Seq<char>| JsonView::Text(line));
                assert(all_text(items));
                assert(items.map_values(|item: JsonView| item->Text_0) =~= lines);
            },
            ExpressionView::String(_) => {},
        }
    }
}

/// A record that may carry formula text.
pub trait Expressive: DeepView {
    /// The text of the record's expression, if it has one.
    spec fn expression_text(v: <Self as DeepView>::V) -> Option<Seq<char>>;

    /// The text of the record's expression, if it has one.
    fn expression(&self) -> (r: Option<String>)
        ensures
            r.deep_view() == Self::expression_text(self.deep_view()),
    ;
}

/// A named expression of the model. Model expressions are ordered by name,
/// case ignored.
#[derive(Debug, PartialEq, Eq, Clone)]
pub struct ModelExpression {
    pub name: String,
    pub kind: String,
    pub expression: Expression,
}

/// The model of a [`ModelExpression`].
pub struct ModelExpressionView {
    pub name: Seq<char>,
    pub kind: Seq<char>,
    pub expression: ExpressionView,
}

impl DeepView for ModelExpression {
    type V = ModelExpressionView;

    open spec fn deep_view(&self) -> ModelExpressionView {
        ModelExpressionView {
            name: self.name@,
            kind: self.kind@,
            expression: self.expression.deep_view(),
        }
    }
}

impl ModelExpression {
    /// The keys of the record in written order, each with the value written
    /// under it, or `None` where the entry is left out.
    pub open spec fn entries(v: ModelExpressionView) -> Seq<(Seq<char>, Option<JsonView>)> {
        seq![
            ("name"@, Some(JsonView::Text(v.name))),
            ("kind"@, Some(JsonView::Text(v.kind))),
            ("expression"@, Some(Expression::encode(v.expression))),
        ]
    }

    /// Each key of the record is read back with the value written under it,
    /// and no key is written that the record does not declare.
    pub proof fn lemma_entries(v: ModelExpressionView)
        ensures
            lookup(present(Self::entries(v)), "name"@) == Self::entries(v)[0].1,
            lookup(present(Self::entries(v)), "kind"@) == Self::entries(v)[1].1,
            lookup(present(Self::entries(v)), "expression"@) == Self::entries(v)[2].1,
            refused_key(
                present(Self::entries(v)),
                Entity::ModelExpression,
                names(["name", "kind", "expression"]),
            ) is None,
    {
        let table = Self::entries(v);
        reveal_strlit("name");
        reveal_strlit("kind");
        reveal_strlit("expression");
        assert("name"@.len() == 4);
        assert("kind"@.len() == 4);
        assert("expression"@.len() == 10);
        assert("name"@[0] != "kind"@[0]);
        assert(table.len() == 3);
        assert(keys_distinct(table));
        let allowed = names(["name", "kind", "expression"]);
        assert forall|i: int| 0 <= i < table.len() implies allowed.contains(
            (#[trigger] table[i]).0,
        ) by {
            assert(allowed[i] == table[i].0);
        }
        lemma_present_known(table, allowed);
        lemma_lookup_present(table, 0);
        lemma_lookup_present(table, 1);
        lemma_lookup_present(table, 2);
    }
}

impl Wire for ModelExpression {
    open spec fn decode(j: JsonView) -> Result<ModelExpressionView, ParseErrorView> {
        match strict_object_of(j, Entity::ModelExpression, names(["name", "kind", "expression"])) {
            Err(e) => Err(e),
            Ok(fields) => {
                let name = text_at(fields, "name"@, Entity::ModelExpression);
                let kind = text_at(fields, "kind"@, Entity::ModelExpression);
                let expression = item_at::<Expression>(
                    fields,
                    "expression"@,
                    Entity::ModelExpression,
                );
                if name is Err {
                    Err(name->Err_0)
                } else if kind is Err {
                    Err(kind->Err_0)
                } else if expression is Err {
                    Err(expression->Err_0)
                } else {
                    Ok(
                        ModelExpressionView {
                            name: name->Ok_0,
                            kind: kind->Ok_0,
                            expression: expression->Ok_0,
                        },
                    )
                }
            },
        }
    }

    open spec fn encode(v: ModelExpressionView) -> JsonView {
        JsonView::Object(present(Self::entries(v)))
    }

    fn from_json(j: &Json) -> (r: Result<ModelExpression, ParseError>) {
        let fields = strict_fields_of(j, Entity::ModelExpression, &["name", "kind", "expression"])?;
        let name = read_text(fields, "name", Entity::ModelExpression)?;
        let kind = read_text(fields, "kind", Entity::ModelExpression)?;
        let expression = read_item::<Expression>(fields, "expression", Entity::ModelExpression)?;
        Ok(ModelExpression { name, kind, expression })
    }

    fn to_json(&self) -> (j: Json) {
        let w = ObjectWriter::new()
            .put("name", Json::text(self.name.as_str()))
            .put("kind", Json::text(self.kind.as_str()))
            .put("expression", self.expression.to_json());
        assert(w.table() =~= Self::entries(self.deep_view()));
        w.finish()
    }

    open spec fn strict_keys() -> Option<Seq<Seq<char>>> {
        Some(names(["name", "kind", "expression"]))
    }

    open spec fn declared_keys() -> Option<Seq<Seq<char>>> {
        Some(names(["name", "kind", "expression"]))
    }

    proof fn lemma_refuses_unknown_key(fields: Seq<(Seq<char>, JsonView)>, i: int) {
        lemma_first_unknown_none(fields, names(["name", "kind", "expression"]));
    }

    proof fn lemma_refuses_repeated_key(fields: Seq<(Seq<char>, JsonView)>, i: int, j: int) {
        let declared = names(["name", "kind", "expression"]);
        if declared.contains(fields[i].0) {
            lemma_repeated_at(fields, declared, i, j);
        }
    }

    proof fn lemma_round_trip(v: ModelExpressionView) {
        Self::lemma_entries(v);
        let fields = present(Self::entries(v));
        let object = strict_object_of(
            Self::encode(v),
            Entity::ModelExpression,
            names(["name", "kind", "expression"]),
        );
        assert(object is Ok && object->Ok_0 == fields);
        let name = text_at(fields, "name"@, Entity::ModelExpression);
        let kind = text_at(fields, "kind"@, Entity::ModelExpression);
        let expression = item_at::<Expression>(fields, "expression"@, Entity::ModelExpression);
        assert(name == Ok::<Seq<char>, ParseErrorView>(v.name));
        assert(kind == Ok::<Seq<char>, ParseErrorView>(v.kind));
        assert(expression == Ok::<ExpressionView, ParseErrorView>(v.expression)) by {
            Expression::lemma_round_trip(v.expression);
        }
    }
}

impl Ranked for ModelExpression {
    open spec fn ranks_le(a: ModelExpressionView, b: ModelExpressionView) -> bool {
        name_le(a.name, b.name)
    }

    fn precedes(&self, other: &Self) -> (r: bool) {
        name_precedes(self.name.as_str(), other.name.as_str())
    }

    proof fn lemma_ranks_total(a: ModelExpressionView, b: ModelExpressionView) {
        lemma_bytes_le_total(folded(a.name), folded(b.name));
    }

    proof fn lemma_ranks_transitive(
        a: ModelExpressionView,
        b: ModelExpressionView,
        c: ModelExpressionView,
    ) {
        lemma_bytes_le_transitive(folded(a.name), folded(b.name), folded(c.name));
    }
}

impl ModelExpression {
    /// How `self` stands to `other` in the order of names, case ignored.
    pub fn cmp(&self, other: &Self) -> (r: Ordering)
        ensures
            r == ordering_of(name_rank(self.name@, other.name@)),
    {
        to_ordering(rank_names(self.name.as_str(), other.name.as_str()))
    }
}

impl Expressive for ModelExpression {
    open spec fn expression_text(v: ModelExpressionView) -> Option<Seq<char>> {
        Some(rendered(v.expression))
    }

    fn expression(&self) -> (r: Option<String>) {
        Some(self.expression.to_string())
    }
}

} // verus!
