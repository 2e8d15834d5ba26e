//! Partitions of a table and their sources.

use std::cmp::Ordering;
use vstd::prelude::*;
use crate::codec::{
    item_at, keys_distinct, lemma_first_unknown_none, lemma_items_round_trip, lemma_lookup_present,
    lemma_present_known, lemma_repeated_at, names, opt_item_at, opt_item_json, opt_list_at,
    opt_list_json, opt_text_at, opt_text_json, present, read_item, read_opt_item, read_opt_list,
    read_opt_text, read_text, refused_key, strict_fields_of, strict_object_of, text_at,
    write_opt_item, write_opt_list, write_opt_text, ObjectWriter, Wire,
};
use crate::error::{Entity, ParseError, ParseErrorView};
use crate::json::{lookup, Json, JsonView};
use crate::models::annotations::{Annotation, AnnotationView};
use crate::models::expression::{rendered, Expression, ExpressionView, Expressive};
use crate::models::traits::RecursiveSort;
use crate::sorting::{
    lemma_stable_sort_opt_fixpoint, lemma_stable_sort_opt_sorted, sort_opt, sorted_opt,
    stable_sort_opt, Ranked,
};
use crate::text::{
    folded, lemma_bytes_le_total, lemma_bytes_le_transitive, name_le, name_precedes, name_rank,
    ordering_of, rank_names, to_ordering,
};

verus! {

/// A partition of a table. Partitions are ordered by name, case ignored.
#[derive(Debug, PartialEq, Eq, Clone, Default)]
pub struct Partition {
    pub mode: Option<String>,
    pub name: String,
    pub data_view: Option<String>,
    pub source: Source,
    pub annotations: Option<Vec<Annotation>>,
}

/// The model of a [`Partition`].
pub struct PartitionView {
    pub mode: Option<Seq<char>>,
    pub name: Seq<char>,
    pub data_view: Option<Seq<char>>,
    pub source: SourceView,
    pub annotations: Option<Seq<AnnotationView>>,
}

impl DeepView for Partition {
    type V = PartitionView;

    open spec fn deep_view(&self) -> PartitionView {
        PartitionView {
            mode: self.mode.deep_view(),
            name: self.name@,
            data_view: self.data_view.deep_view(),
            source: self.source.deep_view(),
            annotations: self.annotations.deep_view(),
        }
    }
}

impl Partition {
    /// The keys of the record in written order, each with the value written
    /// under it, or `None` where the entry is left out.
    pub open spec fn entries(v: PartitionView) -> Seq<(Seq<char>, Option<JsonView>)> {
        seq![
            ("mode"@, opt_text_json(v.mode)),
            ("name"@, Some(JsonView::Text(v.name))),
            ("dataView"@, opt_text_json(v.data_view)),
            ("source"@, Some(Source::encode(v.source))),
            ("annotations"@, opt_list_json::<Annotation>(v.annotations)),
        ]
    }

    /// Each key of the record is read back with the value written under it,
    /// and no key is written that the record does not declare.
    pub proof fn lemma_entries(v: PartitionView)
        ensures
            lookup(present(Self::entries(v)), "mode"@) == Self::entries(v)[0].1,
            lookup(present(Self::entries(v)), "name"@) == Self::entries(v)[1].1,
            lookup(present(Self::entries(v)), "dataView"@) == Self::entries(v)[2].1,
            lookup(present(Self::entries(v)), "source"@) == Self::entries(v)[3].1,
            lookup(present(Self::entries(v)), "annotations"@) == Self::entries(v)[4].1,
            refused_key(
                present(Self::entries(v)),
                Entity::Partition,
                names(["mode", "name", "dataView", "source", "annotations"]),
            ) is None,
    {
        let table = Self::entries(v);
        reveal_strlit("mode");
        reveal_strlit("name");
        reveal_strlit("dataView");
        reveal_strlit("source");
        reveal_strlit("annotations");
        assert("mode"@.len() == 4);
        assert("name"@.len() == 4);
        assert("dataView"@.len() == 8);
        assert("source"@.len() == 6);
        assert("annotations"@.len() == 11);
        assert("mode"@[0] != "name"@[0]);
        assert(table.len() == 5);
        assert(keys_distinct(table));
        let allowed = names(["mode", "name", "dataView", "source", "annotations"]);
        assert forall|i: int| 0 <= i < table.len() implies allowed.contains(
            (#[trigger] table[i]).0,
        ) by {
            assert(allowed[i] == table[i].0);
        }
        lemma_present_known(table, allowed);
        lemma_lookup_present(table, 0);
        lemma_lookup_present(table, 1);
        lemma_lookup_present(table, 2);
        lemma_lookup_present(table, 3);
        lemma_lookup_present(table, 4);
    }
}

impl Wire for Partition {
    open spec fn decode(j: JsonView) -> Result<PartitionView, ParseErrorView> {
        match strict_object_of(
            j,
            Entity::Partition,
            names(["mode", "name", "dataView", "source", "annotations"]),
        ) {
            Err(e) => Err(e),
            Ok(fields) => {
                let mode = opt_text_at(fields, "mode"@, Entity::Partition);
                let name = text_at(fields, "name"@, Entity::Partition);
                let data_view = opt_text_at(fields, "dataView"@, Entity::Partition);
                let source = item_at::<Source>(fields, "source"@, Entity::Partition);
                let annotations = opt_list_at::<Annotation>(
                    fields,
                    "annotations"@,
                    Entity::Partition,
                );
                if mode is Err {
                    Err(mode->Err_0)
                } else if name is Err {
                    Err(name->Err_0)
                } else if data_view is Err {
                    Err(data_view->Err_0)
                } else if source is Err {
                    Err(source->Err_0)
                } else if annotations is Err {
                    Err(annotations->Err_0)
                } else {
                    Ok(
                        PartitionView {
                            mode: mode->Ok_0,
                            name: name->Ok_0,
                            data_view: data_view->Ok_0,
                            source: source->Ok_0,
                            annotations: annotations->Ok_0,
                        },
                    )
                }
            },
        }
    }

    open spec fn encode(v: PartitionView) -> JsonView {
        JsonView::Object(present(Self::entries(v)))
    }

    fn from_json(j: &Json) -> (r: Result<Partition, ParseError>) {
        let fields = strict_fields_of(
            j,
            Entity::Partition,
            &["mode", "name", "dataView", "source", "annotations"],
        )?;
        let mode = read_opt_text(fields, "mode", Entity::Partition)?;
        let name = read_text(fields, "name", Entity::Partition)?;
        let data_view = read_opt_text(fields, "dataView", Entity::Partition)?;
        let source = read_item::<Source>(fields, "source", Entity::Partition)?;
        let annotations = read_opt_list::<Annotation>(fields, "annotations", Entity::Partition)?;
        Ok(Partition { mode, name, data_view, source, annotations })
    }

    fn to_json(&self) -> (j: Json) {
        let w = ObjectWriter::new()
            .put_opt("mode", write_opt_text(&self.mode))
            .put("name", Json::text(self.name.as_str()))
            .put_opt("dataView", write_opt_text(&self.data_view))
            .put("source", self.source.to_json())
            .put_opt("annotations", write_opt_list(&self.annotations));
        assert(w.table() =~= Self::entries(self.deep_view()));
        w.finish()
    }

    open spec fn strict_keys() -> Option<Seq<Seq<char>>> {
        Some(names(["mode", "name", "dataView", "source", "annotations"]))
    }

    open spec fn declared_keys() -> Option<Seq<Seq<char>>> {
        Some(names(["mode", "name", "dataView", "source", "annotations"]))
    }

    proof fn lemma_refuses_unknown_key(fields: Seq<(Seq<char>, JsonView)>, i: int) {
        lemma_first_unknown_none(
            fields,
            names(["mode", "name", "dataView", "source", "annotations"]),
        );
    }

    proof fn lemma_refuses_repeated_key(fields: Seq<(Seq<char>, JsonView)>, i: int, j: int) {
        let declared = names(["mode", "name", "dataView", "source", "annotations"]);
        if declared.contains(fields[i].0) {
            lemma_repeated_at(fields, declared, i, j);
        }
    }

    proof fn lemma_round_trip(v: PartitionView) {
        Self::lemma_entries(v);
        let fields = present(Self::entries(v));
        let object = strict_object_of(
            Self::encode(v),
            Entity::Partition,
            names(["mode", "name", "dataView", "source", "annotations"]),
        );
        assert(object is Ok && object->Ok_0 == fields);
        let mode = opt_text_at(fields, "mode"@, Entity::Partition);
        let name = text_at(fields, "name"@, Entity::Partition);
        let data_view = opt_text_at(fields, "dataView"@, Entity::Partition);
        let source = item_at::<Source>(fields, "source"@, Entity::Partition);
        let annotations = opt_list_at::<Annotation>(fields, "annotations"@, Entity::Partition);
        assert(mode == Ok::<Option<Seq<char>>, ParseErrorView>(v.mode));
        assert(name == Ok::<Seq<char>, ParseErrorView>(v.name));
        assert(data_view == Ok::<Option<Seq<char>>, ParseErrorView>(v.data_view));
        assert(source == Ok::<SourceView, ParseErrorView>(v.source)) by {
            Source::lemma_round_trip(v.source);
        }
        assert(annotations == Ok::<Option<Seq<AnnotationView>>, ParseErrorView>(v.annotations)) by {
            if v.annotations is Some {
                lemma_items_round_trip::<Annotation>(v.annotations->0);
            }
        }
    }
}

impl Ranked for Partition {
    open spec fn ranks_le(a: PartitionView, b: PartitionView) -> bool {
        name_le(a.name, b.name)
    }

    fn precedes(&self, other: &Self) -> (r: bool) {
        name_precedes(self.name.as_str(), other.name.as_str())
    }

    proof fn lemma_ranks_total(a: PartitionView, b: PartitionView) {
        lemma_bytes_le_total(folded(a.name), folded(b.name));
    }

    proof fn lemma_ranks_transitive(a: PartitionView, b: PartitionView, c: PartitionView) {
        lemma_bytes_le_transitive(folded(a.name), folded(b.name), folded(c.name));
    }
}

impl Partition {
    /// How `self` stands to `other` in the order of names, case ignored.
    pub fn cmp(&self, other: &Self) -> (r: Ordering)
        ensures
            r == ordering_of(name_rank(self.name@, other.name@)),
    {
        to_ordering(rank_names(self.name.as_str(), other.name.as_str()))
    }
}

impl RecursiveSort for Partition {
    open spec fn canonical(v: PartitionView) -> PartitionView {
        PartitionView {
            annotations: stable_sort_opt::<Annotation>(v.annotations),
            ..v
        }
    }

    open spec fn is_canonical(v: PartitionView) -> bool {
        sorted_opt::<Annotation>(v.annotations)
    }

    /// Sorts the annotations.
    fn recursive_sort(&mut self) {
        sort_opt(&mut self.annotations);
    }

    proof fn lemma_canonical_sorted(v: PartitionView) {
        lemma_stable_sort_opt_sorted::<Annotation>(v.annotations);
    }

    proof fn lemma_canonical_fixpoint(v: PartitionView) {
        lemma_stable_sort_opt_fixpoint::<Annotation>(v.annotations);
    }
}

/// Where the rows of a partition come from.
#[derive(Debug, PartialEq, Eq, Clone, Default)]
pub struct Source {
    pub type_: String,
    pub expression: Option<Expression>,
}

/// The model of a [`Source`].
pub struct SourceView {
    pub type_: Seq<char>,
    pub expression: Option<ExpressionView>,
}

impl DeepView for Source {
    type V = SourceView;

    open spec fn deep_view(&self) -> SourceView {
        SourceView {
            type_: self.type_@,
            expression: self.expression.deep_view(),
        }
    }
}

impl Source {
    /// The keys of the record in written order, each with the value written
    /// under it, or `None` where the entry is left out.
    pub open spec fn entries(v: SourceView) -> Seq<(Seq<char>, Option<JsonView>)> {
        seq![
            ("type"@, Some(JsonView::Text(v.type_))),
            ("expression"@, opt_item_json::<Expression>(v.expression)),
        ]
    }

    /// Each key of the record is read back with the value written under it,
    /// and no key is written that the record does not declare.
    pub proof fn lemma_entries(v: SourceView)
        ensures
            lookup(present(Self::entries(v)), "type"@) == Self::entries(v)[0].1,
            lookup(present(Self::entries(v)), "expression"@) == Self::entries(v)[1].1,
            refused_key(
                present(Self::entries(v)),
                Entity::Source,
                names(["type", "expression"]),
            ) is None,
    {
        let table = Self::entries(v);
        reveal_strlit("type");
        reveal_strlit("expression");
        assert("type"@.len() == 4);
        assert("expression"@.len() == 10);
        assert(table.len() == 2);
        assert(keys_distinct(table));
        let allowed = names(["type", "expression"]);
        assert forall|i: int| 0 <= i < table.len() implies allowed.contains(
            (#[trigger] table[i]).0,
        ) by {
            assert(allowed[i] == table[i].0);
        }
        lemma_present_known(table, allowed);
        lemma_lookup_present(table, 0);
        lemma_lookup_present(table, 1);
    }
}

impl Wire for Source {
    open spec fn decode(j: JsonView) -> Result<SourceView, ParseErrorView> {
        match strict_object_of(j, Entity::Source, names(["type", "expression"])) {
            Err(e) => Err(e),
            Ok(fields) => {
                let type_ = text_at(fields, "type"@, Entity::Source);
                let expression = opt_item_at::<Expression>(fields, "expression"@);
                if type_ is Err {
                    Err(type_->Err_0)
                } else if expression is Err {
                    Err(expression->Err_0)
                } else {
                    Ok(
                        SourceView {
                            type_: type_->Ok_0,
                            expression: expression->Ok_0,
                        },
                    )
                }
            },
        }
    }

    open spec fn encode(v: SourceView) -> JsonView {
        JsonView::Object(present(Self::entries(v)))
    }

    fn from_json(j: &Json) -> (r: Result<Source, ParseError>) {
        let fields = strict_fields_of(j, Entity::Source, &["type", "expression"])?;
        let type_ = read_text(fields, "type", Entity::Source)?;
        let expression = read_opt_item::<Expression>(fields, "expression")?;
        Ok(Source { type_, expression })
    }

    fn to_json(&self) -> (j: Json) {
        let w = ObjectWriter::new()
            .put("type", Json::text(self.type_.as_str()))
            .put_opt("expression", write_opt_item(&self.expression));
        assert(w.table() =~= Self::entries(self.deep_view()));
        w.finish()
    }

    open spec fn strict_keys() -> Option<Seq<Seq<char>>> {
        Some(names(["type", "expression"]))
    }

    open spec fn declared_keys() -> Option<Seq<Seq<char>>> {
        Some(names(["type", "expression"]))
    }

    proof fn lemma_refuses_unknown_key(fields: Seq<(Seq<char>, JsonView)>, i: int) {
        lemma_first_unknown_none(fields, names(["type", "expression"]));
    }

    proof fn lemma_refuses_repeated_key(fields: Seq<(Seq<char>, JsonView)>, i: int, j: int) {
        let declared = names(["type", "expression"]);
        if declared.contains(fields[i].0) {
            lemma_repeated_at(fields, declared, i, j);
        }
    }

    proof fn lemma_round_trip(v: SourceView) {
        Self::lemma_entries(v);
        let fields = present(Self::entries(v));
        let object = strict_object_of(
            Self::encode(v),
            Entity::Source,
            names(["type", "expression"]),
        );
        assert(object is Ok && object->Ok_0 == fields);
        let type_ = text_at(fields, "type"@, Entity::Source);
        let expression = opt_item_at::<Expression>(fields, "expression"@);
        assert(type_ == Ok::<Seq<char>, ParseErrorView>(v.type_));
        assert(expression == Ok::<Option<ExpressionView>, ParseErrorView>(v.expression)) by {
            if v.expression is Some {
                Expression::lemma_round_trip(v.expression->0);
            }
        }
    }
}

impl Expressive for Source {
    open spec fn expression_text(v: SourceView) -> Option<Seq<char>> {
        match v.expression {
            Some(e) => Some(rendered(e)),
            None => None,
        }
    }

    fn expression(&self) -> (r: Option<String>) {
        match &self.expression {
            Some(e) => Some(e.to_string()),
            None => None,
        }
    }
}

} // verus!
