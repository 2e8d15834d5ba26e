//! Measures and their key performance indicators.

use std::cmp::Ordering;
use vstd::prelude::*;
use crate::codec::{
    item_at, keys_distinct, lemma_first_unknown_none, lemma_items_round_trip, lemma_lookup_present,
    lemma_present_known, lemma_repeated_at, names, opt_item_at, opt_item_json, opt_list_at,
    opt_list_json, opt_text_at, opt_text_json, present, read_item, read_opt_item, read_opt_list,
    read_opt_text, read_text, refused_key, strict_fields_of, strict_object_of, text_at,
    write_opt_item, write_opt_list, write_opt_text, ObjectWriter, Wire,
};
use crate::error::{Entity, ParseError, ParseErrorView};
use crate::json::{lookup, Json, JsonView};
use crate::models::annotations::{Annotation, AnnotationView};
use crate::models::expression::{rendered, Expression, ExpressionView, Expressive};
use crate::models::traits::RecursiveSort;
use crate::sorting::{
    lemma_stable_sort_opt_fixpoint, lemma_stable_sort_opt_sorted, sort_opt, sorted_opt,
    stable_sort_opt, Ranked,
};
use crate::text::{
    folded, lemma_bytes_le_total, lemma_bytes_le_transitive, name_le, name_precedes, name_rank,
    ordering_of, rank_names, to_ordering,
};

verus! {

/// A measure of a table. Measures are ordered by name, case ignored.
#[derive(Debug, PartialEq, Eq, Clone)]
pub struct Measure {
    pub name: String,
    pub description: Option<String>,
    pub expression: Expression,
    pub format_string: Option<String>,
    pub display_folder: Option<String>,
    pub annotations: Option<Vec<Annotation>>,
    pub kpi: Option<Kpi>,
}

/// The model of a [`Measure`].
pub struct MeasureView {
    pub name: Seq<char>,
    pub description: Option<Seq<char>>,
    pub expression: ExpressionView,
    pub format_string: Option<Seq<char>>,
    pub display_folder: Option<Seq<char>>,
    pub annotations: Option<Seq<AnnotationView>>,
    pub kpi: Option<KpiView>,
}

impl DeepView for Measure {
    type V = MeasureView;

    open spec fn deep_view(&self) -> MeasureView {
        MeasureView {
            name: self.name@,
            description: self.description.deep_view(),
            expression: self.expression.deep_view(),
            format_string: self.format_string.deep_view(),
            display_folder: self.display_folder.deep_view(),
            annotations: self.annotations.deep_view(),
            kpi: self.kpi.deep_view(),
        }
    }
}

impl Measure {
    /// The keys of the record in written order, each with the value written
    /// under it, or `None` where the entry is left out.
    pub open spec fn entries(v: MeasureView) -> Seq<(Seq<char>, Option<JsonView>)> {
        seq![
            ("name"@, Some(JsonView::Text(v.name))),
            ("description"@, opt_text_json(v.description)),
            ("expression"@, Some(Expression::encode(v.expression))),
            ("formatString"@, opt_text_json(v.format_string)),
            ("displayFolder"@, opt_text_json(v.display_folder)),
            ("annotations"@, opt_list_json::<Annotation>(v.annotations)),
            ("kpi"@, opt_item_json::<Kpi>(v.kpi)),
        ]
    }

    /// Each key of the record is read back with the value written under it,
    /// and no key is written that the record does not declare.
    pub proof fn lemma_entries(v: MeasureView)
        ensures
            lookup(present(Self::entries(v)), "name"@) == Self::entries(v)[0].1,
            lookup(present(Self::entries(v)), "description"@) == Self::entries(v)[1].1,
            lookup(present(Self::entries(v)), "expression"@) == Self::entries(v)[2].1,
            lookup(present(Self::entries(v)), "formatString"@) == Self::entries(v)[3].1,
            lookup(present(Self::entries(v)), "displayFolder"@) == Self::entries(v)[4].1,
            lookup(present(Self::entries(v)), "annotations"@) == Self::entries(v)[5].1,
            lookup(present(Self::entries(v)), "kpi"@) == Self::entries(v)[6].1,
            refused_key(
                present(Self::entries(v)),
                Entity::Measure,
                names([
                    "name", "description", "expression", "formatString", "displayFolder",
                    "annotations", "kpi",
                ]),
            ) is None,
    {
        let table = Self::entries(v);
        reveal_strlit("name");
        reveal_strlit("description");
        reveal_strlit("expression");
        reveal_strlit("formatString");
        reveal_strlit("displayFolder");
        reveal_strlit("annotations");
        reveal_strlit("kpi");
        assert("name"@.len() == 4);
        assert("description"@.len() == 11);
        assert("expression"@.len() == 10);
        assert("formatString"@.len() == 12);
        assert("displayFolder"@.len() == 13);
        assert("annotations"@.len() == 11);
        assert("kpi"@.len() == 3);
        assert("description"@[0] != "annotations"@[0]);
        assert(table.len() == 7);
        assert(keys_distinct(table));
        let allowed = names(
            [
                "name", "description", "expression", "formatString", "displayFolder",
                "annotations", "kpi",
            ],
        );
        assert forall|i: int| 0 <= i < table.len() implies allowed.contains(
            (#[trigger] table[i]).0,
        ) by {
            assert(allowed[i] == table[i].0);
        }
        lemma_present_known(table, allowed);
        lemma_lookup_present(table, 0);
        lemma_lookup_present(table, 1);
        lemma_lookup_present(table, 2);
        lemma_lookup_present(table, 3);
        lemma_lookup_present(table, 4);
        lemma_lookup_present(table, 5);
        lemma_lookup_present(table, 6);
    }
}

impl Wire for Measure {
    open spec fn decode(j: JsonView) -> Result<MeasureView, ParseErrorView> {
        match strict_object_of(
            j,
            Entity::Measure,
            names([
                "name", "description", "expression", "formatString", "displayFolder",
                "annotations", "kpi",
            ]),
        ) {
            Err(e) => Err(e),
            Ok(fields) => {
                let name = text_at(fields, "name"@, Entity::Measure);
                let description = opt_text_at(fields, "description"@, Entity::Measure);
                let expression = item_at::<Expression>(fields, "expression"@, Entity::Measure);
                let format_string = opt_text_at(fields, "formatString"@, Entity::Measure);
                let display_folder = opt_text_at(fields, "displayFolder"@, Entity::Measure);
                let annotations = opt_list_at::<Annotation>(
                    fields,
                    "annotations"@,
                    Entity::Measure,
                );
                let kpi = opt_item_at::<Kpi>(fields, "kpi"@);
                if name is Err {
                    Err(name->Err_0)
                } else if description is Err {
                    Err(description->Err_0)
                } else if expression is Err {
                    Err(expression->Err_0)
                } else if format_string is Err {
                    Err(format_string->Err_0)
                } else if display_folder is Err {
                    Err(display_folder->Err_0)
                } else if annotations is Err {
                    Err(annotations->Err_0)
                } else if kpi is Err {
                    Err(kpi->Err_0)
                } else {
                    Ok(
                        MeasureView {
                            name: name->Ok_0,
                            description: description->Ok_0,
                            expression: expression->Ok_0,
                            format_string: format_string->Ok_0,
                            display_folder: display_folder->Ok_0,
                            annotations: annotations->Ok_0,
                            kpi: kpi->Ok_0,
                        },
                    )
                }
            },
        }
    }

    open spec fn encode(v: MeasureView) -> JsonView {
        JsonView::Object(present(Self::entries(v)))
    }

    fn from_json(j: &Json) -> (r: Result<Measure, ParseError>) {
        let fields = strict_fields_of(
            j,
            Entity::Measure,
            &[
                "name", "description", "expression", "formatString", "displayFolder",
                "annotations", "kpi",
            ],
        )?;
        let name = read_text(fields, "name", Entity::Measure)?;
        let description = read_opt_text(fields, "description", Entity::Measure)?;
        let expression = read_item::<Expression>(fields, "expression", Entity::Measure)?;
        let format_string = read_opt_text(fields, "formatString", Entity::Measure)?;
        let display_folder = read_opt_text(fields, "displayFolder", Entity::Measure)?;
        let annotations = read_opt_list::<Annotation>(fields, "annotations", Entity::Measure)?;
        let kpi = read_opt_item::<Kpi>(fields, "kpi")?;
        Ok(
            Measure {
                name,
                description,
                expression,
                format_string,
                display_folder,
                annotations,
                kpi,
            },
        )
    }

    fn to_json(&self) -> (j: Json) {
        let w = ObjectWriter::new()
            .put("name", Json::text(self.name.as_str()))
            .put_opt("description", write_opt_text(&self.description))
            .put("expression", self.expression.to_json())
            .put_opt("formatString", write_opt_text(&self.format_string))
            .put_opt("displayFolder", write_opt_text(&self.display_folder))
            .put_opt("annotations", write_opt_list(&self.annotations))
            .put_opt("kpi", write_opt_item(&self.kpi));
        assert(w.table() =~= Self::entries(self.deep_view()));
        w.finish()
    }

    open spec fn strict_keys() -> Option<Seq<Seq<char>>> {
        Some(
            names([
                "name", "description", "expression", "formatString", "displayFolder",
                "annotations", "kpi",
            ]),
        )
    }

    open spec fn declared_keys() -> Option<Seq<Seq<char>>> {
        Some(
            names([
                "name", "description", "expression", "formatString", "displayFolder",
                "annotations", "kpi",
            ]),
        )
    }

    proof fn lemma_refuses_unknown_key(fields: Seq<(Seq<char>, JsonView)>, i: int) {
        lemma_first_unknown_none(
            fields,
            names([
                "name", "description", "expression", "formatString", "displayFolder",
                "annotations", "kpi",
            ]),
        );
    }

    proof fn lemma_refuses_repeated_key(fields: Seq<(Seq<char>, JsonView)>, i: int, j: int) {
        let declared = names(
            [
                "name", "description", "expression", "formatString", "displayFolder",
                "annotations", "kpi",
            ],
        );
        if declared.contains(fields[i].0) {
            lemma_repeated_at(fields, declared, i, j);
        }
    }

    proof fn lemma_round_trip(v: MeasureView) {
        Self::lemma_entries(v);
        let fields = present(Self::entries(v));
        let object = strict_object_of(
            Self::encode(v),
            Entity::Measure,
            names([
                "name", "description", "expression", "formatString", "displayFolder",
                "annotations", "kpi",
            ]),
        );
        assert(object is Ok && object->Ok_0 == fields);
        let name = text_at(fields, "name"@, Entity::Measure);
        let description = opt_text_at(fields, "description"@, Entity::Measure);
        let expression = item_at::<Expression>(fields, "expression"@, Entity::Measure);
        let format_string = opt_text_at(fields, "formatString"@, Entity::Measure);
        let display_folder = opt_text_at(fields, "displayFolder"@, Entity::Measure);
        let annotations = opt_list_at::<Annotation>(fields, "annotations"@, Entity::Measure);
        let kpi = opt_item_at::<Kpi>(fields, "kpi"@);
        assert(name == Ok::<Seq<char>, ParseErrorView>(v.name));
        assert(description == Ok::<Option<Seq<char>>, ParseErrorView>(v.description));
        assert(expression == Ok::<ExpressionView, ParseErrorView>(v.expression)) by {
            Expression::lemma_round_trip(v.expression);
        }
        assert(format_string == Ok::<Option<Seq<char>>, ParseErrorView>(v.format_string));
        assert(display_folder == Ok::<Option<Seq<char>>, ParseErrorView>(v.display_folder));
        assert(annotations == Ok::<Option<Seq<AnnotationView>>, ParseErrorView>(v.annotations)) by {
            if v.annotations is Some {
                lemma_items_round_trip::<Annotation>(v.annotations->0);
            }
        }
        assert(kpi == Ok::<Option<KpiView>, ParseErrorView>(v.kpi)) by {
            if v.kpi is Some {
                Kpi::lemma_round_trip(v.kpi->0);
            }
        }
    }
}

impl Ranked for Measure {
    open spec fn ranks_le(a: MeasureView, b: MeasureView) -> bool {
        name_le(a.name, b.name)
    }

    fn precedes(&self, other: &Self) -> (r: bool) {
        name_precedes(self.name.as_str(), other.name.as_str())
    }

    proof fn lemma_ranks_total(a: MeasureView, b: MeasureView) {
        lemma_bytes_le_total(folded(a.name), folded(b.name));
    }

    proof fn lemma_ranks_transitive(a: MeasureView, b: MeasureView, c: MeasureView) {
        lemma_bytes_le_transitive(folded(a.name), folded(b.name), folded(c.name));
    }
}

impl Measure {
    /// How `self` stands to `other` in the order of names, case ignored.
    pub fn cmp(&self, other: &Self) -> (r: Ordering)
        ensures
            r == ordering_of(name_rank(self.name@, other.name@)),
    {
        to_ordering(rank_names(self.name.as_str(), other.name.as_str()))
    }
}

impl Expressive for Measure {
    open spec fn expression_text(v: MeasureView) -> Option<Seq<char>> {
        Some(rendered(v.expression))
    }

    fn expression(&self) -> (r: Option<String>) {
        Some(self.expression.to_string())
    }
}

impl RecursiveSort for Measure {
    open spec fn canonical(v: MeasureView) -> MeasureView {
        MeasureView {
            annotations: stable_sort_opt::<Annotation>(v.annotations),
            kpi: Option::<Kpi>::canonical(v.kpi),
            ..v
        }
    }

    open spec fn is_canonical(v: MeasureView) -> bool {
        &&& sorted_opt::<Annotation>(v.annotations)
        &&& Option::<Kpi>::is_canonical(v.kpi)
    }

    /// Sorts the annotations of the measure and those of its indicator.
    fn recursive_sort(&mut self) {
        sort_opt(&mut self.annotations);
        self.kpi.recursive_sort();
    }

    proof fn lemma_canonical_sorted(v: MeasureView) {
        lemma_stable_sort_opt_sorted::<Annotation>(v.annotations);
        Option::<Kpi>::lemma_canonical_sorted(v.kpi);
    }

    proof fn lemma_canonical_fixpoint(v: MeasureView) {
        lemma_stable_sort_opt_fixpoint::<Annotation>(v.annotations);
        Option::<Kpi>::lemma_canonical_fixpoint(v.kpi);
    }
}

/// The key performance indicator of a measure.
#[derive(Debug, PartialEq, Eq, Clone)]
pub struct Kpi {
    pub target_expression: String,
    pub target_format_string: String,
    pub status_graphic: String,
    pub status_expression: Expression,
    pub annotations: Option<Vec<Annotation>>,
}

/// The model of a [`Kpi`].
pub struct KpiView {
    pub target_expression: Seq<char>,
    pub target_format_string: Seq<char>,
    pub status_graphic: Seq<char>,
    pub status_expression: ExpressionView,
    pub annotations: Option<Seq<AnnotationView>>,
}

impl DeepView for Kpi {
    type V = KpiView;

    open spec fn deep_view(&self) -> KpiView {
        KpiView {
            target_expression: self.target_expression@,
            target_format_string: self.target_format_string@,
            status_graphic: self.status_graphic@,
            status_expression: self.status_expression.deep_view(),
            annotations: self.annotations.deep_view(),
        }
    }
}

impl Kpi {
    /// The keys of the record in written order, each with the value written
    /// under it, or `None` where the entry is left out.
    pub open spec fn entries(v: KpiView) -> Seq<(Seq<char>, Option<JsonView>)> {
        seq![
            ("targetExpression"@, Some(JsonView::Text(v.target_expression))),
            ("targetFormatString"@, Some(JsonView::Text(v.target_format_string))),
            ("statusGraphic"@, Some(JsonView::Text(v.status_graphic))),
            ("statusExpression"@, Some(Expression::encode(v.status_expression))),
            ("annotations"@, opt_list_json::<Annotation>(v.annotations)),
        ]
    }

    /// Each key of the record is read back with the value written under it,
    /// and no key is written that the record does not declare.
    pub proof fn lemma_entries(v: KpiView)
        ensures
            lookup(present(Self::entries(v)), "targetExpression"@) == Self::entries(v)[0].1,
            lookup(present(Self::entries(v)), "targetFormatString"@) == Self::entries(v)[1].1,
            lookup(present(Self::entries(v)), "statusGraphic"@) == Self::entries(v)[2].1,
            lookup(present(Self::entries(v)), "statusExpression"@) == Self::entries(v)[3].1,
            lookup(present(Self::entries(v)), "annotations"@) == Self::entries(v)[4].1,
            refused_key(
                present(Self::entries(v)),
                Entity::Kpi,
                names([
                    "targetExpression", "targetFormatString", "statusGraphic", "statusExpression",
                    "annotations",
                ]),
            ) is None,
    {
        let table = Self::entries(v);
        reveal_strlit("targetExpression");
        reveal_strlit("targetFormatString");
        reveal_strlit("statusGraphic");
        reveal_strlit("statusExpression");
        reveal_strlit("annotations");
        assert("targetExpression"@.len() == 16);
        assert("targetFormatString"@.len() == 18);
        assert("statusGraphic"@.len() == 13);
        assert("statusExpression"@.len() == 16);
        assert("annotations"@.len() == 11);
        assert("targetExpression"@[0] != "statusExpression"@[0]);
        assert(table.len() == 5);
        assert(keys_distinct(table));
        let allowed = names(
            [
                "targetExpression", "targetFormatString", "statusGraphic", "statusExpression",
                "annotations",
            ],
        );
        assert forall|i: int| 0 <= i < table.len() implies allowed.contains(
            (#[trigger] table[i]).0,
        ) by {
            assert(allowed[i] == table[i].0);
        }
        lemma_present_known(table, allowed);
        lemma_lookup_present(table, 0);
        lemma_lookup_present(table, 1);
        lemma_lookup_present(table, 2);
        lemma_lookup_present(table, 3);
        lemma_lookup_present(table, 4);
    }
}

impl Wire for Kpi {
    open spec fn decode(j: JsonView) -> Result<KpiView, ParseErrorView> {
        match strict_object_of(
            j,
            Entity::Kpi,
            names([
                "targetExpression", "targetFormatString", "statusGraphic", "statusExpression",
                "annotations",
            ]),
        ) {
            Err(e) => Err(e),
            Ok(fields) => {
                let target_expression = text_at(fields, "targetExpression"@, Entity::Kpi);
                let target_format_string = text_at(fields, "targetFormatString"@, Entity::Kpi);
                let status_graphic = text_at(fields, "statusGraphic"@, Entity::Kpi);
                let status_expression = item_at::<Expression>(
                    fields,
                    "statusExpression"@,
                    Entity::Kpi,
                );
                let annotations = opt_list_at::<Annotation>(fields, "annotations"@, Entity::Kpi);
                if target_expression is Err {
                    Err(target_expression->Err_0)
                } else if target_format_string is Err {
                    Err(target_format_string->Err_0)
                } else if status_graphic is Err {
                    Err(status_graphic->Err_0)
                } else if status_expression is Err {
                    Err(status_expression->Err_0)
                } else if annotations is Err {
                    Err(annotations->Err_0)
                } else {
                    Ok(
                        KpiView {
                            target_expression: target_expression->Ok_0,
                            target_format_string: target_format_string->Ok_0,
                            status_graphic: status_graphic->Ok_0,
                            status_expression: status_expression->Ok_0,
                            annotations: annotations->Ok_0,
                        },
                    )
                }
            },
        }
    }

    open spec fn encode(v: KpiView) -> JsonView {
        JsonView::Object(present(Self::entries(v)))
    }

    fn from_json(j: &Json) -> (r: Result<Kpi, ParseError>) {
        let fields = strict_fields_of(
            j,
            Entity::Kpi,
            &[
                "targetExpression", "targetFormatString", "statusGraphic", "statusExpression",
                "annotations",
            ],
        )?;
        let target_expression = read_text(fields, "targetExpression", Entity::Kpi)?;
        let target_format_string = read_text(fields, "targetFormatString", Entity::Kpi)?;
        let status_graphic = read_text(fields, "statusGraphic", Entity::Kpi)?;
        let status_expression = read_item::<Expression>(fields, "statusExpression", Entity::Kpi)?;
        let annotations = read_opt_list::<Annotation>(fields, "annotations", Entity::Kpi)?;
        Ok(
            Kpi {
                target_expression,
                target_format_string,
                status_graphic,
                status_expression,
                annotations,
            },
        )
    }

    fn to_json(&self) -> (j: Json) {
        let w = ObjectWriter::new()
            .put("targetExpression", Json::text(self.target_expression.as_str()))
            .put("targetFormatString", Json::text(self.target_format_string.as_str()))
            .put("statusGraphic", Json::text(self.status_graphic.as_str()))
            .put("statusExpression", self.status_expression.to_json())
            .put_opt("annotations", write_opt_list(&self.annotations));
        assert(w.table() =~= Self::entries(self.deep_view()));
        w.finish()
    }

    open spec fn strict_keys() -> Option<Seq<Seq<char>>> {
        Some(
            names([
                "targetExpression", "targetFormatString", "statusGraphic", "statusExpression",
                "annotations",
            ]),
        )
    }

    open spec fn declared_keys() -> Option<Seq<Seq<char>>> {
        Some(
            names([
                "targetExpression", "targetFormatString", "statusGraphic", "statusExpression",
                "annotations",
            ]),
        )
    }

    proof fn lemma_refuses_unknown_key(fields: Seq<(Seq<char>, JsonView)>, i: int) {
        lemma_first_unknown_none(
            fields,
            names([
                "targetExpression", "targetFormatString", "statusGraphic", "statusExpression",
                "annotations",
            ]),
        );
    }

    proof fn lemma_refuses_repeated_key(fields: Seq<(Seq<char>, JsonView)>, i: int, j: int) {
        let declared = names(
            [
                "targetExpression", "targetFormatString", "statusGraphic", "statusExpression",
                "annotations",
            ],
        );
        if declared.contains(fields[i].0) {
            lemma_repeated_at(fields, declared, i, j);
        }
    }

    proof fn lemma_round_trip(v: KpiView) {
        Self::lemma_entries(v);
        let fields = present(Self::entries(v));
        let object = strict_object_of(
            Self::encode(v),
            Entity::Kpi,
            names([
                "targetExpression", "targetFormatString", "statusGraphic", "statusExpression",
                "annotations",
            ]),
        );
        assert(object is Ok && object->Ok_0 == fields);
        let target_expression = text_at(fields, "targetExpression"@, Entity::Kpi);
        let target_format_string = text_at(fields, "targetFormatString"@, Entity::Kpi);
        let status_graphic = text_at(fields, "statusGraphic"@, Entity::Kpi);
        let status_expression = item_at::<Expression>(fields, "statusExpression"@, Entity::Kpi);
        let annotations = opt_list_at::<Annotation>(fields, "annotations"@, Entity::Kpi);
        assert(target_expression == Ok::<Seq<char>, ParseErrorView>(v.target_expression));
        assert(target_format_string == Ok::<Seq<char>, ParseErrorView>(v.target_format_string));
        assert(status_graphic == Ok::<Seq<char>, ParseErrorView>(v.status_graphic));
        assert(status_expression == Ok::<ExpressionView, ParseErrorView>(v.status_expression)) by {
            Expression::lemma_round_trip(v.status_expression);
        }
        assert(annotations == Ok::<Option<Seq<AnnotationView>>, ParseErrorView>(v.annotations)) by {
            if v.annotations is Some {
                lemma_items_round_trip::<Annotation>(v.annotations->0);
            }
        }
    }
}

impl RecursiveSort for Kpi {
    open spec fn canonical(v: KpiView) -> KpiView {
        KpiView {
            annotations: stable_sort_opt::<Annotation>(v.annotations),
            ..v
        }
    }

    open spec fn is_canonical(v: KpiView) -> bool {
        sorted_opt::<Annotation>(v.annotations)
    }

    /// Sorts the annotations.
    fn recursive_sort(&mut self) {
        sort_opt(&mut self.annotations);
    }

    proof fn lemma_canonical_sorted(v: KpiView) {
        lemma_stable_sort_opt_sorted::<Annotation>(v.annotations);
    }

    proof fn lemma_canonical_fixpoint(v: KpiView) {
        lemma_stable_sort_opt_fixpoint::<Annotation>(v.annotations);
    }
}

} // verus!
