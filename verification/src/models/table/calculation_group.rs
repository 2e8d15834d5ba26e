//! Calculation groups and their items.

use std::cmp::Ordering;
use vstd::prelude::*;
use crate::codec::{
    item_at, keys_distinct, lemma_first_unknown_none, lemma_items_round_trip, lemma_lookup_present,
    lemma_present_distinct, lemma_present_known, lemma_repeated_at, lenient_fields_of,
    lenient_object_of, list_at, list_json, names, opt_item_at, opt_item_json, opt_number_at,
    opt_number_json, present, read_item, read_list, read_opt_item, read_opt_number, read_text,
    refused_key, repeated_field, strict_fields_of, strict_object_of, text_at, write_list,
    write_opt_item, write_opt_number, ObjectWriter, Wire,
};
use crate::error::{Entity, ParseError, ParseErrorView};
use crate::json::{lookup, Json, JsonView};
use crate::models::expression::{Expression, ExpressionView};
use crate::models::traits::RecursiveSort;
use crate::sorting::{
    lemma_stable_sort_fixpoint, lemma_stable_sort_sorted, sort, sorted, stable_sort, Ranked,
};
use crate::text::{
    bytes_le, exact_rank, lemma_bytes_le_total, lemma_bytes_le_transitive, ordering_of, rank_exact,
    to_ordering, Rank,
};

verus! {

/// The calculation items of a table.
#[derive(Debug, PartialEq, Eq, Clone)]
pub struct CalculationGroup {
    pub calculation_items: Vec<CalculationItem>,
}

/// The model of a [`CalculationGroup`].
pub struct CalculationGroupView {
    pub calculation_items: Seq<CalculationItemView>,
}

impl DeepView for CalculationGroup {
    type V = CalculationGroupView;

    open spec fn deep_view(&self) -> CalculationGroupView {
        CalculationGroupView {
            calculation_items: self.calculation_items.deep_view(),
        }
    }
}

impl CalculationGroup {
    /// The keys of the record in written order, each with the value written
    /// under it, or `None` where the entry is left out.
    pub open spec fn entries(v: CalculationGroupView) -> Seq<(Seq<char>, Option<JsonView>)> {
        seq![
            ("calculationItems"@, Some(list_json::<CalculationItem>(v.calculation_items))),
        ]
    }

    /// Each key of the record is read back with the value written under it,
    /// and no key is written that the record does not declare.
    pub proof fn lemma_entries(v: CalculationGroupView)
        ensures
            lookup(present(Self::entries(v)), "calculationItems"@) == Self::entries(v)[0].1,
            refused_key(
                present(Self::entries(v)),
                Entity::CalculationGroup,
                names(["calculationItems"]),
            ) is None,
    {
        let table = Self::entries(v);
        reveal_strlit("calculationItems");
        assert("calculationItems"@.len() == 16);
        assert(table.len() == 1);
        assert(keys_distinct(table));
        let allowed = names(["calculationItems"]);
        assert forall|i: int| 0 <= i < table.len() implies allowed.contains(
            (#[trigger] table[i]).0,
        ) by {
            assert(allowed[i] == table[i].0);
        }
        lemma_present_known(table, allowed);
        lemma_lookup_present(table, 0);
    }
}

impl Wire for CalculationGroup {
    open spec fn decode(j: JsonView) -> Result<CalculationGroupView, ParseErrorView> {
        match strict_object_of(j, Entity::CalculationGroup, names(["calculationItems"])) {
            Err(e) => Err(e),
            Ok(fields) => {
                let calculation_items = list_at::<CalculationItem>(
                    fields,
                    "calculationItems"@,
                    Entity::CalculationGroup,
                );
                if calculation_items is Err {
                    Err(calculation_items->Err_0)
                } else {
                    Ok(
                        CalculationGroupView {
                            calculation_items: calculation_items->Ok_0,
                        },
                    )
                }
            },
        }
    }

    open spec fn encode(v: CalculationGroupView) -> JsonView {
        JsonView::Object(present(Self::entries(v)))
    }

    fn from_json(j: &Json) -> (r: Result<CalculationGroup, ParseError>) {
        let fields = strict_fields_of(j, Entity::CalculationGroup, &["calculationItems"])?;
        let calculation_items = read_list::<CalculationItem>(
            fields,
            "calculationItems",
            Entity::CalculationGroup,
        )?;
        Ok(CalculationGroup { calculation_items })
    }

    fn to_json(&self) -> (j: Json) {
        let w = ObjectWriter::new()
            .put("calculationItems", write_list(&self.calculation_items));
        assert(w.table() =~= Self::entries(self.deep_view()));
        w.finish()
    }

    open spec fn strict_keys() -> Option<Seq<Seq<char>>> {
        Some(names(["calculationItems"]))
    }

    open spec fn declared_keys() -> Option<Seq<Seq<char>>> {
        Some(names(["calculationItems"]))
    }

    proof fn lemma_refuses_unknown_key(fields: Seq<(Seq<char>, JsonView)>, i: int) {
        lemma_first_unknown_none(fields, names(["calculationItems"]));
    }

    proof fn lemma_refuses_repeated_key(fields: Seq<(Seq<char>, JsonView)>, i: int, j: int) {
        let declared = names(["calculationItems"]);
        if declared.contains(fields[i].0) {
            lemma_repeated_at(fields, declared, i, j);
        }
    }

    proof fn lemma_round_trip(v: CalculationGroupView) {
        Self::lemma_entries(v);
        let fields = present(Self::entries(v));
        let object = strict_object_of(
            Self::encode(v),
            Entity::CalculationGroup,
            names(["calculationItems"]),
        );
        assert(object is Ok && object->Ok_0 == fields);
        let calculation_items = list_at::<CalculationItem>(
            fields,
            "calculationItems"@,
            Entity::CalculationGroup,
        );
        assert(calculation_items->Ok_0 == v.calculation_items && calculation_items is Ok) by {
            lemma_items_round_trip::<CalculationItem>(v.calculation_items);
        }
    }
}

impl RecursiveSort for CalculationGroup {
    open spec fn canonical(v: CalculationGroupView) -> CalculationGroupView {
        CalculationGroupView {
            calculation_items: stable_sort::<CalculationItem>(v.calculation_items),
            ..v
        }
    }

    open spec fn is_canonical(v: CalculationGroupView) -> bool {
        sorted::<CalculationItem>(v.calculation_items)
    }

    /// Sorts the calculation items.
    fn recursive_sort(&mut self) {
        sort(&mut self.calculation_items);
    }

    proof fn lemma_canonical_sorted(v: CalculationGroupView) {
        lemma_stable_sort_sorted::<CalculationItem>(v.calculation_items);
    }

    proof fn lemma_canonical_fixpoint(v: CalculationGroupView) {
        lemma_stable_sort_fixpoint::<CalculationItem>(v.calculation_items);
    }
}

/// One item of a calculation group. Items are ordered by ordinal, those
/// without one last; items with the same ordinal, or with none, by name as
/// it is written.
#[derive(Debug, PartialEq, Eq, Clone)]
pub struct CalculationItem {
    pub name: String,
    pub expression: Option<Expression>,
    pub ordinal: Option<i32>,
    pub format_string_definition: Option<FormatStringDefinition>,
}

/// The model of a [`CalculationItem`].
pub struct CalculationItemView {
    pub name: Seq<char>,
    pub expression: Option<ExpressionView>,
    pub ordinal: Option<i32>,
    pub format_string_definition: Option<FormatStringDefinitionView>,
}

impl DeepView for CalculationItem {
    type V = CalculationItemView;

    open spec fn deep_view(&self) -> CalculationItemView {
        CalculationItemView {
            name: self.name@,
            expression: self.expression.deep_view(),
            ordinal: self.ordinal,
            format_string_definition: self.format_string_definition.deep_view(),
        }
    }
}

impl CalculationItem {
    /// The keys of the record in written order, each with the value written
    /// under it, or `None` where the entry is left out.
    pub open spec fn entries(v: CalculationItemView) -> Seq<(Seq<char>, Option<JsonView>)> {
        seq![
            ("name"@, Some(JsonView::Text(v.name))),
            ("expression"@, opt_item_json::<Expression>(v.expression)),
            ("ordinal"@, opt_number_json(v.ordinal)),
            ("formatStringDefinition"@, opt_item_json::<FormatStringDefinition>(
                v.format_string_definition),
            ),
        ]
    }

    /// Each key of the record is read back with the value written under it,
    /// and no key is written that the record does not declare.
    pub proof fn lemma_entries(v: CalculationItemView)
        ensures
            lookup(present(Self::entries(v)), "name"@) == Self::entries(v)[0].1,
            lookup(present(Self::entries(v)), "expression"@) == Self::entries(v)[1].1,
            lookup(present(Self::entries(v)), "ordinal"@) == Self::entries(v)[2].1,
            lookup(present(Self::entries(v)), "formatStringDefinition"@) == Self::entries(v)[3].1,
            refused_key(
                present(Self::entries(v)),
                Entity::CalculationItem,
                names(["name", "expression", "ordinal", "formatStringDefinition"]),
            ) is None,
    {
        let table = Self::entries(v);
        reveal_strlit("name");
        reveal_strlit("expression");
        reveal_strlit("ordinal");
        reveal_strlit("formatStringDefinition");
        assert("name"@.len() == 4);
        assert("expression"@.len() == 10);
        assert("ordinal"@.len() == 7);
        assert("formatStringDefinition"@.len() == 22);
        assert(table.len() == 4);
        assert(keys_distinct(table));
        let allowed = names(["name", "expression", "ordinal", "formatStringDefinition"]);
        assert forall|i: int| 0 <= i < table.len() implies allowed.contains(
            (#[trigger] table[i]).0,
        ) by {
            assert(allowed[i] == table[i].0);
        }
        lemma_present_known(table, allowed);
        lemma_lookup_present(table, 0);
        lemma_lookup_present(table, 1);
        lemma_lookup_present(table, 2);
        lemma_lookup_present(table, 3);
    }
}

impl Wire for CalculationItem {
    open spec fn decode(j: JsonView) -> Result<CalculationItemView, ParseErrorView> {
        match strict_object_of(
            j,
            Entity::CalculationItem,
            names(["name", "expression", "ordinal", "formatStringDefinition"]),
        ) {
            Err(e) => Err(e),
            Ok(fields) => {
                let name = text_at(fields, "name"@, Entity::CalculationItem);
                let expression = opt_item_at::<Expression>(fields, "expression"@);
                let ordinal = opt_number_at(fields, "ordinal"@, Entity::CalculationItem);
                let format_string_definition = opt_item_at::<FormatStringDefinition>(
                    fields,
                    "formatStringDefinition"@,
                );
                if name is Err {
                    Err(name->Err_0)
                } else if expression is Err {
                    Err(expression->Err_0)
                } else if ordinal is Err {
                    Err(ordinal->Err_0)
                } else if format_string_definition is Err {
                    Err(format_string_definition->Err_0)
                } else {
                    Ok(
                        CalculationItemView {
                            name: name->Ok_0,
                            expression: expression->Ok_0,
                            ordinal: ordinal->Ok_0,
                            format_string_definition: format_string_definition->Ok_0,
                        },
                    )
                }
            },
        }
    }

    open spec fn encode(v: CalculationItemView) -> JsonView {
        JsonView::Object(present(Self::entries(v)))
    }

    fn from_json(j: &Json) -> (r: Result<CalculationItem, ParseError>) {
        let fields = strict_fields_of(
            j,
            Entity::CalculationItem,
            &["name", "expression", "ordinal", "formatStringDefinition"],
        )?;
        let name = read_text(fields, "name", Entity::CalculationItem)?;
        let expression = read_opt_item::<Expression>(fields, "expression")?;
        let ordinal = read_opt_number(fields, "ordinal", Entity::CalculationItem)?;
        let format_string_definition = read_opt_item::<FormatStringDefinition>(
            fields,
            "formatStringDefinition",
        )?;
        Ok(CalculationItem { name, expression, ordinal, format_string_definition })
    }

    fn to_json(&self) -> (j: Json) {
        let w = ObjectWriter::new()
            .put("name", Json::text(self.name.as_str()))
            .put_opt("expression", write_opt_item(&self.expression))
            .put_opt("ordinal", write_opt_number(self.ordinal))
            .put_opt("formatStringDefinition", write_opt_item(&self.format_string_definition));
        assert(w.table() =~= Self::entries(self.deep_view()));
        w.finish()
    }

    open spec fn strict_keys() -> Option<Seq<Seq<char>>> {
        Some(names(["name", "expression", "ordinal", "formatStringDefinition"]))
    }

    open spec fn declared_keys() -> Option<Seq<Seq<char>>> {
        Some(names(["name", "expression", "ordinal", "formatStringDefinition"]))
    }

    proof fn lemma_refuses_unknown_key(fields: Seq<(Seq<char>, JsonView)>, i: int) {
        lemma_first_unknown_none(
            fields,
            names(["name", "expression", "ordinal", "formatStringDefinition"]),
        );
    }

    proof fn lemma_refuses_repeated_key(fields: Seq<(Seq<char>, JsonView)>, i: int, j: int) {
        let declared = names(["name", "expression", "ordinal", "formatStringDefinition"]);
        if declared.contains(fields[i].0) {
            lemma_repeated_at(fields, declared, i, j);
        }
    }

    proof fn lemma_round_trip(v: CalculationItemView) {
        Self::lemma_entries(v);
        let fields = present(Self::entries(v));
        let object = strict_object_of(
            Self::encode(v),
            Entity::CalculationItem,
            names(["name", "expression", "ordinal", "formatStringDefinition"]),
        );
        assert(object is Ok && object->Ok_0 == fields);
        let name = text_at(fields, "name"@, Entity::CalculationItem);
        let expression = opt_item_at::<Expression>(fields, "expression"@);
        let ordinal = opt_number_at(fields, "ordinal"@, Entity::CalculationItem);
        let format_string_definition = opt_item_at::<FormatStringDefinition>(
            fields,
            "formatStringDefinition"@,
        );
        assert(name == Ok::<Seq<char>, ParseErrorView>(v.name));
        assert(expression == Ok::<Option<ExpressionView>, ParseErrorView>(v.expression)) by {
            if v.expression is Some {
                Expression::lemma_round_trip(v.expression->0);
            }
        }
        assert(ordinal == Ok::<Option<i32>, ParseErrorView>(v.ordinal));
        assert(format_string_definition->Ok_0 == v.format_string_definition
            && format_string_definition is Ok) by {
            if v.format_string_definition is Some {
                FormatStringDefinition::lemma_round_trip(v.format_string_definition->0);
            }
        }
    }
}

/// The place of an ordinal in the order of items: its number, or one more
/// than any number where there is none.
pub open spec fn ordinal_key(ordinal: Option<i32>) -> int {
    match ordinal {
        Some(n) => n as int,
        None => i32::MAX + 1,
    }
}

/// How the ordinal `a` stands to the ordinal `b`.
pub open spec fn ordinal_rank(a: Option<i32>, b: Option<i32>) -> Rank {
    if ordinal_key(a) < ordinal_key(b) {
        Rank::Before
    } else if ordinal_key(a) > ordinal_key(b) {
        Rank::After
    } else {
        Rank::Level
    }
}

/// How the item `a` stands to the item `b`: by ordinal, then by name.
pub open spec fn item_rank(a: CalculationItemView, b: CalculationItemView) -> Rank {
    match ordinal_rank(a.ordinal, b.ordinal) {
        Rank::Level => exact_rank(a.name, b.name),
        rank => rank,
    }
}

impl CalculationItem {
    /// How the ordinal of `self` stands to that of `other`.
    fn rank_ordinal(&self, other: &Self) -> (r: Rank)
        ensures
            r == ordinal_rank(self.ordinal, other.ordinal),
    {
        match (self.ordinal, other.ordinal) {
            (Some(s), Some(o)) => if s < o {
                Rank::Before
            } else if s > o {
                Rank::After
            } else {
                Rank::Level
            },
            (Some(_), None) => Rank::Before,
            (None, Some(_)) => Rank::After,
            (None, None) => Rank::Level,
        }
    }

    /// How `self` stands to `other`: by ordinal, then by name.
    fn rank(&self, other: &Self) -> (r: Rank)
        ensures
            r == item_rank(self.deep_view(), other.deep_view()),
    {
        match self.rank_ordinal(other) {
            Rank::Level => rank_exact(self.name.as_str(), other.name.as_str()),
            rank => rank,
        }
    }

    /// How the ordinal of `self` stands to that of `other`: an item with an
    /// ordinal comes before one without.
    pub fn cmp_ordinal(&self, other: &Self) -> (r: Ordering)
        ensures
            r == ordering_of(ordinal_rank(self.ordinal, other.ordinal)),
    {
        to_ordering(self.rank_ordinal(other))
    }

    /// How the name of `self` stands to that of `other`, as they are written.
    pub fn cmp_name(&self, other: &Self) -> (r: Ordering)
        ensures
            r == ordering_of(exact_rank(self.name@, other.name@)),
    {
        to_ordering(rank_exact(self.name.as_str(), other.name.as_str()))
    }

    /// How `self` stands to `other`: by ordinal, then by name.
    pub fn cmp(&self, other: &Self) -> (r: Ordering)
        ensures
            r == ordering_of(item_rank(self.deep_view(), other.deep_view())),
    {
        to_ordering(self.rank(other))
    }
}

impl Ranked for CalculationItem {
    open spec fn ranks_le(a: CalculationItemView, b: CalculationItemView) -> bool {
        item_rank(a, b) != Rank::After
    }

    fn precedes(&self, other: &Self) -> (r: bool) {
        match self.rank(other) {
            Rank::After => false,
            _ => true,
        }
    }

    proof fn lemma_ranks_total(a: CalculationItemView, b: CalculationItemView) {
        lemma_bytes_le_total(vstd::utf8::encode_utf8(a.name), vstd::utf8::encode_utf8(b.name));
    }

    proof fn lemma_ranks_transitive(
        a: CalculationItemView,
        b: CalculationItemView,
        c: CalculationItemView,
    ) {
        let x = vstd::utf8::encode_utf8(a.name);
        let y = vstd::utf8::encode_utf8(b.name);
        let z = vstd::utf8::encode_utf8(c.name);
        lemma_bytes_le_total(x, y);
        lemma_bytes_le_total(y, z);
        lemma_bytes_le_total(x, z);
        if bytes_le(x, y) && bytes_le(y, z) {
            lemma_bytes_le_transitive(x, y, z);
        }
    }
}

/// The expression that gives the format string of a calculation item. Fields
/// that the record does not declare are ignored.
#[derive(Debug, PartialEq, Eq, Clone)]
pub struct FormatStringDefinition {
    pub expression: Expression,
}

/// The model of a [`FormatStringDefinition`].
pub struct FormatStringDefinitionView {
    pub expression: ExpressionView,
}

impl DeepView for FormatStringDefinition {
    type V = FormatStringDefinitionView;

    open spec fn deep_view(&self) -> FormatStringDefinitionView {
        FormatStringDefinitionView {
            expression: self.expression.deep_view(),
        }
    }
}

impl FormatStringDefinition {
    /// The keys of the record in written order, each with the value written
    /// under it, or `None` where the entry is left out.
    pub open spec fn entries(v: FormatStringDefinitionView) -> Seq<(Seq<char>, Option<JsonView>)> {
        seq![
            ("expression"@, Some(Expression::encode(v.expression))),
        ]
    }

    /// Each key of the record is read back with the value written under it,
    /// or as absent where the entry is left out.
    pub proof fn lemma_entries(v: FormatStringDefinitionView)
        ensures
            lookup(present(Self::entries(v)), "expression"@) == Self::entries(v)[0].1,
            repeated_field(
                present(Self::entries(v)),
                Entity::FormatStringDefinition,
                names(["expression"]),
            ) is None,
    {
        let table = Self::entries(v);
        reveal_strlit("expression");
        assert("expression"@.len() == 10);
        assert(table.len() == 1);
        assert(keys_distinct(table));
        lemma_present_distinct(table, names(["expression"]));
        lemma_lookup_present(table, 0);
    }
}

impl Wire for FormatStringDefinition {
    open spec fn decode(j: JsonView) -> Result<FormatStringDefinitionView, ParseErrorView> {
        match lenient_object_of(j, Entity::FormatStringDefinition, names(["expression"])) {
            Err(e) => Err(e),
            Ok(fields) => {
                let expression = item_at::<Expression>(
                    fields,
                    "expression"@,
                    Entity::FormatStringDefinition,
                );
                if expression is Err {
                    Err(expression->Err_0)
                } else {
                    Ok(
                        FormatStringDefinitionView {
                            expression: expression->Ok_0,
                        },
                    )
                }
            },
        }
    }

    open spec fn encode(v: FormatStringDefinitionView) -> JsonView {
        JsonView::Object(present(Self::entries(v)))
    }

    fn from_json(j: &Json) -> (r: Result<FormatStringDefinition, ParseError>) {
        let fields = lenient_fields_of(j, Entity::FormatStringDefinition, &["expression"])?;
        let expression = read_item::<Expression>(
            fields,
            "expression",
            Entity::FormatStringDefinition,
        )?;
        Ok(FormatStringDefinition { expression })
    }

    fn to_json(&self) -> (j: Json) {
        let w = ObjectWriter::new()
            .put("expression", self.expression.to_json());
        assert(w.table() =~= Self::entries(self.deep_view()));
        w.finish()
    }

    open spec fn strict_keys() -> Option<Seq<Seq<char>>> {
        None
    }

    open spec fn declared_keys() -> Option<Seq<Seq<char>>> {
        Some(names(["expression"]))
    }

    proof fn lemma_refuses_unknown_key(fields: Seq<(Seq<char>, JsonView)>, i: int) {
    }

    proof fn lemma_refuses_repeated_key(fields: Seq<(Seq<char>, JsonView)>, i: int, j: int) {
        let declared = names(["expression"]);
        if declared.contains(fields[i].0) {
            lemma_repeated_at(fields, declared, i, j);
        }
    }

    proof fn lemma_round_trip(v: FormatStringDefinitionView) {
        Self::lemma_entries(v);
        let fields = present(Self::entries(v));
        let object = lenient_object_of(
            Self::encode(v),
            Entity::FormatStringDefinition,
            names(["expression"]),
        );
        assert(object is Ok && object->Ok_0 == fields);
        let expression = item_at::<Expression>(
            fields,
            "expression"@,
            Entity::FormatStringDefinition,
        );
        assert(expression == Ok::<ExpressionView, ParseErrorView>(v.expression)) by {
            Expression::lemma_round_trip(v.expression);
        }
    }
}

} // verus!
