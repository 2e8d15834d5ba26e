//! Tables and what they own.

pub mod calculation_group;
pub mod column;
pub mod measure;
pub mod partition;

pub use self::column::{Attributes, Column};
pub use self::measure::Measure;
pub use self::partition::{Partition, Source};

use std::cmp::Ordering;
use vstd::prelude::*;
use self::calculation_group::{CalculationGroup, CalculationGroupView};
use self::column::ColumnView;
use self::measure::MeasureView;
use self::partition::PartitionView;
use crate::codec::{
    flag_or_at, flag_unless, keys_distinct, lemma_first_unknown_none, lemma_items_round_trip,
    lemma_lookup_present, lemma_present_known, lemma_repeated_at, list_at, list_json, names,
    opt_item_at, opt_item_json, opt_list_at, opt_list_json, present, read_flag_or, read_list,
    read_opt_item, read_opt_list, read_text, refused_key, strict_fields_of, strict_object_of,
    text_at, write_flag_unless, write_list, write_opt_item, write_opt_list, ObjectWriter, Wire,
};
use crate::error::{Entity, ParseError, ParseErrorView};
use crate::json::{lookup, Json, JsonView};
use crate::models::traits::RecursiveSort;
use crate::sorting::Ranked;
use crate::text::{
    folded, lemma_bytes_le_total, lemma_bytes_le_transitive, name_le, name_precedes, name_rank,
    ordering_of, rank_names, to_ordering,
};

verus! {

/// A table of the model with what it owns. Tables are ordered by name, case
/// ignored.
#[derive(Debug, PartialEq, Eq, Clone)]
pub struct Table {
    pub name: String,
    /// Left out of the JSON form when `false`, and read as `false` when absent.
    pub is_hidden: bool,
    pub columns: Vec<Column>,
    pub partitions: Vec<Partition>,
    pub measures: Option<Vec<Measure>>,
    pub calculation_group: Option<CalculationGroup>,
}

/// The model of a [`Table`].
pub struct TableView {
    pub name: Seq<char>,
    pub is_hidden: bool,
    pub columns: Seq<ColumnView>,
    pub partitions: Seq<PartitionView>,
    pub measures: Option<Seq<MeasureView>>,
    pub calculation_group: Option<CalculationGroupView>,
}

impl DeepView for Table {
    type V = TableView;

    open spec fn deep_view(&self) -> TableView {
        TableView {
            name: self.name@,
            is_hidden: self.is_hidden,
            columns: self.columns.deep_view(),
            partitions: self.partitions.deep_view(),
            measures: self.measures.deep_view(),
            calculation_group: self.calculation_group.deep_view(),
        }
    }
}

impl Table {
    /// The keys of the record in written order, each with the value written
    /// under it, or `None` where the entry is left out.
    pub open spec fn entries(v: TableView) -> Seq<(Seq<char>, Option<JsonView>)> {
        seq![
            ("name"@, Some(JsonView::Text(v.name))),
            ("isHidden"@, flag_unless(v.is_hidden, false)),
            ("columns"@, Some(list_json::<Column>(v.columns))),
            ("partitions"@, Some(list_json::<Partition>(v.partitions))),
            ("measures"@, opt_list_json::<Measure>(v.measures)),
            ("calculationGroup"@, opt_item_json::<CalculationGroup>(v.calculation_group)),
        ]
    }

    /// Each key of the record is read back with the value written under it,
    /// and no key is written that the record does not declare.
    pub proof fn lemma_entries(v: TableView)
        ensures
            lookup(present(Self::entries(v)), "name"@) == Self::entries(v)[0].1,
            lookup(present(Self::entries(v)), "isHidden"@) == Self::entries(v)[1].1,
            lookup(present(Self::entries(v)), "columns"@) == Self::entries(v)[2].1,
            lookup(present(Self::entries(v)), "partitions"@) == Self::entries(v)[3].1,
            lookup(present(Self::entries(v)), "measures"@) == Self::entries(v)[4].1,
            lookup(present(Self::entries(v)), "calculationGroup"@) == Self::entries(v)[5].1,
            refused_key(
                present(Self::entries(v)),
                Entity::Table,
                names([
                    "name", "isHidden", "columns", "partitions", "measures", "calculationGroup",
                ]),
            ) is None,
    {
        let table = Self::entries(v);
        reveal_strlit("name");
        reveal_strlit("isHidden");
        reveal_strlit("columns");
        reveal_strlit("partitions");
        reveal_strlit("measures");
        reveal_strlit("calculationGroup");
        assert("name"@.len() == 4);
        assert("isHidden"@.len() == 8);
        assert("columns"@.len() == 7);
        assert("partitions"@.len() == 10);
        assert("measures"@.len() == 8);
        assert("calculationGroup"@.len() == 16);
        assert("isHidden"@[0] != "measures"@[0]);
        assert(table.len() == 6);
        assert(keys_distinct(table));
        let allowed = names(
            ["name", "isHidden", "columns", "partitions", "measures", "calculationGroup"],
        );
        assert forall|i: int| 0 <= i < table.len() implies allowed.contains(
            (#[trigger] table[i]).0,
        ) by {
            assert(allowed[i] == table[i].0);
        }
        lemma_present_known(table, allowed);
        lemma_lookup_present(table, 0);
        lemma_lookup_present(table, 1);
        lemma_lookup_present(table, 2);
        lemma_lookup_present(table, 3);
        lemma_lookup_present(table, 4);
        lemma_lookup_present(table, 5);
    }
}

impl Wire for Table {
    open spec fn decode(j: JsonView) -> Result<TableView, ParseErrorView> {
        match strict_object_of(
            j,
            Entity::Table,
            names(["name", "isHidden", "columns", "partitions", "measures", "calculationGroup"]),
        ) {
            Err(e) => Err(e),
            Ok(fields) => {
                let name = text_at(fields, "name"@, Entity::Table);
                let is_hidden = flag_or_at(fields, "isHidden"@, Entity::Table, false);
                let columns = list_at::<Column>(fields, "columns"@, Entity::Table);
                let partitions = list_at::<Partition>(fields, "partitions"@, Entity::Table);
                let measures = opt_list_at::<Measure>(fields, "measures"@, Entity::Table);
                let calculation_group = opt_item_at::<CalculationGroup>(
                    fields,
                    "calculationGroup"@,
                );
                if name is Err {
                    Err(name->Err_0)
                } else if is_hidden is Err {
                    Err(is_hidden->Err_0)
                } else if columns is Err {
                    Err(columns->Err_0)
                } else if partitions is Err {
                    Err(partitions->Err_0)
                } else if measures is Err {
                    Err(measures->Err_0)
                } else if calculation_group is Err {
                    Err(calculation_group->Err_0)
                } else {
                    Ok(
                        TableView {
                            name: name->Ok_0,
                            is_hidden: is_hidden->Ok_0,
                            columns: columns->Ok_0,
                            partitions: partitions->Ok_0,
                            measures: measures->Ok_0,
                            calculation_group: calculation_group->Ok_0,
                        },
                    )
                }
            },
        }
    }

    open spec fn encode(v: TableView) -> JsonView {
        JsonView::Object(present(Self::entries(v)))
    }

    fn from_json(j: &Json) -> (r: Result<Table, ParseError>) {
        let fields = strict_fields_of(
            j,
            Entity::Table,
            &["name", "isHidden", "columns", "partitions", "measures", "calculationGroup"],
        )?;
        let name = read_text(fields, "name", Entity::Table)?;
        let is_hidden = read_flag_or(fields, "isHidden", Entity::Table, false)?;
        let columns = read_list::<Column>(fields, "columns", Entity::Table)?;
        let partitions = read_list::<Partition>(fields, "partitions", Entity::Table)?;
        let measures = read_opt_list::<Measure>(fields, "measures", Entity::Table)?;
        let calculation_group = read_opt_item::<CalculationGroup>(fields, "calculationGroup")?;
        Ok(Table { name, is_hidden, columns, partitions, measures, calculation_group })
    }

    fn to_json(&self) -> (j: Json) {
        let w = ObjectWriter::new()
            .put("name", Json::text(self.name.as_str()))
            .put_opt("isHidden", write_flag_unless(self.is_hidden, false))
            .put("columns", write_list(&self.columns))
            .put("partitions", write_list(&self.partitions))
            .put_opt("measures", write_opt_list(&self.measures))
            .put_opt("calculationGroup", write_opt_item(&self.calculation_group));
        assert(w.table() =~= Self::entries(self.deep_view()));
        w.finish()
    }

    open spec fn strict_keys() -> Option<Seq<Seq<char>>> {
        Some(names(["name", "isHidden", "columns", "partitions", "measures", "calculationGroup"]))
    }

    open spec fn declared_keys() -> Option<Seq<Seq<char>>> {
        Some(names(["name", "isHidden", "columns", "partitions", "measures", "calculationGroup"]))
    }

    proof fn lemma_refuses_unknown_key(fields: Seq<(Seq<char>, JsonView)>, i: int) {
        lemma_first_unknown_none(
            fields,
            names(["name", "isHidden", "columns", "partitions", "measures", "calculationGroup"]),
        );
    }

    proof fn lemma_refuses_repeated_key(fields: Seq<(Seq<char>, JsonView)>, i: int, j: int) {
        let declared = names(
            ["name", "isHidden", "columns", "partitions", "measures", "calculationGroup"],
        );
        if declared.contains(fields[i].0) {
            lemma_repeated_at(fields, declared, i, j);
        }
    }

    proof fn lemma_round_trip(v: TableView) {
        Self::lemma_entries(v);
        let fields = present(Self::entries(v));
        let object = strict_object_of(
            Self::encode(v),
            Entity::Table,
            names(["name", "isHidden", "columns", "partitions", "measures", "calculationGroup"]),
        );
        assert(object is Ok && object->Ok_0 == fields);
        let name = text_at(fields, "name"@, Entity::Table);
        let is_hidden = flag_or_at(fields, "isHidden"@, Entity::Table, false);
        let columns = list_at::<Column>(fields, "columns"@, Entity::Table);
        let partitions = list_at::<Partition>(fields, "partitions"@, Entity::Table);
        let measures = opt_list_at::<Measure>(fields, "measures"@, Entity::Table);
        let calculation_group = opt_item_at::<CalculationGroup>(fields, "calculationGroup"@);
        assert(name == Ok::<Seq<char>, ParseErrorView>(v.name));
        assert(is_hidden == Ok::<bool, ParseErrorView>(v.is_hidden));
        assert(columns == Ok::<Seq<ColumnView>, ParseErrorView>(v.columns)) by {
            lemma_items_round_trip::<Column>(v.columns);
        }
        assert(partitions == Ok::<Seq<PartitionView>, ParseErrorView>(v.partitions)) by {
            lemma_items_round_trip::<Partition>(v.partitions);
        }
        assert(measures == Ok::<Option<Seq<MeasureView>>, ParseErrorView>(v.measures)) by {
            if v.measures is Some {
                lemma_items_round_trip::<Measure>(v.measures->0);
            }
        }
        assert(calculation_group->Ok_0 == v.calculation_group && calculation_group is Ok) by {
            if v.calculation_group is Some {
                CalculationGroup::lemma_round_trip(v.calculation_group->0);
            }
        }
    }
}

impl Ranked for Table {
    open spec fn ranks_le(a: TableView, b: TableView) -> bool {
        name_le(a.name, b.name)
    }

    fn precedes(&self, other: &Self) -> (r: bool) {
        name_precedes(self.name.as_str(), other.name.as_str())
    }

    proof fn lemma_ranks_total(a: TableView, b: TableView) {
        lemma_bytes_le_total(folded(a.name), folded(b.name));
    }

    proof fn lemma_ranks_transitive(a: TableView, b: TableView, c: TableView) {
        lemma_bytes_le_transitive(folded(a.name), folded(b.name), folded(c.name));
    }
}

impl Table {
    /// How `self` stands to `other` in the order of names, case ignored.
    pub fn cmp(&self, other: &Self) -> (r: Ordering)
        ensures
            r == ordering_of(name_rank(self.name@, other.name@)),
    {
        to_ordering(rank_names(self.name.as_str(), other.name.as_str()))
    }
}

impl RecursiveSort for Table {
    open spec fn canonical(v: TableView) -> TableView {
        TableView {
            partitions: Vec::<Partition>::canonical(v.partitions),
            columns: Vec::<Column>::canonical(v.columns),
            measures: Option::<Vec<Measure>>::canonical(v.measures),
            calculation_group: Option::<CalculationGroup>::canonical(v.calculation_group),
            ..v
        }
    }

    open spec fn is_canonical(v: TableView) -> bool {
        &&& Vec::<Partition>::is_canonical(v.partitions)
        &&& Vec::<Column>::is_canonical(v.columns)
        &&& Option::<Vec<Measure>>::is_canonical(v.measures)
        &&& Option::<CalculationGroup>::is_canonical(v.calculation_group)
    }

    /// Brings the partitions, the columns, the measures and the calculation
    /// items into canonical order, each with what it owns.
    fn recursive_sort(&mut self) {
        self.partitions.recursive_sort();
        self.columns.recursive_sort();
        self.measures.recursive_sort();
        self.calculation_group.recursive_sort();
    }

    proof fn lemma_canonical_sorted(v: TableView) {
        Vec::<Partition>::lemma_canonical_sorted(v.partitions);
        Vec::<Column>::lemma_canonical_sorted(v.columns);
        Option::<Vec<Measure>>::lemma_canonical_sorted(v.measures);
        Option::<CalculationGroup>::lemma_canonical_sorted(v.calculation_group);
    }

    proof fn lemma_canonical_fixpoint(v: TableView) {
        Vec::<Partition>::lemma_canonical_fixpoint(v.partitions);
        Vec::<Column>::lemma_canonical_fixpoint(v.columns);
        Option::<Vec<Measure>>::lemma_canonical_fixpoint(v.measures);
        Option::<CalculationGroup>::lemma_canonical_fixpoint(v.calculation_group);
    }
}

} // verus!
