//! Columns of a table.

use std::cmp::Ordering;
use vstd::prelude::*;
use crate::codec::{
    item_at, item_or_at, item_unless, keys_distinct, lemma_first_unknown_none,
    lemma_items_round_trip, lemma_key_refused, lemma_lookup_present, lemma_present_known,
    lemma_repeated_at, lemma_unknown_at, lemma_unknown_if_present, names, opt_flag_at,
    opt_flag_json, opt_list_at, opt_list_json, opt_text_at, opt_text_json, present, read_item,
    read_item_or, read_opt_flag, read_opt_list, read_opt_text, read_text, refused_key,
    strict_fields_of, strict_object_of, text_at, write_opt_flag, write_opt_list, write_opt_text,
    write_unless, ObjectWriter, Wire,
};
use crate::error::{failure, outcome, Entity, ErrorKind, ParseError, ParseErrorView};
use crate::json::{lookup, Json, JsonView};
use crate::models::annotations::{Annotation, AnnotationView};
use crate::models::expression::{rendered, Expression, ExpressionView, Expressive};
use crate::models::traits::RecursiveSort;
use crate::sorting::{
    lemma_stable_sort_opt_fixpoint, lemma_stable_sort_opt_sorted, sort_opt, sorted_opt,
    stable_sort_opt, Ranked,
};
use crate::text::{
    folded, lemma_bytes_le_total, lemma_bytes_le_transitive, name_le, name_precedes, name_rank,
    ordering_of, rank_names, str_eq, to_ordering,
};

verus! {

/// A column of a table. The JSON form names no variant: an object is read
/// as the first of `Calculated`, `Sourced` and `CalculatedTableColumn` whose
/// shape it has. Columns are ordered by name, case ignored, whatever their
/// variant.
#[derive(Debug, PartialEq, Eq, Clone)]
pub enum Column {
    Calculated(Calculated),
    Sourced(Sourced),
    CalculatedTableColumn(CalculatedTableColumn),
}

/// The model of a [`Column`].
pub enum ColumnView {
    Calculated(CalculatedView),
    Sourced(SourcedView),
    CalculatedTableColumn(CalculatedTableColumnView),
}

impl DeepView for Column {
    type V = ColumnView;

    open spec fn deep_view(&self) -> ColumnView {
        match self {
            Column::Calculated(c) => ColumnView::Calculated(c.deep_view()),
            Column::Sourced(c) => ColumnView::Sourced(c.deep_view()),
            Column::CalculatedTableColumn(c) => ColumnView::CalculatedTableColumn(c.deep_view()),
        }
    }
}

impl Ranked for Column {
    open spec fn ranks_le(a: ColumnView, b: ColumnView) -> bool {
        name_le(Column::name_of(a), Column::name_of(b))
    }

    fn precedes(&self, other: &Self) -> (r: bool) {
        name_precedes(self.name().as_str(), other.name().as_str())
    }

    proof fn lemma_ranks_total(a: ColumnView, b: ColumnView) {
        lemma_bytes_le_total(folded(Column::name_of(a)), folded(Column::name_of(b)));
    }

    proof fn lemma_ranks_transitive(a: ColumnView, b: ColumnView, c: ColumnView) {
        lemma_bytes_le_transitive(
            folded(Column::name_of(a)),
            folded(Column::name_of(b)),
            folded(Column::name_of(c)),
        );
    }
}

impl Column {
    /// How `self` stands to `other` in the order of names, case ignored.
    pub fn cmp(&self, other: &Self) -> (r: Ordering)
        ensures
            r == ordering_of(
                name_rank(Column::name_of(self.deep_view()), Column::name_of(other.deep_view())),
            ),
    {
        to_ordering(rank_names(self.name().as_str(), other.name().as_str()))
    }
}

impl Attributes for Column {
    open spec fn name_of(v: ColumnView) -> Seq<char> {
        match v {
            ColumnView::Calculated(c) => c.common.name,
            ColumnView::Sourced(c) => c.common.name,
            ColumnView::CalculatedTableColumn(c) => c.common.name,
        }
    }

    open spec fn data_type_of(v: ColumnView) -> Seq<char> {
        match v {
            ColumnView::Calculated(c) => c.common.data_type,
            ColumnView::Sourced(c) => c.common.data_type,
            ColumnView::CalculatedTableColumn(c) => c.common.data_type,
        }
    }

    open spec fn hidden(v: ColumnView) -> bool {
        match v {
            ColumnView::Calculated(c) => c.common.is_hidden == Some(true),
            ColumnView::Sourced(c) => c.common.is_hidden == Some(true),
            ColumnView::CalculatedTableColumn(c) => c.common.is_hidden == Some(true),
        }
    }

    fn name(&self) -> (r: String) {
        match self {
            Self::Calculated(c) => c.name(),
            Self::Sourced(c) => c.name(),
            Self::CalculatedTableColumn(c) => c.name(),
        }
    }

    fn data_type(&self) -> (r: String) {
        match self {
            Self::Calculated(c) => c.data_type(),
            Self::Sourced(c) => c.data_type(),
            Self::CalculatedTableColumn(c) => c.data_type(),
        }
    }

    fn is_hidden(&self) -> (r: bool) {
        match self {
            Self::Calculated(c) => c.is_hidden(),
            Self::Sourced(c) => c.is_hidden(),
            Self::CalculatedTableColumn(c) => c.is_hidden(),
        }
    }
}

impl Expressive for Column {
    open spec fn expression_text(v: ColumnView) -> Option<Seq<char>> {
        match v {
            ColumnView::Calculated(c) => Calculated::expression_text(c),
            _ => None,
        }
    }

    fn expression(&self) -> (r: Option<String>) {
        match self {
            Self::Calculated(c) => c.expression(),
            _ => None,
        }
    }
}

impl RecursiveSort for Column {
    open spec fn canonical(v: ColumnView) -> ColumnView {
        match v {
            ColumnView::Sourced(c) => ColumnView::Sourced(
                SourcedView { annotations: stable_sort_opt::<Annotation>(c.annotations), ..c },
            ),
            _ => v,
        }
    }

    open spec fn is_canonical(v: ColumnView) -> bool {
        match v {
            ColumnView::Sourced(c) => sorted_opt::<Annotation>(c.annotations),
            _ => true,
        }
    }

    /// Sorts the annotations of a sourced column.
    fn recursive_sort(&mut self) {
        match self {
            Column::Sourced(c) => {
                sort_opt(&mut c.annotations);
            },
            _ => {},
        }
    }

    proof fn lemma_canonical_sorted(v: ColumnView) {
        if let ColumnView::Sourced(c) = v {
            lemma_stable_sort_opt_sorted::<Annotation>(c.annotations);
        }
    }

    proof fn lemma_canonical_fixpoint(v: ColumnView) {
        if let ColumnView::Sourced(c) = v {
            lemma_stable_sort_opt_fixpoint::<Annotation>(c.annotations);
        }
    }
}

impl Wire for Column {
    open spec fn decode(j: JsonView) -> Result<ColumnView, ParseErrorView> {
        let first = Calculated::decode(j);
        let second = Sourced::decode(j);
        let third = CalculatedTableColumn::decode(j);
        if first is Ok {
            Ok(ColumnView::Calculated(first->Ok_0))
        } else if second is Ok {
            Ok(ColumnView::Sourced(second->Ok_0))
        } else if third is Ok {
            Ok(ColumnView::CalculatedTableColumn(third->Ok_0))
        } else {
            Err(failure(ErrorKind::VariantMismatch, Entity::Column, Seq::empty()))
        }
    }

    open spec fn encode(v: ColumnView) -> JsonView {
        match v {
            ColumnView::Calculated(c) => Calculated::encode(c),
            ColumnView::Sourced(c) => Sourced::encode(c),
            ColumnView::CalculatedTableColumn(c) => CalculatedTableColumn::encode(c),
        }
    }

    fn from_json(j: &Json) -> (r: Result<Column, ParseError>) {
        match Calculated::from_json(j) {
            Ok(c) => Ok(Column::Calculated(c)),
            Err(_) => match Sourced::from_json(j) {
                Ok(c) => Ok(Column::Sourced(c)),
                Err(_) => match CalculatedTableColumn::from_json(j) {
                    Ok(c) => Ok(Column::CalculatedTableColumn(c)),
                    Err(_) => {
                        proof {
                            reveal_strlit("");
                            assert(""@ =~= Seq::empty());
                        }
                        Err(ParseError::new(ErrorKind::VariantMismatch, Entity::Column, ""))
                    },
                },
            },
        }
    }

    fn to_json(&self) -> (j: Json) {
        match self {
            Column::Calculated(c) => c.to_json(),
            Column::Sourced(c) => c.to_json(),
            Column::CalculatedTableColumn(c) => c.to_json(),
        }
    }

    open spec fn strict_keys() -> Option<Seq<Seq<char>>> {
        Some(
            names(
                [
                    "name", "dataType", "dataCategory", "isHidden", "type", "expression",
                    "isDataTypeInferred", "formatString", "displayFolder", "sourceColumn",
                    "description", "annotations", "sortByColumn", "isNameInferred",
                ],
            ),
        )
    }

    proof fn lemma_refuses_unknown_key(fields: Seq<(Seq<char>, JsonView)>, i: int) {
        let all = names(
            [
                "name", "dataType", "dataCategory", "isHidden", "type", "expression",
                "isDataTypeInferred", "formatString", "displayFolder", "sourceColumn",
                "description", "annotations", "sortByColumn", "isNameInferred",
            ],
        );
        let calculated = names(
            [
                "name", "dataType", "dataCategory", "isHidden", "type", "expression",
                "isDataTypeInferred", "formatString", "displayFolder",
            ],
        );
        let sourced = names(
            [
                "name", "dataType", "dataCategory", "isHidden", "sourceColumn", "description",
                "formatString", "annotations", "sortByColumn",
            ],
        );
        let table_column = names(
            [
                "name", "dataType", "dataCategory", "isHidden", "type", "isNameInferred",
                "isDataTypeInferred", "formatString", "sourceColumn",
            ],
        );
        if !all.contains(fields[i].0) {
            assert forall|k: int| 0 <= k < calculated.len(
                ) implies all.contains(#[trigger] calculated[k],
            ) by {
                assert(all[0] == calculated[0]);
                assert(all[1] == calculated[1]);
                assert(all[2] == calculated[2]);
                assert(all[3] == calculated[3]);
                assert(all[4] == calculated[4]);
                assert(all[5] == calculated[5]);
                assert(all[6] == calculated[6]);
                assert(all[7] == calculated[7]);
                assert(all[8] == calculated[8]);
            }
            assert forall|k: int| 0 <= k < sourced.len(
                ) implies all.contains(#[trigger] sourced[k],
            ) by {
                assert(all[0] == sourced[0]);
                assert(all[1] == sourced[1]);
                assert(all[2] == sourced[2]);
                assert(all[3] == sourced[3]);
                assert(all[9] == sourced[4]);
                assert(all[10] == sourced[5]);
                assert(all[7] == sourced[6]);
                assert(all[11] == sourced[7]);
                assert(all[12] == sourced[8]);
            }
            assert forall|k: int| 0 <= k < table_column.len(
                ) implies all.contains(#[trigger] table_column[k],
            ) by {
                assert(all[0] == table_column[0]);
                assert(all[1] == table_column[1]);
                assert(all[2] == table_column[2]);
                assert(all[3] == table_column[3]);
                assert(all[4] == table_column[4]);
                assert(all[13] == table_column[5]);
                assert(all[6] == table_column[6]);
                assert(all[7] == table_column[7]);
                assert(all[9] == table_column[8]);
            }
            lemma_unknown_at(fields, all, calculated, i);
            lemma_unknown_at(fields, all, sourced, i);
            lemma_unknown_at(fields, all, table_column, i);
        }
    }

    open spec fn declared_keys() -> Option<Seq<Seq<char>>> {
        Self::strict_keys()
    }

    proof fn lemma_refuses_repeated_key(fields: Seq<(Seq<char>, JsonView)>, i: int, j: int) {
        lemma_key_refused(
            fields,
            names([
                "name", "dataType", "dataCategory", "isHidden", "type", "expression",
                "isDataTypeInferred", "formatString", "displayFolder",
            ]),
            i,
            j,
        );
        lemma_key_refused(
            fields,
            names([
                "name", "dataType", "dataCategory", "isHidden", "sourceColumn", "description",
                "formatString", "annotations", "sortByColumn",
            ]),
            i,
            j,
        );
        lemma_key_refused(
            fields,
            names([
                "name", "dataType", "dataCategory", "isHidden", "type", "isNameInferred",
                "isDataTypeInferred", "formatString", "sourceColumn",
            ]),
            i,
            j,
        );
    }

    proof fn lemma_round_trip(v: ColumnView) {
        let calculated = names(
            [
                "name", "dataType", "dataCategory", "isHidden", "type", "expression",
                "isDataTypeInferred", "formatString", "displayFolder",
            ],
        );
        let sourced = names(
            [
                "name", "dataType", "dataCategory", "isHidden", "sourceColumn", "description",
                "formatString", "annotations", "sortByColumn",
            ],
        );
        reveal_strlit("name");
        reveal_strlit("dataType");
        reveal_strlit("dataCategory");
        reveal_strlit("isHidden");
        reveal_strlit("type");
        reveal_strlit("expression");
        reveal_strlit("isDataTypeInferred");
        reveal_strlit("formatString");
        reveal_strlit("displayFolder");
        reveal_strlit("sourceColumn");
        reveal_strlit("description");
        reveal_strlit("annotations");
        reveal_strlit("sortByColumn");
        assert("name"@.len() == 4);
        assert("dataType"@.len() == 8);
        assert("dataCategory"@.len() == 12);
        assert("isHidden"@.len() == 8);
        assert("type"@.len() == 4);
        assert("expression"@.len() == 10);
        assert("isDataTypeInferred"@.len() == 18);
        assert("formatString"@.len() == 12);
        assert("displayFolder"@.len() == 13);
        assert("sourceColumn"@.len() == 12);
        assert("description"@.len() == 11);
        assert("annotations"@.len() == 11);
        assert("sortByColumn"@.len() == 12);
        assert("name"@[0] != "type"@[0]);
        assert("dataType"@[0] != "isHidden"@[0]);
        assert("dataCategory"@[0] != "formatString"@[0]);
        assert("dataCategory"@[0] != "sourceColumn"@[0]);
        assert("dataCategory"@[0] != "sortByColumn"@[0]);
        assert("formatString"@[0] != "sourceColumn"@[0]);
        assert("formatString"@[0] != "sortByColumn"@[0]);
        assert("sourceColumn"@[2] != "sortByColumn"@[2]);
        assert("description"@[0] != "annotations"@[0]);
        match v {
            ColumnView::Calculated(c) => {
                Calculated::lemma_round_trip(c);
            },
            ColumnView::Sourced(c) => {
                Sourced::lemma_round_trip(c);
                Sourced::lemma_writes_source_column(c);
                assert(!calculated.contains("sourceColumn"@));
                lemma_unknown_if_present(
                    present(Sourced::entries(c)),
                    calculated,
                    "sourceColumn"@,
                );
            },
            ColumnView::CalculatedTableColumn(c) => {
                CalculatedTableColumn::lemma_round_trip(c);
                CalculatedTableColumn::lemma_writes_source_column(c);
                assert(!calculated.contains("sourceColumn"@));
                lemma_unknown_if_present(
                    present(CalculatedTableColumn::entries(c)),
                    calculated,
                    "sourceColumn"@,
                );
                CalculatedTableColumn::lemma_writes_type(c);
                assert(!sourced.contains("type"@));
                lemma_unknown_if_present(
                    present(CalculatedTableColumn::entries(c)),
                    sourced,
                    "type"@,
                );
            },
        }
    }
}

/// What every column holds. Its fields stand beside the others in the object
/// of the column.
#[derive(Debug, PartialEq, Eq, Clone)]
pub struct CommonColumn {
    pub name: String,
    pub data_type: String,
    /// Left out of the JSON form when `Uncategorized`, and read as such when absent.
    pub data_category: DataCategory,
    pub is_hidden: Option<bool>,
}

/// The model of a [`CommonColumn`].
pub struct CommonColumnView {
    pub name: Seq<char>,
    pub data_type: Seq<char>,
    pub data_category: DataCategory,
    pub is_hidden: Option<bool>,
}

impl DeepView for CommonColumn {
    type V = CommonColumnView;

    open spec fn deep_view(&self) -> CommonColumnView {
        CommonColumnView {
            name: self.name@,
            data_type: self.data_type@,
            data_category: self.data_category,
            is_hidden: self.is_hidden,
        }
    }
}

impl CommonColumn {
    /// The keys of this group of fields in written order, each with the value
    /// written under it, or `None` where the entry is left out.
    pub open spec fn entries(v: CommonColumnView) -> Seq<(Seq<char>, Option<JsonView>)> {
        seq![
            ("name"@, Some(JsonView::Text(v.name))),
            ("dataType"@, Some(JsonView::Text(v.data_type))),
            ("dataCategory"@, item_unless::<DataCategory>(
                v.data_category,
                DataCategory::Uncategorized),
            ),
            ("isHidden"@, opt_flag_json(v.is_hidden)),
        ]
    }

    /// What is read for this group of fields from the entries of the object
    /// that holds them.
    pub open spec fn read(fields: Seq<(Seq<char>, JsonView)>) -> Result<
        CommonColumnView,
        ParseErrorView,
    > {
        let name = text_at(fields, "name"@, Entity::Column);
        let data_type = text_at(fields, "dataType"@, Entity::Column);
        let data_category = item_or_at::<DataCategory>(
            fields,
            "dataCategory"@,
            DataCategory::Uncategorized,
        );
        let is_hidden = opt_flag_at(fields, "isHidden"@, Entity::Column);
        if name is Err {
            Err(name->Err_0)
        } else if data_type is Err {
            Err(data_type->Err_0)
        } else if data_category is Err {
            Err(data_category->Err_0)
        } else if is_hidden is Err {
            Err(is_hidden->Err_0)
        } else {
            Ok(
                CommonColumnView {
                    name: name->Ok_0,
                    data_type: data_type->Ok_0,
                    data_category: data_category->Ok_0,
                    is_hidden: is_hidden->Ok_0,
                },
            )
        }
    }

    /// Reads this group of fields from the entries of the object that holds them.
    pub fn read_from(fields: &Vec<(String, Json)>) -> (r: Result<CommonColumn, ParseError>)
        ensures
            outcome(r) == Self::read(fields.deep_view()),
    {
        let name = read_text(fields, "name", Entity::Column)?;
        let data_type = read_text(fields, "dataType", Entity::Column)?;
        let data_category = read_item_or::<DataCategory>(
            fields,
            "dataCategory",
            DataCategory::Uncategorized,
        )?;
        let is_hidden = read_opt_flag(fields, "isHidden", Entity::Column)?;
        Ok(CommonColumn { name, data_type, data_category, is_hidden })
    }

    /// Adds the entries of this group of fields to `w`.
    pub fn write_into(&self, w: ObjectWriter) -> (r: ObjectWriter)
        ensures
            r.table() == w.table() + Self::entries(self.deep_view()),
    {
        let r = w
            .put("name", Json::text(self.name.as_str()))
            .put("dataType", Json::text(self.data_type.as_str()))
            .put_opt(
                "dataCategory",
                write_unless(self.data_category.is_uncategorized(), &self.data_category),
            )
            .put_opt("isHidden", write_opt_flag(self.is_hidden));
        assert(r.table() =~= w.table() + Self::entries(self.deep_view()));
        r
    }
}

/// What kind of thing the values of a column stand for.
#[derive(Debug, PartialEq, Eq, Clone, Copy, Structural)]
pub enum DataCategory {
    Uncategorized,
    Address,
    City,
    Continent,
    Country,
    County,
    Image,
    ImageUrl,
    Latitude,
    Longitude,
    Organization,
    Place,
    PostalCode,
    StateOrProvince,
    WebUrl,
}

impl DeepView for DataCategory {
    type V = DataCategory;

    open spec fn deep_view(&self) -> DataCategory {
        *self
    }
}

impl DataCategory {
    /// The name under which the value is written.
    pub open spec fn label(self) -> Seq<char> {
        match self {
            DataCategory::Uncategorized => "Uncategorized"@,
            DataCategory::Address => "Address"@,
            DataCategory::City => "City"@,
            DataCategory::Continent => "Continent"@,
            DataCategory::Country => "Country"@,
            DataCategory::County => "County"@,
            DataCategory::Image => "Image"@,
            DataCategory::ImageUrl => "ImageUrl"@,
            DataCategory::Latitude => "Latitude"@,
            DataCategory::Longitude => "Longitude"@,
            DataCategory::Organization => "Organization"@,
            DataCategory::Place => "Place"@,
            DataCategory::PostalCode => "PostalCode"@,
            DataCategory::StateOrProvince => "StateOrProvince"@,
            DataCategory::WebUrl => "WebUrl"@,
        }
    }
}

impl Wire for DataCategory {
    open spec fn decode(j: JsonView) -> Result<DataCategory, ParseErrorView> {
        match j {
            JsonView::Text(t) => if t == "Uncategorized"@ {
                Ok(DataCategory::Uncategorized)
            } else if t == "Address"@ {
                Ok(DataCategory::Address)
            } else if t == "City"@ {
                Ok(DataCategory::City)
            } else if t == "Continent"@ {
                Ok(DataCategory::Continent)
            } else if t == "Country"@ {
                Ok(DataCategory::Country)
            } else if t == "County"@ {
                Ok(DataCategory::County)
            } else if t == "Image"@ {
                Ok(DataCategory::Image)
            } else if t == "ImageUrl"@ {
                Ok(DataCategory::ImageUrl)
            } else if t == "Latitude"@ {
                Ok(DataCategory::Latitude)
            } else if t == "Longitude"@ {
                Ok(DataCategory::Longitude)
            } else if t == "Organization"@ {
                Ok(DataCategory::Organization)
            } else if t == "Place"@ {
                Ok(DataCategory::Place)
            } else if t == "PostalCode"@ {
                Ok(DataCategory::PostalCode)
            } else if t == "StateOrProvince"@ {
                Ok(DataCategory::StateOrProvince)
            } else if t == "WebUrl"@ {
                Ok(DataCategory::WebUrl)
            } else {
                Err(failure(ErrorKind::VariantMismatch, Entity::DataCategory, t))
            },
            _ => Err(failure(ErrorKind::TypeMismatch, Entity::DataCategory, Seq::empty())),
        }
    }

    open spec fn encode(v: DataCategory) -> JsonView {
        JsonView::Text(v.label())
    }

    fn from_json(j: &Json) -> (r: Result<DataCategory, ParseError>) {
        match j.as_text() {
            Some(t) => if str_eq(t.as_str(), "Uncategorized") {
                Ok(DataCategory::Uncategorized)
            } else if str_eq(t.as_str(), "Address") {
                Ok(DataCategory::Address)
            } else if str_eq(t.as_str(), "City") {
                Ok(DataCategory::City)
            } else if str_eq(t.as_str(), "Continent") {
                Ok(DataCategory::Continent)
            } else if str_eq(t.as_str(), "Country") {
                Ok(DataCategory::Country)
            } else if str_eq(t.as_str(), "County") {
                Ok(DataCategory::County)
            } else if str_eq(t.as_str(), "Image") {
                Ok(DataCategory::Image)
            } else if str_eq(t.as_str(), "ImageUrl") {
                Ok(DataCategory::ImageUrl)
            } else if str_eq(t.as_str(), "Latitude") {
                Ok(DataCategory::Latitude)
            } else if str_eq(t.as_str(), "Longitude") {
                Ok(DataCategory::Longitude)
            } else if str_eq(t.as_str(), "Organization") {
                Ok(DataCategory::Organization)
            } else if str_eq(t.as_str(), "Place") {
                Ok(DataCategory::Place)
            } else if str_eq(t.as_str(), "PostalCode") {
                Ok(DataCategory::PostalCode)
            } else if str_eq(t.as_str(), "StateOrProvince") {
                Ok(DataCategory::StateOrProvince)
            } else if str_eq(t.as_str(), "WebUrl") {
                Ok(DataCategory::WebUrl)
            } else {
                Err(ParseError::new(ErrorKind::VariantMismatch, Entity::DataCategory, t.as_str()))
            },
            None => {
                proof {
                    reveal_strlit("");
                    assert(""@ =~= Seq::empty());
                }
                Err(ParseError::new(ErrorKind::TypeMismatch, Entity::DataCategory, ""))
            },
        }
    }

    fn to_json(&self) -> (j: Json) {
        match self {
            DataCategory::Uncategorized => Json::text("Uncategorized"),
            DataCategory::Address => Json::text("Address"),
            DataCategory::City => Json::text("City"),
            DataCategory::Continent => Json::text("Continent"),
            DataCategory::Country => Json::text("Country"),
            DataCategory::County => Json::text("County"),
            DataCategory::Image => Json::text("Image"),
            DataCategory::ImageUrl => Json::text("ImageUrl"),
            DataCategory::Latitude => Json::text("Latitude"),
            DataCategory::Longitude => Json::text("Longitude"),
            DataCategory::Organization => Json::text("Organization"),
            DataCategory::Place => Json::text("Place"),
            DataCategory::PostalCode => Json::text("PostalCode"),
            DataCategory::StateOrProvince => Json::text("StateOrProvince"),
            DataCategory::WebUrl => Json::text("WebUrl"),
        }
    }

    open spec fn strict_keys() -> Option<Seq<Seq<char>>> {
        None
    }

    open spec fn declared_keys() -> Option<Seq<Seq<char>>> {
        None
    }

    proof fn lemma_refuses_unknown_key(fields: Seq<(Seq<char>, JsonView)>, i: int) {
    }

    proof fn lemma_refuses_repeated_key(fields: Seq<(Seq<char>, JsonView)>, i: int, j: int) {
    }

    proof fn lemma_round_trip(v: DataCategory) {
        reveal_strlit("Uncategorized");
        reveal_strlit("Address");
        reveal_strlit("City");
        reveal_strlit("Continent");
        reveal_strlit("Country");
        reveal_strlit("County");
        reveal_strlit("Image");
        reveal_strlit("ImageUrl");
        reveal_strlit("Latitude");
        reveal_strlit("Longitude");
        reveal_strlit("Organization");
        reveal_strlit("Place");
        reveal_strlit("PostalCode");
        reveal_strlit("StateOrProvince");
        reveal_strlit("WebUrl");
        assert("Uncategorized"@.len() == 13);
        assert("Address"@.len() == 7);
        assert("City"@.len() == 4);
        assert("Continent"@.len() == 9);
        assert("Country"@.len() == 7);
        assert("County"@.len() == 6);
        assert("Image"@.len() == 5);
        assert("ImageUrl"@.len() == 8);
        assert("Latitude"@.len() == 8);
        assert("Longitude"@.len() == 9);
        assert("Organization"@.len() == 12);
        assert("Place"@.len() == 5);
        assert("PostalCode"@.len() == 10);
        assert("StateOrProvince"@.len() == 15);
        assert("WebUrl"@.len() == 6);
        assert("Address"@[0] != "Country"@[0]);
        assert("Continent"@[0] != "Longitude"@[0]);
        assert("County"@[0] != "WebUrl"@[0]);
        assert("Image"@[0] != "Place"@[0]);
        assert("ImageUrl"@[0] != "Latitude"@[0]);
    }
}

impl Default for DataCategory {
    fn default() -> (r: DataCategory)
        ensures
            r == DataCategory::Uncategorized,
    {
        DataCategory::Uncategorized
    }
}

impl DataCategory {
    /// Whether the category is `Uncategorized`.
    pub fn is_uncategorized(&self) -> (r: bool)
        ensures
            r == (*self == DataCategory::Uncategorized),
    {
        matches!(self, DataCategory::Uncategorized)
    }
}

/// What every column tells of itself.
pub trait Attributes: DeepView {
    /// The name of the column, on its model.
    spec fn name_of(v: <Self as DeepView>::V) -> Seq<char>;

    /// The data type of the column, on its model.
    spec fn data_type_of(v: <Self as DeepView>::V) -> Seq<char>;

    /// Whether the column is hidden, on its model: an absent flag counts as
    /// not hidden.
    spec fn hidden(v: <Self as DeepView>::V) -> bool;

    /// The name of the column.
    fn name(&self) -> (r: String)
        ensures
            r@ == Self::name_of(self.deep_view()),
    ;

    /// The data type of the column.
    fn data_type(&self) -> (r: String)
        ensures
            r@ == Self::data_type_of(self.deep_view()),
    ;

    /// Whether the column is hidden.
    fn is_hidden(&self) -> (r: bool)
        ensures
            r == Self::hidden(self.deep_view()),
    ;
}

impl Attributes for CommonColumn {
    open spec fn name_of(v: CommonColumnView) -> Seq<char> {
        v.name
    }

    open spec fn data_type_of(v: CommonColumnView) -> Seq<char> {
        v.data_type
    }

    open spec fn hidden(v: CommonColumnView) -> bool {
        v.is_hidden == Some(true)
    }

    fn name(&self) -> (r: String) {
        assert(Self::name_of(self.deep_view()) == self.name@);
        self.name.clone()
    }

    fn data_type(&self) -> (r: String) {
        assert(Self::data_type_of(self.deep_view()) == self.data_type@);
        self.data_type.clone()
    }

    fn is_hidden(&self) -> (r: bool) {
        match self.is_hidden {
            Some(hidden) => hidden,
            None => false,
        }
    }
}

/// A column whose values are computed by an expression.
#[derive(Debug, PartialEq, Eq, Clone)]
pub struct Calculated {
    pub common: CommonColumn,
    pub type_: String,
    pub expression: Expression,
    pub is_data_type_inferred: Option<bool>,
    pub format_string: Option<String>,
    pub display_folder: Option<String>,
}

/// The model of a [`Calculated`].
pub struct CalculatedView {
    pub common: CommonColumnView,
    pub type_: Seq<char>,
    pub expression: ExpressionView,
    pub is_data_type_inferred: Option<bool>,
    pub format_string: Option<Seq<char>>,
    pub display_folder: Option<Seq<char>>,
}

impl DeepView for Calculated {
    type V = CalculatedView;

    open spec fn deep_view(&self) -> CalculatedView {
        CalculatedView {
            common: self.common.deep_view(),
            type_: self.type_@,
            expression: self.expression.deep_view(),
            is_data_type_inferred: self.is_data_type_inferred,
            format_string: self.format_string.deep_view(),
            display_folder: self.display_folder.deep_view(),
        }
    }
}

impl Calculated {
    /// The keys of the record in written order, each with the value written
    /// under it, or `None` where the entry is left out.
    pub open spec fn entries(v: CalculatedView) -> Seq<(Seq<char>, Option<JsonView>)> {
        CommonColumn::entries(v.common) + seq![
            ("type"@, Some(JsonView::Text(v.type_))),
            ("expression"@, Some(Expression::encode(v.expression))),
            ("isDataTypeInferred"@, opt_flag_json(v.is_data_type_inferred)),
            ("formatString"@, opt_text_json(v.format_string)),
            ("displayFolder"@, opt_text_json(v.display_folder)),
        ]
    }

    /// Each key of the record is read back with the value written under it,
    /// and no key is written that the record does not declare.
    pub proof fn lemma_entries(v: CalculatedView)
        ensures
            lookup(present(Self::entries(v)), "name"@) == Self::entries(v)[0].1,
            lookup(present(Self::entries(v)), "dataType"@) == Self::entries(v)[1].1,
            lookup(present(Self::entries(v)), "dataCategory"@) == Self::entries(v)[2].1,
            lookup(present(Self::entries(v)), "isHidden"@) == Self::entries(v)[3].1,
            lookup(present(Self::entries(v)), "type"@) == Self::entries(v)[4].1,
            lookup(present(Self::entries(v)), "expression"@) == Self::entries(v)[5].1,
            lookup(present(Self::entries(v)), "isDataTypeInferred"@) == Self::entries(v)[6].1,
            lookup(present(Self::entries(v)), "formatString"@) == Self::entries(v)[7].1,
            lookup(present(Self::entries(v)), "displayFolder"@) == Self::entries(v)[8].1,
            refused_key(
                present(Self::entries(v)),
                Entity::Column,
                names([
                    "name", "dataType", "dataCategory", "isHidden", "type", "expression",
                    "isDataTypeInferred", "formatString", "displayFolder",
                ]),
            ) is None,
    {
        let table = Self::entries(v);
        reveal_strlit("name");
        reveal_strlit("dataType");
        reveal_strlit("dataCategory");
        reveal_strlit("isHidden");
        reveal_strlit("type");
        reveal_strlit("expression");
        reveal_strlit("isDataTypeInferred");
        reveal_strlit("formatString");
        reveal_strlit("displayFolder");
        assert("name"@.len() == 4);
        assert("dataType"@.len() == 8);
        assert("dataCategory"@.len() == 12);
        assert("isHidden"@.len() == 8);
        assert("type"@.len() == 4);
        assert("expression"@.len() == 10);
        assert("isDataTypeInferred"@.len() == 18);
        assert("formatString"@.len() == 12);
        assert("displayFolder"@.len() == 13);
        assert("name"@[0] != "type"@[0]);
        assert("dataType"@[0] != "isHidden"@[0]);
        assert("dataCategory"@[0] != "formatString"@[0]);
        assert(table.len() == 9);
        assert(keys_distinct(table));
        let allowed = names(
            [
                "name", "dataType", "dataCategory", "isHidden", "type", "expression",
                "isDataTypeInferred", "formatString", "displayFolder",
            ],
        );
        assert forall|i: int| 0 <= i < table.len() implies allowed.contains(
            (#[trigger] table[i]).0,
        ) by {
            assert(allowed[i] == table[i].0);
        }
        lemma_present_known(table, allowed);
        lemma_lookup_present(table, 0);
        lemma_lookup_present(table, 1);
        lemma_lookup_present(table, 2);
        lemma_lookup_present(table, 3);
        lemma_lookup_present(table, 4);
        lemma_lookup_present(table, 5);
        lemma_lookup_present(table, 6);
        lemma_lookup_present(table, 7);
        lemma_lookup_present(table, 8);
    }
}

impl Wire for Calculated {
    open spec fn decode(j: JsonView) -> Result<CalculatedView, ParseErrorView> {
        match strict_object_of(
            j,
            Entity::Column,
            names([
                "name", "dataType", "dataCategory", "isHidden", "type", "expression",
                "isDataTypeInferred", "formatString", "displayFolder",
            ]),
        ) {
            Err(e) => Err(e),
            Ok(fields) => {
                let common = CommonColumn::read(fields);
                let type_ = text_at(fields, "type"@, Entity::Column);
                let expression = item_at::<Expression>(fields, "expression"@, Entity::Column);
                let is_data_type_inferred = opt_flag_at(
                    fields,
                    "isDataTypeInferred"@,
                    Entity::Column,
                );
                let format_string = opt_text_at(fields, "formatString"@, Entity::Column);
                let display_folder = opt_text_at(fields, "displayFolder"@, Entity::Column);
                if common is Err {
                    Err(common->Err_0)
                } else if type_ is Err {
                    Err(type_->Err_0)
                } else if expression is Err {
                    Err(expression->Err_0)
                } else if is_data_type_inferred is Err {
                    Err(is_data_type_inferred->Err_0)
                } else if format_string is Err {
                    Err(format_string->Err_0)
                } else if display_folder is Err {
                    Err(display_folder->Err_0)
                } else {
                    Ok(
                        CalculatedView {
                            common: common->Ok_0,
                            type_: type_->Ok_0,
                            expression: expression->Ok_0,
                            is_data_type_inferred: is_data_type_inferred->Ok_0,
                            format_string: format_string->Ok_0,
                            display_folder: display_folder->Ok_0,
                        },
                    )
                }
            },
        }
    }

    open spec fn encode(v: CalculatedView) -> JsonView {
        JsonView::Object(present(Self::entries(v)))
    }

    fn from_json(j: &Json) -> (r: Result<Calculated, ParseError>) {
        let fields = strict_fields_of(
            j,
            Entity::Column,
            &[
                "name", "dataType", "dataCategory", "isHidden", "type", "expression",
                "isDataTypeInferred", "formatString", "displayFolder",
            ],
        )?;
        let common = CommonColumn::read_from(fields)?;
        let type_ = read_text(fields, "type", Entity::Column)?;
        let expression = read_item::<Expression>(fields, "expression", Entity::Column)?;
        let is_data_type_inferred = read_opt_flag(fields, "isDataTypeInferred", Entity::Column)?;
        let format_string = read_opt_text(fields, "formatString", Entity::Column)?;
        let display_folder = read_opt_text(fields, "displayFolder", Entity::Column)?;
        Ok(
            Calculated {
                common,
                type_,
                expression,
                is_data_type_inferred,
                format_string,
                display_folder,
            },
        )
    }

    fn to_json(&self) -> (j: Json) {
        let w = self.common.write_into(ObjectWriter::new())
            .put("type", Json::text(self.type_.as_str()))
            .put("expression", self.expression.to_json())
            .put_opt("isDataTypeInferred", write_opt_flag(self.is_data_type_inferred))
            .put_opt("formatString", write_opt_text(&self.format_string))
            .put_opt("displayFolder", write_opt_text(&self.display_folder));
        assert(w.table() =~= Self::entries(self.deep_view()));
        w.finish()
    }

    open spec fn strict_keys() -> Option<Seq<Seq<char>>> {
        Some(
            names([
                "name", "dataType", "dataCategory", "isHidden", "type", "expression",
                "isDataTypeInferred", "formatString", "displayFolder",
            ]),
        )
    }

    open spec fn declared_keys() -> Option<Seq<Seq<char>>> {
        Some(
            names([
                "name", "dataType", "dataCategory", "isHidden", "type", "expression",
                "isDataTypeInferred", "formatString", "displayFolder",
            ]),
        )
    }

    proof fn lemma_refuses_unknown_key(fields: Seq<(Seq<char>, JsonView)>, i: int) {
        lemma_first_unknown_none(
            fields,
            names([
                "name", "dataType", "dataCategory", "isHidden", "type", "expression",
                "isDataTypeInferred", "formatString", "displayFolder",
            ]),
        );
    }

    proof fn lemma_refuses_repeated_key(fields: Seq<(Seq<char>, JsonView)>, i: int, j: int) {
        let declared = names(
            [
                "name", "dataType", "dataCategory", "isHidden", "type", "expression",
                "isDataTypeInferred", "formatString", "displayFolder",
            ],
        );
        if declared.contains(fields[i].0) {
            lemma_repeated_at(fields, declared, i, j);
        }
    }

    proof fn lemma_round_trip(v: CalculatedView) {
        Self::lemma_entries(v);
        let fields = present(Self::entries(v));
        let object = strict_object_of(
            Self::encode(v),
            Entity::Column,
            names([
                "name", "dataType", "dataCategory", "isHidden", "type", "expression",
                "isDataTypeInferred", "formatString", "displayFolder",
            ]),
        );
        assert(object is Ok && object->Ok_0 == fields);
        let common = CommonColumn::read(fields);
        let type_ = text_at(fields, "type"@, Entity::Column);
        let expression = item_at::<Expression>(fields, "expression"@, Entity::Column);
        let is_data_type_inferred = opt_flag_at(fields, "isDataTypeInferred"@, Entity::Column);
        let format_string = opt_text_at(fields, "formatString"@, Entity::Column);
        let display_folder = opt_text_at(fields, "displayFolder"@, Entity::Column);
        assert(common == Ok::<CommonColumnView, ParseErrorView>(v.common)) by {
            DataCategory::lemma_round_trip(v.common.data_category);
        }
        assert(type_ == Ok::<Seq<char>, ParseErrorView>(v.type_));
        assert(expression == Ok::<ExpressionView, ParseErrorView>(v.expression)) by {
            Expression::lemma_round_trip(v.expression);
        }
        assert(is_data_type_inferred->Ok_0 == v.is_data_type_inferred
            && is_data_type_inferred is Ok);
        assert(format_string == Ok::<Option<Seq<char>>, ParseErrorView>(v.format_string));
        assert(display_folder == Ok::<Option<Seq<char>>, ParseErrorView>(v.display_folder));
    }
}

impl Expressive for Calculated {
    open spec fn expression_text(v: CalculatedView) -> Option<Seq<char>> {
        Some(rendered(v.expression))
    }

    fn expression(&self) -> (r: Option<String>) {
        Some(self.expression.to_string())
    }
}

impl Attributes for Calculated {
    open spec fn name_of(v: CalculatedView) -> Seq<char> {
        v.common.name
    }

    open spec fn data_type_of(v: CalculatedView) -> Seq<char> {
        v.common.data_type
    }

    open spec fn hidden(v: CalculatedView) -> bool {
        v.common.is_hidden == Some(true)
    }

    fn name(&self) -> (r: String) {
        assert(Self::name_of(self.deep_view()) == self.common.name@);
        self.common.name()
    }

    fn data_type(&self) -> (r: String) {
        assert(Self::data_type_of(self.deep_view()) == self.common.data_type@);
        self.common.data_type()
    }

    fn is_hidden(&self) -> (r: bool) {
        self.common.is_hidden()
    }
}

/// A column of a calculated table.
#[derive(Debug, PartialEq, Eq, Clone)]
pub struct CalculatedTableColumn {
    pub common: CommonColumn,
    pub type_: String,
    pub is_name_inferred: Option<bool>,
    pub is_data_type_inferred: Option<bool>,
    pub format_string: Option<String>,
    pub source_column: String,
}

/// The model of a [`CalculatedTableColumn`].
pub struct CalculatedTableColumnView {
    pub common: CommonColumnView,
    pub type_: Seq<char>,
    pub is_name_inferred: Option<bool>,
    pub is_data_type_inferred: Option<bool>,
    pub format_string: Option<Seq<char>>,
    pub source_column: Seq<char>,
}

impl DeepView for CalculatedTableColumn {
    type V = CalculatedTableColumnView;

    open spec fn deep_view(&self) -> CalculatedTableColumnView {
        CalculatedTableColumnView {
            common: self.common.deep_view(),
            type_: self.type_@,
            is_name_inferred: self.is_name_inferred,
            is_data_type_inferred: self.is_data_type_inferred,
            format_string: self.format_string.deep_view(),
            source_column: self.source_column@,
        }
    }
}

impl CalculatedTableColumn {
    /// The keys of the record in written order, each with the value written
    /// under it, or `None` where the entry is left out.
    pub open spec fn entries(v: CalculatedTableColumnView) -> Seq<(Seq<char>, Option<JsonView>)> {
        CommonColumn::entries(v.common) + seq![
            ("type"@, Some(JsonView::Text(v.type_))),
            ("isNameInferred"@, opt_flag_json(v.is_name_inferred)),
            ("isDataTypeInferred"@, opt_flag_json(v.is_data_type_inferred)),
            ("formatString"@, opt_text_json(v.format_string)),
            ("sourceColumn"@, Some(JsonView::Text(v.source_column))),
        ]
    }

    /// Each key of the record is read back with the value written under it,
    /// and no key is written that the record does not declare.
    pub proof fn lemma_entries(v: CalculatedTableColumnView)
        ensures
            lookup(present(Self::entries(v)), "name"@) == Self::entries(v)[0].1,
            lookup(present(Self::entries(v)), "dataType"@) == Self::entries(v)[1].1,
            lookup(present(Self::entries(v)), "dataCategory"@) == Self::entries(v)[2].1,
            lookup(present(Self::entries(v)), "isHidden"@) == Self::entries(v)[3].1,
            lookup(present(Self::entries(v)), "type"@) == Self::entries(v)[4].1,
            lookup(present(Self::entries(v)), "isNameInferred"@) == Self::entries(v)[5].1,
            lookup(present(Self::entries(v)), "isDataTypeInferred"@) == Self::entries(v)[6].1,
            lookup(present(Self::entries(v)), "formatString"@) == Self::entries(v)[7].1,
            lookup(present(Self::entries(v)), "sourceColumn"@) == Self::entries(v)[8].1,
            refused_key(
                present(Self::entries(v)),
                Entity::Column,
                names([
                    "name", "dataType", "dataCategory", "isHidden", "type", "isNameInferred",
                    "isDataTypeInferred", "formatString", "sourceColumn",
                ]),
            ) is None,
    {
        let table = Self::entries(v);
        reveal_strlit("name");
        reveal_strlit("dataType");
        reveal_strlit("dataCategory");
        reveal_strlit("isHidden");
        reveal_strlit("type");
        reveal_strlit("isNameInferred");
        reveal_strlit("isDataTypeInferred");
        reveal_strlit("formatString");
        reveal_strlit("sourceColumn");
        assert("name"@.len() == 4);
        assert("dataType"@.len() == 8);
        assert("dataCategory"@.len() == 12);
        assert("isHidden"@.len() == 8);
        assert("type"@.len() == 4);
        assert("isNameInferred"@.len() == 14);
        assert("isDataTypeInferred"@.len() == 18);
        assert("formatString"@.len() == 12);
        assert("sourceColumn"@.len() == 12);
        assert("name"@[0] != "type"@[0]);
        assert("dataType"@[0] != "isHidden"@[0]);
        assert("dataCategory"@[0] != "formatString"@[0]);
        assert("dataCategory"@[0] != "sourceColumn"@[0]);
        assert("formatString"@[0] != "sourceColumn"@[0]);
        assert(table.len() == 9);
        assert(keys_distinct(table));
        let allowed = names(
            [
                "name", "dataType", "dataCategory", "isHidden", "type", "isNameInferred",
                "isDataTypeInferred", "formatString", "sourceColumn",
            ],
        );
        assert forall|i: int| 0 <= i < table.len() implies allowed.contains(
            (#[trigger] table[i]).0,
        ) by {
            assert(allowed[i] == table[i].0);
        }
        lemma_present_known(table, allowed);
        lemma_lookup_present(table, 0);
        lemma_lookup_present(table, 1);
        lemma_lookup_present(table, 2);
        lemma_lookup_present(table, 3);
        lemma_lookup_present(table, 4);
        lemma_lookup_present(table, 5);
        lemma_lookup_present(table, 6);
        lemma_lookup_present(table, 7);
        lemma_lookup_present(table, 8);
    }

    /// The key `sourceColumn` is always written.
    pub proof fn lemma_writes_source_column(v: CalculatedTableColumnView)
        ensures
            lookup(present(Self::entries(v)), "sourceColumn"@) is Some,
    {
        Self::lemma_entries(v);
    }
}

impl Wire for CalculatedTableColumn {
    open spec fn decode(j: JsonView) -> Result<CalculatedTableColumnView, ParseErrorView> {
        match strict_object_of(
            j,
            Entity::Column,
            names([
                "name", "dataType", "dataCategory", "isHidden", "type", "isNameInferred",
                "isDataTypeInferred", "formatString", "sourceColumn",
            ]),
        ) {
            Err(e) => Err(e),
            Ok(fields) => {
                let common = CommonColumn::read(fields);
                let type_ = text_at(fields, "type"@, Entity::Column);
                let is_name_inferred = opt_flag_at(fields, "isNameInferred"@, Entity::Column);
                let is_data_type_inferred = opt_flag_at(
                    fields,
                    "isDataTypeInferred"@,
                    Entity::Column,
                );
                let format_string = opt_text_at(fields, "formatString"@, Entity::Column);
                let source_column = text_at(fields, "sourceColumn"@, Entity::Column);
                if common is Err {
                    Err(common->Err_0)
                } else if type_ is Err {
                    Err(type_->Err_0)
                } else if is_name_inferred is Err {
                    Err(is_name_inferred->Err_0)
                } else if is_data_type_inferred is Err {
                    Err(is_data_type_inferred->Err_0)
                } else if format_string is Err {
                    Err(format_string->Err_0)
                } else if source_column is Err {
                    Err(source_column->Err_0)
                } else {
                    Ok(
                        CalculatedTableColumnView {
                            common: common->Ok_0,
                            type_: type_->Ok_0,
                            is_name_inferred: is_name_inferred->Ok_0,
                            is_data_type_inferred: is_data_type_inferred->Ok_0,
                            format_string: format_string->Ok_0,
                            source_column: source_column->Ok_0,
                        },
                    )
                }
            },
        }
    }

    open spec fn encode(v: CalculatedTableColumnView) -> JsonView {
        JsonView::Object(present(Self::entries(v)))
    }

    fn from_json(j: &Json) -> (r: Result<CalculatedTableColumn, ParseError>) {
        let fields = strict_fields_of(
            j,
            Entity::Column,
            &[
                "name", "dataType", "dataCategory", "isHidden", "type", "isNameInferred",
                "isDataTypeInferred", "formatString", "sourceColumn",
            ],
        )?;
        let common = CommonColumn::read_from(fields)?;
        let type_ = read_text(fields, "type", Entity::Column)?;
        let is_name_inferred = read_opt_flag(fields, "isNameInferred", Entity::Column)?;
        let is_data_type_inferred = read_opt_flag(fields, "isDataTypeInferred", Entity::Column)?;
        let format_string = read_opt_text(fields, "formatString", Entity::Column)?;
        let source_column = read_text(fields, "sourceColumn", Entity::Column)?;
        Ok(
            CalculatedTableColumn {
                common,
                type_,
                is_name_inferred,
                is_data_type_inferred,
                format_string,
                source_column,
            },
        )
    }

    fn to_json(&self) -> (j: Json) {
        let w = self.common.write_into(ObjectWriter::new())
            .put("type", Json::text(self.type_.as_str()))
            .put_opt("isNameInferred", write_opt_flag(self.is_name_inferred))
            .put_opt("isDataTypeInferred", write_opt_flag(self.is_data_type_inferred))
            .put_opt("formatString", write_opt_text(&self.format_string))
            .put("sourceColumn", Json::text(self.source_column.as_str()));
        assert(w.table() =~= Self::entries(self.deep_view()));
        w.finish()
    }

    open spec fn strict_keys() -> Option<Seq<Seq<char>>> {
        Some(
            names([
                "name", "dataType", "dataCategory", "isHidden", "type", "isNameInferred",
                "isDataTypeInferred", "formatString", "sourceColumn",
            ]),
        )
    }

    open spec fn declared_keys() -> Option<Seq<Seq<char>>> {
        Some(
            names([
                "name", "dataType", "dataCategory", "isHidden", "type", "isNameInferred",
                "isDataTypeInferred", "formatString", "sourceColumn",
            ]),
        )
    }

    proof fn lemma_refuses_unknown_key(fields: Seq<(Seq<char>, JsonView)>, i: int) {
        lemma_first_unknown_none(
            fields,
            names([
                "name", "dataType", "dataCategory", "isHidden", "type", "isNameInferred",
                "isDataTypeInferred", "formatString", "sourceColumn",
            ]),
        );
    }

    proof fn lemma_refuses_repeated_key(fields: Seq<(Seq<char>, JsonView)>, i: int, j: int) {
        let declared = names(
            [
                "name", "dataType", "dataCategory", "isHidden", "type", "isNameInferred",
                "isDataTypeInferred", "formatString", "sourceColumn",
            ],
        );
        if declared.contains(fields[i].0) {
            lemma_repeated_at(fields, declared, i, j);
        }
    }

    proof fn lemma_round_trip(v: CalculatedTableColumnView) {
        Self::lemma_entries(v);
        let fields = present(Self::entries(v));
        let object = strict_object_of(
            Self::encode(v),
            Entity::Column,
            names([
                "name", "dataType", "dataCategory", "isHidden", "type", "isNameInferred",
                "isDataTypeInferred", "formatString", "sourceColumn",
            ]),
        );
        assert(object is Ok && object->Ok_0 == fields);
        let common = CommonColumn::read(fields);
        let type_ = text_at(fields, "type"@, Entity::Column);
        let is_name_inferred = opt_flag_at(fields, "isNameInferred"@, Entity::Column);
        let is_data_type_inferred = opt_flag_at(fields, "isDataTypeInferred"@, Entity::Column);
        let format_string = opt_text_at(fields, "formatString"@, Entity::Column);
        let source_column = text_at(fields, "sourceColumn"@, Entity::Column);
        assert(common == Ok::<CommonColumnView, ParseErrorView>(v.common)) by {
            DataCategory::lemma_round_trip(v.common.data_category);
        }
        assert(type_ == Ok::<Seq<char>, ParseErrorView>(v.type_));
        assert(is_name_inferred == Ok::<Option<bool>, ParseErrorView>(v.is_name_inferred));
        assert(is_data_type_inferred->Ok_0 == v.is_data_type_inferred
            && is_data_type_inferred is Ok);
        assert(format_string == Ok::<Option<Seq<char>>, ParseErrorView>(v.format_string));
        assert(source_column == Ok::<Seq<char>, ParseErrorView>(v.source_column));
    }
}

impl CalculatedTableColumn {
    /// The key `type` is always written.
    pub proof fn lemma_writes_type(v: CalculatedTableColumnView)
        ensures
            lookup(present(Self::entries(v)), "type"@) is Some,
    {
        let table = Self::entries(v);
        reveal_strlit("name");
        reveal_strlit("dataType");
        reveal_strlit("dataCategory");
        reveal_strlit("isHidden");
        reveal_strlit("type");
        reveal_strlit("isNameInferred");
        reveal_strlit("isDataTypeInferred");
        reveal_strlit("formatString");
        reveal_strlit("sourceColumn");
        assert("name"@.len() == 4);
        assert("dataType"@.len() == 8);
        assert("dataCategory"@.len() == 12);
        assert("isHidden"@.len() == 8);
        assert("type"@.len() == 4);
        assert("isNameInferred"@.len() == 14);
        assert("isDataTypeInferred"@.len() == 18);
        assert("formatString"@.len() == 12);
        assert("sourceColumn"@.len() == 12);
        assert("name"@[0] != "type"@[0]);
        assert("dataType"@[0] != "isHidden"@[0]);
        assert("dataCategory"@[0] != "formatString"@[0]);
        assert("dataCategory"@[0] != "sourceColumn"@[0]);
        assert("formatString"@[0] != "sourceColumn"@[0]);
        assert(table.len() == 9);
        assert(keys_distinct(table));
        lemma_lookup_present(table, 4);
    }
}

impl Attributes for CalculatedTableColumn {
    open spec fn name_of(v: CalculatedTableColumnView) -> Seq<char> {
        v.common.name
    }

    open spec fn data_type_of(v: CalculatedTableColumnView) -> Seq<char> {
        v.common.data_type
    }

    open spec fn hidden(v: CalculatedTableColumnView) -> bool {
        v.common.is_hidden == Some(true)
    }

    fn name(&self) -> (r: String) {
        assert(Self::name_of(self.deep_view()) == self.common.name@);
        self.common.name()
    }

    fn data_type(&self) -> (r: String) {
        assert(Self::data_type_of(self.deep_view()) == self.common.data_type@);
        self.common.data_type()
    }

    fn is_hidden(&self) -> (r: bool) {
        self.common.is_hidden()
    }
}

/// A column whose values come from a column of the source.
#[derive(Debug, PartialEq, Eq, Clone)]
pub struct Sourced {
    pub common: CommonColumn,
    pub source_column: String,
    pub description: Option<String>,
    pub format_string: Option<String>,
    pub annotations: Option<Vec<Annotation>>,
    pub sort_by_column: Option<String>,
}

/// The model of a [`Sourced`].
pub struct SourcedView {
    pub common: CommonColumnView,
    pub source_column: Seq<char>,
    pub description: Option<Seq<char>>,
    pub format_string: Option<Seq<char>>,
    pub annotations: Option<Seq<AnnotationView>>,
    pub sort_by_column: Option<Seq<char>>,
}

impl DeepView for Sourced {
    type V = SourcedView;

    open spec fn deep_view(&self) -> SourcedView {
        SourcedView {
            common: self.common.deep_view(),
            source_column: self.source_column@,
            description: self.description.deep_view(),
            format_string: self.format_string.deep_view(),
            annotations: self.annotations.deep_view(),
            sort_by_column: self.sort_by_column.deep_view(),
        }
    }
}

impl Sourced {
    /// The keys of the record in written order, each with the value written
    /// under it, or `None` where the entry is left out.
    pub open spec fn entries(v: SourcedView) -> Seq<(Seq<char>, Option<JsonView>)> {
        CommonColumn::entries(v.common) + seq![
            ("sourceColumn"@, Some(JsonView::Text(v.source_column))),
            ("description"@, opt_text_json(v.description)),
            ("formatString"@, opt_text_json(v.format_string)),
            ("annotations"@, opt_list_json::<Annotation>(v.annotations)),
            ("sortByColumn"@, opt_text_json(v.sort_by_column)),
        ]
    }

    /// Each key of the record is read back with the value written under it,
    /// and no key is written that the record does not declare.
    pub proof fn lemma_entries(v: SourcedView)
        ensures
            lookup(present(Self::entries(v)), "name"@) == Self::entries(v)[0].1,
            lookup(present(Self::entries(v)), "dataType"@) == Self::entries(v)[1].1,
            lookup(present(Self::entries(v)), "dataCategory"@) == Self::entries(v)[2].1,
            lookup(present(Self::entries(v)), "isHidden"@) == Self::entries(v)[3].1,
            lookup(present(Self::entries(v)), "sourceColumn"@) == Self::entries(v)[4].1,
            lookup(present(Self::entries(v)), "description"@) == Self::entries(v)[5].1,
            lookup(present(Self::entries(v)), "formatString"@) == Self::entries(v)[6].1,
            lookup(present(Self::entries(v)), "annotations"@) == Self::entries(v)[7].1,
            lookup(present(Self::entries(v)), "sortByColumn"@) == Self::entries(v)[8].1,
            refused_key(
                present(Self::entries(v)),
                Entity::Column,
                names([
                    "name", "dataType", "dataCategory", "isHidden", "sourceColumn", "description",
                    "formatString", "annotations", "sortByColumn",
                ]),
            ) is None,
    {
        let table = Self::entries(v);
        reveal_strlit("name");
        reveal_strlit("dataType");
        reveal_strlit("dataCategory");
        reveal_strlit("isHidden");
        reveal_strlit("sourceColumn");
        reveal_strlit("description");
        reveal_strlit("formatString");
        reveal_strlit("annotations");
        reveal_strlit("sortByColumn");
        assert("name"@.len() == 4);
        assert("dataType"@.len() == 8);
        assert("dataCategory"@.len() == 12);
        assert("isHidden"@.len() == 8);
        assert("sourceColumn"@.len() == 12);
        assert("description"@.len() == 11);
        assert("formatString"@.len() == 12);
        assert("annotations"@.len() == 11);
        assert("sortByColumn"@.len() == 12);
        assert("dataType"@[0] != "isHidden"@[0]);
        assert("dataCategory"@[0] != "sourceColumn"@[0]);
        assert("dataCategory"@[0] != "formatString"@[0]);
        assert("dataCategory"@[0] != "sortByColumn"@[0]);
        assert("sourceColumn"@[0] != "formatString"@[0]);
        assert("sourceColumn"@[2] != "sortByColumn"@[2]);
        assert("description"@[0] != "annotations"@[0]);
        assert("formatString"@[0] != "sortByColumn"@[0]);
        assert(table.len() == 9);
        assert(keys_distinct(table));
        let allowed = names(
            [
                "name", "dataType", "dataCategory", "isHidden", "sourceColumn", "description",
                "formatString", "annotations", "sortByColumn",
            ],
        );
        assert forall|i: int| 0 <= i < table.len() implies allowed.contains(
            (#[trigger] table[i]).0,
        ) by {
            assert(allowed[i] == table[i].0);
        }
        lemma_present_known(table, allowed);
        lemma_lookup_present(table, 0);
        lemma_lookup_present(table, 1);
        lemma_lookup_present(table, 2);
        lemma_lookup_present(table, 3);
        lemma_lookup_present(table, 4);
        lemma_lookup_present(table, 5);
        lemma_lookup_present(table, 6);
        lemma_lookup_present(table, 7);
        lemma_lookup_present(table, 8);
    }

    /// The key `sourceColumn` is always written.
    pub proof fn lemma_writes_source_column(v: SourcedView)
        ensures
            lookup(present(Self::entries(v)), "sourceColumn"@) is Some,
    {
        Self::lemma_entries(v);
    }
}

impl Wire for Sourced {
    open spec fn decode(j: JsonView) -> Result<SourcedView, ParseErrorView> {
        match strict_object_of(
            j,
            Entity::Column,
            names([
                "name", "dataType", "dataCategory", "isHidden", "sourceColumn", "description",
                "formatString", "annotations", "sortByColumn",
            ]),
        ) {
            Err(e) => Err(e),
            Ok(fields) => {
                let common = CommonColumn::read(fields);
                let source_column = text_at(fields, "sourceColumn"@, Entity::Column);
                let description = opt_text_at(fields, "description"@, Entity::Column);
                let format_string = opt_text_at(fields, "formatString"@, Entity::Column);
                let annotations = opt_list_at::<Annotation>(fields, "annotations"@, Entity::Column);
                let sort_by_column = opt_text_at(fields, "sortByColumn"@, Entity::Column);
                if common is Err {
                    Err(common->Err_0)
                } else if source_column is Err {
                    Err(source_column->Err_0)
                } else if description is Err {
                    Err(description->Err_0)
                } else if format_string is Err {
                    Err(format_string->Err_0)
                } else if annotations is Err {
                    Err(annotations->Err_0)
                } else if sort_by_column is Err {
                    Err(sort_by_column->Err_0)
                } else {
                    Ok(
                        SourcedView {
                            common: common->Ok_0,
                            source_column: source_column->Ok_0,
                            description: description->Ok_0,
                            format_string: format_string->Ok_0,
                            annotations: annotations->Ok_0,
                            sort_by_column: sort_by_column->Ok_0,
                        },
                    )
                }
            },
        }
    }

    open spec fn encode(v: SourcedView) -> JsonView {
        JsonView::Object(present(Self::entries(v)))
    }

    fn from_json(j: &Json) -> (r: Result<Sourced, ParseError>) {
        let fields = strict_fields_of(
            j,
            Entity::Column,
            &[
                "name", "dataType", "dataCategory", "isHidden", "sourceColumn", "description",
                "formatString", "annotations", "sortByColumn",
            ],
        )?;
        let common = CommonColumn::read_from(fields)?;
        let source_column = read_text(fields, "sourceColumn", Entity::Column)?;
        let description = read_opt_text(fields, "description", Entity::Column)?;
        let format_string = read_opt_text(fields, "formatString", Entity::Column)?;
        let annotations = read_opt_list::<Annotation>(fields, "annotations", Entity::Column)?;
        let sort_by_column = read_opt_text(fields, "sortByColumn", Entity::Column)?;
        Ok(
            Sourced {
                common,
                source_column,
                description,
                format_string,
                annotations,
                sort_by_column,
            },
        )
    }

    fn to_json(&self) -> (j: Json) {
        let w = self.common.write_into(ObjectWriter::new())
            .put("sourceColumn", Json::text(self.source_column.as_str()))
            .put_opt("description", write_opt_text(&self.description))
            .put_opt("formatString", write_opt_text(&self.format_string))
            .put_opt("annotations", write_opt_list(&self.annotations))
            .put_opt("sortByColumn", write_opt_text(&self.sort_by_column));
        assert(w.table() =~= Self::entries(self.deep_view()));
        w.finish()
    }

    open spec fn strict_keys() -> Option<Seq<Seq<char>>> {
        Some(
            names([
                "name", "dataType", "dataCategory", "isHidden", "sourceColumn", "description",
                "formatString", "annotations", "sortByColumn",
            ]),
        )
    }

    open spec fn declared_keys() -> Option<Seq<Seq<char>>> {
        Some(
            names([
                "name", "dataType", "dataCategory", "isHidden", "sourceColumn", "description",
                "formatString", "annotations", "sortByColumn",
            ]),
        )
    }

    proof fn lemma_refuses_unknown_key(fields: Seq<(Seq<char>, JsonView)>, i: int) {
        lemma_first_unknown_none(
            fields,
            names([
                "name", "dataType", "dataCategory", "isHidden", "sourceColumn", "description",
                "formatString", "annotations", "sortByColumn",
            ]),
        );
    }

    proof fn lemma_refuses_repeated_key(fields: Seq<(Seq<char>, JsonView)>, i: int, j: int) {
        let declared = names(
            [
                "name", "dataType", "dataCategory", "isHidden", "sourceColumn", "description",
                "formatString", "annotations", "sortByColumn",
            ],
        );
        if declared.contains(fields[i].0) {
            lemma_repeated_at(fields, declared, i, j);
        }
    }

    proof fn lemma_round_trip(v: SourcedView) {
        Self::lemma_entries(v);
        let fields = present(Self::entries(v));
        let object = strict_object_of(
            Self::encode(v),
            Entity::Column,
            names([
                "name", "dataType", "dataCategory", "isHidden", "sourceColumn", "description",
                "formatString", "annotations", "sortByColumn",
            ]),
        );
        assert(object is Ok && object->Ok_0 == fields);
        let common = CommonColumn::read(fields);
        let source_column = text_at(fields, "sourceColumn"@, Entity::Column);
        let description = opt_text_at(fields, "description"@, Entity::Column);
        let format_string = opt_text_at(fields, "formatString"@, Entity::Column);
        let annotations = opt_list_at::<Annotation>(fields, "annotations"@, Entity::Column);
        let sort_by_column = opt_text_at(fields, "sortByColumn"@, Entity::Column);
        assert(common == Ok::<CommonColumnView, ParseErrorView>(v.common)) by {
            DataCategory::lemma_round_trip(v.common.data_category);
        }
        assert(source_column == Ok::<Seq<char>, ParseErrorView>(v.source_column));
        assert(description == Ok::<Option<Seq<char>>, ParseErrorView>(v.description));
        assert(format_string == Ok::<Option<Seq<char>>, ParseErrorView>(v.format_string));
        assert(annotations == Ok::<Option<Seq<AnnotationView>>, ParseErrorView>(v.annotations)) by {
            if v.annotations is Some {
                lemma_items_round_trip::<Annotation>(v.annotations->0);
            }
        }
        assert(sort_by_column == Ok::<Option<Seq<char>>, ParseErrorView>(v.sort_by_column));
    }
}

impl Attributes for Sourced {
    open spec fn name_of(v: SourcedView) -> Seq<char> {
        v.common.name
    }

    open spec fn data_type_of(v: SourcedView) -> Seq<char> {
        v.common.data_type
    }

    open spec fn hidden(v: SourcedView) -> bool {
        v.common.is_hidden == Some(true)
    }

    fn name(&self) -> (r: String) {
        assert(Self::name_of(self.deep_view()) == self.common.name@);
        self.common.name()
    }

    fn data_type(&self) -> (r: String) {
        assert(Self::data_type_of(self.deep_view()) == self.common.data_type@);
        self.common.data_type()
    }

    fn is_hidden(&self) -> (r: bool) {
        self.common.is_hidden()
    }
}

} // verus!
