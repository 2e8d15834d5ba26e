//! Relationships between tables.

use std::cmp::Ordering;
use vstd::prelude::*;
use crate::codec::{
    flag_or_at, flag_unless, item_or_at, item_unless, keys_distinct, lemma_first_unknown_none,
    lemma_lookup_present, lemma_present_known, lemma_repeated_at, names, present, read_flag_or,
    read_item_or, read_text, refused_key, strict_fields_of, strict_object_of, text_at,
    write_flag_unless, write_unless, ObjectWriter, Wire,
};
use crate::error::{failure, Entity, ErrorKind, ParseError, ParseErrorView};
use crate::json::{lookup, Json, JsonView};
use crate::sorting::Ranked;
use crate::text::{
    folded, lemma_bytes_le_total, lemma_bytes_le_transitive, name_le, name_precedes, name_rank,
    ordering_of, rank_names, str_eq, to_ordering,
};

verus! {

/// A link from a column of one table to a column of another. Relationships
/// are ordered by name, case ignored.
#[derive(Debug, PartialEq, Eq, Clone)]
pub struct Relationship {
    pub name: String,
    pub from_table: String,
    pub from_column: String,
    pub to_table: String,
    pub to_column: String,
    /// Left out of the JSON form when `true`, and read as `true` when absent.
    pub is_active: bool,
    /// Left out of the JSON form when `Single`, and read as `Single` when absent.
    pub cross_filter_behaviour: CrossFilterBehaviour,
}

/// The model of a [`Relationship`].
pub struct RelationshipView {
    pub name: Seq<char>,
    pub from_table: Seq<char>,
    pub from_column: Seq<char>,
    pub to_table: Seq<char>,
    pub to_column: Seq<char>,
    pub is_active: bool,
    pub cross_filter_behaviour: CrossFilterBehaviour,
}

impl DeepView for Relationship {
    type V = RelationshipView;

    open spec fn deep_view(&self) -> RelationshipView {
        RelationshipView {
            name: self.name@,
            from_table: self.from_table@,
            from_column: self.from_column@,
            to_table: self.to_table@,
            to_column: self.to_column@,
            is_active: self.is_active,
            cross_filter_behaviour: self.cross_filter_behaviour,
        }
    }
}

impl Relationship {
    /// The keys of the record in written order, each with the value written
    /// under it, or `None` where the entry is left out.
    pub open spec fn entries(v: RelationshipView) -> Seq<(Seq<char>, Option<JsonView>)> {
        seq![
            ("name"@, Some(JsonView::Text(v.name))),
            ("fromTable"@, Some(JsonView::Text(v.from_table))),
            ("fromColumn"@, Some(JsonView::Text(v.from_column))),
            ("toTable"@, Some(JsonView::Text(v.to_table))),
            ("toColumn"@, Some(JsonView::Text(v.to_column))),
            ("isActive"@, flag_unless(v.is_active, true)),
            ("crossFilterBehaviour"@, item_unless::<CrossFilterBehaviour>(
                v.cross_filter_behaviour,
                CrossFilterBehaviour::Single),
            ),
        ]
    }

    /// Each key of the record is read back with the value written under it,
    /// and no key is written that the record does not declare.
    pub proof fn lemma_entries(v: RelationshipView)
        ensures
            lookup(present(Self::entries(v)), "name"@) == Self::entries(v)[0].1,
            lookup(present(Self::entries(v)), "fromTable"@) == Self::entries(v)[1].1,
            lookup(present(Self::entries(v)), "fromColumn"@) == Self::entries(v)[2].1,
            lookup(present(Self::entries(v)), "toTable"@) == Self::entries(v)[3].1,
            lookup(present(Self::entries(v)), "toColumn"@) == Self::entries(v)[4].1,
            lookup(present(Self::entries(v)), "isActive"@) == Self::entries(v)[5].1,
            lookup(present(Self::entries(v)), "crossFilterBehaviour"@) == Self::entries(v)[6].1,
            refused_key(
                present(Self::entries(v)),
                Entity::Relationship,
                names([
                    "name", "fromTable", "fromColumn", "toTable", "toColumn", "isActive",
                    "crossFilterBehaviour",
                ]),
            ) is None,
    {
        let table = Self::entries(v);
        reveal_strlit("name");
        reveal_strlit("fromTable");
        reveal_strlit("fromColumn");
        reveal_strlit("toTable");
        reveal_strlit("toColumn");
        reveal_strlit("isActive");
        reveal_strlit("crossFilterBehaviour");
        assert("name"@.len() == 4);
        assert("fromTable"@.len() == 9);
        assert("fromColumn"@.len() == 10);
        assert("toTable"@.len() == 7);
        assert("toColumn"@.len() == 8);
        assert("isActive"@.len() == 8);
        assert("crossFilterBehaviour"@.len() == 20);
        assert("toColumn"@[0] != "isActive"@[0]);
        assert(table.len() == 7);
        assert(keys_distinct(table));
        let allowed = names(
            [
                "name", "fromTable", "fromColumn", "toTable", "toColumn", "isActive",
                "crossFilterBehaviour",
            ],
        );
        assert forall|i: int| 0 <= i < table.len() implies allowed.contains(
            (#[trigger] table[i]).0,
        ) by {
            assert(allowed[i] == table[i].0);
        }
        lemma_present_known(table, allowed);
        lemma_lookup_present(table, 0);
        lemma_lookup_present(table, 1);
        lemma_lookup_present(table, 2);
        lemma_lookup_present(table, 3);
        lemma_lookup_present(table, 4);
        lemma_lookup_present(table, 5);
        lemma_lookup_present(table, 6);
    }
}

impl Wire for Relationship {
    open spec fn decode(j: JsonView) -> Result<RelationshipView, ParseErrorView> {
        match strict_object_of(
            j,
            Entity::Relationship,
            names([
                "name", "fromTable", "fromColumn", "toTable", "toColumn", "isActive",
                "crossFilterBehaviour",
            ]),
        ) {
            Err(e) => Err(e),
            Ok(fields) => {
                let name = text_at(fields, "name"@, Entity::Relationship);
                let from_table = text_at(fields, "fromTable"@, Entity::Relationship);
                let from_column = text_at(fields, "fromColumn"@, Entity::Relationship);
                let to_table = text_at(fields, "toTable"@, Entity::Relationship);
                let to_column = text_at(fields, "toColumn"@, Entity::Relationship);
                let is_active = flag_or_at(fields, "isActive"@, Entity::Relationship, true);
                let cross_filter_behaviour = item_or_at::<CrossFilterBehaviour>(
                    fields,
                    "crossFilterBehaviour"@,
                    CrossFilterBehaviour::Single,
                );
                if name is Err {
                    Err(name->Err_0)
                } else if from_table is Err {
                    Err(from_table->Err_0)
                } else if from_column is Err {
                    Err(from_column->Err_0)
                } else if to_table is Err {
                    Err(to_table->Err_0)
                } else if to_column is Err {
                    Err(to_column->Err_0)
                } else if is_active is Err {
                    Err(is_active->Err_0)
                } else if cross_filter_behaviour is Err {
                    Err(cross_filter_behaviour->Err_0)
                } else {
                    Ok(
                        RelationshipView {
                            name: name->Ok_0,
                            from_table: from_table->Ok_0,
                            from_column: from_column->Ok_0,
                            to_table: to_table->Ok_0,
                            to_column: to_column->Ok_0,
                            is_active: is_active->Ok_0,
                            cross_filter_behaviour: cross_filter_behaviour->Ok_0,
                        },
                    )
                }
            },
        }
    }

    open spec fn encode(v: RelationshipView) -> JsonView {
        JsonView::Object(present(Self::entries(v)))
    }

    fn from_json(j: &Json) -> (r: Result<Relationship, ParseError>) {
        let fields = strict_fields_of(
            j,
            Entity::Relationship,
            &[
                "name", "fromTable", "fromColumn", "toTable", "toColumn", "isActive",
                "crossFilterBehaviour",
            ],
        )?;
        let name = read_text(fields, "name", Entity::Relationship)?;
        let from_table = read_text(fields, "fromTable", Entity::Relationship)?;
        let from_column = read_text(fields, "fromColumn", Entity::Relationship)?;
        let to_table = read_text(fields, "toTable", Entity::Relationship)?;
        let to_column = read_text(fields, "toColumn", Entity::Relationship)?;
        let is_active = read_flag_or(fields, "isActive", Entity::Relationship, true)?;
        let cross_filter_behaviour = read_item_or::<CrossFilterBehaviour>(
            fields,
            "crossFilterBehaviour",
            CrossFilterBehaviour::Single,
        )?;
        Ok(
            Relationship {
                name,
                from_table,
                from_column,
                to_table,
                to_column,
                is_active,
                cross_filter_behaviour,
            },
        )
    }

    fn to_json(&self) -> (j: Json) {
        let w = ObjectWriter::new()
            .put("name", Json::text(self.name.as_str()))
            .put("fromTable", Json::text(self.from_table.as_str()))
            .put("fromColumn", Json::text(self.from_column.as_str()))
            .put("toTable", Json::text(self.to_table.as_str()))
            .put("toColumn", Json::text(self.to_column.as_str()))
            .put_opt("isActive", write_flag_unless(self.is_active, true))
            .put_opt(
                "crossFilterBehaviour",
                write_unless(self.cross_filter_behaviour.is_single(), &self.cross_filter_behaviour),
            );
        assert(w.table() =~= Self::entries(self.deep_view()));
        w.finish()
    }

    open spec fn strict_keys() -> Option<Seq<Seq<char>>> {
        Some(
            names([
                "name", "fromTable", "fromColumn", "toTable", "toColumn", "isActive",
                "crossFilterBehaviour",
            ]),
        )
    }

    open spec fn declared_keys() -> Option<Seq<Seq<char>>> {
        Some(
            names([
                "name", "fromTable", "fromColumn", "toTable", "toColumn", "isActive",
                "crossFilterBehaviour",
            ]),
        )
    }

    proof fn lemma_refuses_unknown_key(fields: Seq<(Seq<char>, JsonView)>, i: int) {
        lemma_first_unknown_none(
            fields,
            names([
                "name", "fromTable", "fromColumn", "toTable", "toColumn", "isActive",
                "crossFilterBehaviour",
            ]),
        );
    }

    proof fn lemma_refuses_repeated_key(fields: Seq<(Seq<char>, JsonView)>, i: int, j: int) {
        let declared = names(
            [
                "name", "fromTable", "fromColumn", "toTable", "toColumn", "isActive",
                "crossFilterBehaviour",
            ],
        );
        if declared.contains(fields[i].0) {
            lemma_repeated_at(fields, declared, i, j);
        }
    }

    proof fn lemma_round_trip(v: RelationshipView) {
        Self::lemma_entries(v);
        let fields = present(Self::entries(v));
        let object = strict_object_of(
            Self::encode(v),
            Entity::Relationship,
            names([
                "name", "fromTable", "fromColumn", "toTable", "toColumn", "isActive",
                "crossFilterBehaviour",
            ]),
        );
        assert(object is Ok && object->Ok_0 == fields);
        let name = text_at(fields, "name"@, Entity::Relationship);
        let from_table = text_at(fields, "fromTable"@, Entity::Relationship);
        let from_column = text_at(fields, "fromColumn"@, Entity::Relationship);
        let to_table = text_at(fields, "toTable"@, Entity::Relationship);
        let to_column = text_at(fields, "toColumn"@, Entity::Relationship);
        let is_active = flag_or_at(fields, "isActive"@, Entity::Relationship, true);
        let cross_filter_behaviour = item_or_at::<CrossFilterBehaviour>(
            fields,
            "crossFilterBehaviour"@,
            CrossFilterBehaviour::Single,
        );
        assert(name == Ok::<Seq<char>, ParseErrorView>(v.name));
        assert(from_table == Ok::<Seq<char>, ParseErrorView>(v.from_table));
        assert(from_column == Ok::<Seq<char>, ParseErrorView>(v.from_column));
        assert(to_table == Ok::<Seq<char>, ParseErrorView>(v.to_table));
        assert(to_column == Ok::<Seq<char>, ParseErrorView>(v.to_column));
        assert(is_active == Ok::<bool, ParseErrorView>(v.is_active));
        assert(cross_filter_behaviour->Ok_0 == v.cross_filter_behaviour
            && cross_filter_behaviour is Ok) by {
            CrossFilterBehaviour::lemma_round_trip(v.cross_filter_behaviour);
        }
    }
}

impl Ranked for Relationship {
    open spec fn ranks_le(a: RelationshipView, b: RelationshipView) -> bool {
        name_le(a.name, b.name)
    }

    fn precedes(&self, other: &Self) -> (r: bool) {
        name_precedes(self.name.as_str(), other.name.as_str())
    }

    proof fn lemma_ranks_total(a: RelationshipView, b: RelationshipView) {
        lemma_bytes_le_total(folded(a.name), folded(b.name));
    }

    proof fn lemma_ranks_transitive(a: RelationshipView, b: RelationshipView, c: RelationshipView) {
        lemma_bytes_le_transitive(folded(a.name), folded(b.name), folded(c.name));
    }
}

impl Relationship {
    /// How `self` stands to `other` in the order of names, case ignored.
    pub fn cmp(&self, other: &Self) -> (r: Ordering)
        ensures
            r == ordering_of(name_rank(self.name@, other.name@)),
    {
        to_ordering(rank_names(self.name.as_str(), other.name.as_str()))
    }
}

/// The directions in which a relationship filters.
#[derive(Debug, PartialEq, Eq, Clone, Copy, Structural)]
pub enum CrossFilterBehaviour {
    Single,
    Both,
}

impl DeepView for CrossFilterBehaviour {
    type V = CrossFilterBehaviour;

    open spec fn deep_view(&self) -> CrossFilterBehaviour {
        *self
    }
}

impl CrossFilterBehaviour {
    /// The name under which the value is written.
    pub open spec fn label(self) -> Seq<char> {
        match self {
            CrossFilterBehaviour::Single => "Single"@,
            CrossFilterBehaviour::Both => "bothDirections"@,
        }
    }
}

impl Wire for CrossFilterBehaviour {
    open spec fn decode(j: JsonView) -> Result<CrossFilterBehaviour, ParseErrorView> {
        match j {
            JsonView::Text(t) => if t == "Single"@ {
                Ok(CrossFilterBehaviour::Single)
            } else if t == "bothDirections"@ {
                Ok(CrossFilterBehaviour::Both)
            } else {
                Err(failure(ErrorKind::VariantMismatch, Entity::CrossFilterBehaviour, t))
            },
            _ => Err(failure(ErrorKind::TypeMismatch, Entity::CrossFilterBehaviour, Seq::empty())),
        }
    }

    open spec fn encode(v: CrossFilterBehaviour) -> JsonView {
        JsonView::Text(v.label())
    }

    fn from_json(j: &Json) -> (r: Result<CrossFilterBehaviour, ParseError>) {
        match j.as_text() {
            Some(t) => if str_eq(t.as_str(), "Single") {
                Ok(CrossFilterBehaviour::Single)
            } else if str_eq(t.as_str(), "bothDirections") {
                Ok(CrossFilterBehaviour::Both)
            } else {
                Err(
                    ParseError::new(
                        ErrorKind::VariantMismatch,
                        Entity::CrossFilterBehaviour,
                        t.as_str(),
                    ),
                )
            },
            None => {
                proof {
                    reveal_strlit("");
                    assert(""@ =~= Seq::empty());
                }
                Err(ParseError::new(ErrorKind::TypeMismatch, Entity::CrossFilterBehaviour, ""))
            },
        }
    }

    fn to_json(&self) -> (j: Json) {
        match self {
            CrossFilterBehaviour::Single => Json::text("Single"),
            CrossFilterBehaviour::Both => Json::text("bothDirections"),
        }
    }

    open spec fn strict_keys() -> Option<Seq<Seq<char>>> {
        None
    }

    open spec fn declared_keys() -> Option<Seq<Seq<char>>> {
        None
    }

    proof fn lemma_refuses_unknown_key(fields: Seq<(Seq<char>, JsonView)>, i: int) {
    }

    proof fn lemma_refuses_repeated_key(fields: Seq<(Seq<char>, JsonView)>, i: int, j: int) {
    }

    proof fn lemma_round_trip(v: CrossFilterBehaviour) {
        reveal_strlit("Single");
        reveal_strlit("bothDirections");
        assert("Single"@.len() == 6);
        assert("bothDirections"@.len() == 14);
    }
}

impl CrossFilterBehaviour {
    /// The behaviour of a relationship that names none: `Single`.
    #[must_use]
    pub fn default() -> (r: CrossFilterBehaviour)
        ensures
            r == CrossFilterBehaviour::Single,
    {
        CrossFilterBehaviour::Single
    }

    /// Whether the behaviour is `Single`.
    #[must_use]
    pub fn is_single(&self) -> (r: bool)
        ensures
            r == (*self == CrossFilterBehaviour::Single),
    {
        matches!(self, CrossFilterBehaviour::Single)
    }
}

} // verus!
