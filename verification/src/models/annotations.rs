//! Annotations: named notes attached to other records.

use std::cmp::Ordering;
use vstd::prelude::*;
use crate::codec::{
    item_at, keys_distinct, lemma_first_unknown_none, lemma_lookup_present, lemma_present_known,
    lemma_repeated_at, names, present, read_item, read_text, refused_key, strict_fields_of,
    strict_object_of, text_at, ObjectWriter, Wire,
};
use crate::error::{Entity, ParseError, ParseErrorView};
use crate::json::{lookup, Json, JsonView};
use crate::models::expression::{Expression, ExpressionView};
use crate::sorting::Ranked;
use crate::text::{
    folded, lemma_bytes_le_total, lemma_bytes_le_transitive, name_le, name_precedes, name_rank,
    ordering_of, rank_names, to_ordering,
};

verus! {

/// A named note attached to another record. Annotations are ordered by name,
/// case ignored.
#[derive(Debug, PartialEq, Eq, Clone)]
pub struct Annotation {
    pub name: String,
    pub value: Expression,
}

/// The model of an [`Annotation`].
pub struct AnnotationView {
    pub name: Seq<char>,
    pub value: ExpressionView,
}

impl DeepView for Annotation {
    type V = AnnotationView;

    open spec fn deep_view(&self) -> AnnotationView {
        AnnotationView {
            name: self.name@,
            value: self.value.deep_view(),
        }
    }
}

impl Annotation {
    /// The keys of the record in written order, each with the value written
    /// under it, or `None` where the entry is left out.
    pub open spec fn entries(v: AnnotationView) -> Seq<(Seq<char>, Option<JsonView>)> {
        seq![
            ("name"@, Some(JsonView::Text(v.name))),
            ("value"@, Some(Expression::encode(v.value))),
        ]
    }

    /// Each key of the record is read back with the value written under it,
    /// and no key is written that the record does not declare.
    pub proof fn lemma_entries(v: AnnotationView)
        ensures
            lookup(present(Self::entries(v)), "name"@) == Self::entries(v)[0].1,
            lookup(present(Self::entries(v)), "value"@) == Self::entries(v)[1].1,
            refused_key(
                present(Self::entries(v)),
                Entity::Annotation,
                names(["name", "value"]),
            ) is None,
    {
        let table = Self::entries(v);
        reveal_strlit("name");
        reveal_strlit("value");
        assert("name"@.len() == 4);
        assert("value"@.len() == 5);
        assert(table.len() == 2);
        assert(keys_distinct(table));
        let allowed = names(["name", "value"]);
        assert forall|i: int| 0 <= i < table.len() implies allowed.contains(
            (#[trigger] table[i]).0,
        ) by {
            assert(allowed[i] == table[i].0);
        }
        lemma_present_known(table, allowed);
        lemma_lookup_present(table, 0);
        lemma_lookup_present(table, 1);
    }
}

impl Wire for Annotation {
    open spec fn decode(j: JsonView) -> Result<AnnotationView, ParseErrorView> {
        match strict_object_of(j, Entity::Annotation, names(["name", "value"])) {
            Err(e) => Err(e),
            Ok(fields) => {
                let name = text_at(fields, "name"@, Entity::Annotation);
                let value = item_at::<Expression>(fields, "value"@, Entity::Annotation);
                if name is Err {
                    Err(name->Err_0)
                } else if value is Err {
                    Err(value->Err_0)
                } else {
                    Ok(
                        AnnotationView {
                            name: name->Ok_0,
                            value: value->Ok_0,
                        },
                    )
                }
            },
        }
    }

    open spec fn encode(v: AnnotationView) -> JsonView {
        JsonView::Object(present(Self::entries(v)))
    }

    fn from_json(j: &Json) -> (r: Result<Annotation, ParseError>) {
        let fields = strict_fields_of(j, Entity::Annotation, &["name", "value"])?;
        let name = read_text(fields, "name", Entity::Annotation)?;
        let value = read_item::<Expression>(fields, "value", Entity::Annotation)?;
        Ok(Annotation { name, value })
    }

    fn to_json(&self) -> (j: Json) {
        let w = ObjectWriter::new()
            .put("name", Json::text(self.name.as_str()))
            .put("value", self.value.to_json());
        assert(w.table() =~= Self::entries(self.deep_view()));
        w.finish()
    }

    open spec fn strict_keys() -> Option<Seq<Seq<char>>> {
        Some(names(["name", "value"]))
    }

    open spec fn declared_keys() -> Option<Seq<Seq<char>>> {
        Some(names(["name", "value"]))
    }

    proof fn lemma_refuses_unknown_key(fields: Seq<(Seq<char>, JsonView)>, i: int) {
        lemma_first_unknown_none(fields, names(["name", "value"]));
    }

    proof fn lemma_refuses_repeated_key(fields: Seq<(Seq<char>, JsonView)>, i: int, j: int) {
        let declared = names(["name", "value"]);
        if declared.contains(fields[i].0) {
            lemma_repeated_at(fields, declared, i, j);
        }
    }

    proof fn lemma_round_trip(v: AnnotationView) {
        Self::lemma_entries(v);
        let fields = present(Self::entries(v));
        let object = strict_object_of(
            Self::encode(v),
            Entity::Annotation,
            names(["name", "value"]),
        );
        assert(object is Ok && object->Ok_0 == fields);
        let name = text_at(fields, "name"@, Entity::Annotation);
        let value = item_at::<Expression>(fields, "value"@, Entity::Annotation);
        assert(name == Ok::<Seq<char>, ParseErrorView>(v.name));
        assert(value == Ok::<ExpressionView, ParseErrorView>(v.value)) by {
            Expression::lemma_round_trip(v.value);
        }
    }
}

impl Ranked for Annotation {
    open spec fn ranks_le(a: AnnotationView, b: AnnotationView) -> bool {
        name_le(a.name, b.name)
    }

    fn precedes(&self, other: &Self) -> (r: bool) {
        name_precedes(self.name.as_str(), other.name.as_str())
    }

    proof fn lemma_ranks_total(a: AnnotationView, b: AnnotationView) {
        lemma_bytes_le_total(folded(a.name), folded(b.name));
    }

    proof fn lemma_ranks_transitive(a: AnnotationView, b: AnnotationView, c: AnnotationView) {
        lemma_bytes_le_transitive(folded(a.name), folded(b.name), folded(c.name));
    }
}

impl Annotation {
    /// How `self` stands to `other` in the order of names, case ignored.
    pub fn cmp(&self, other: &Self) -> (r: Ordering)
        ensures
            r == ordering_of(name_rank(self.name@, other.name@)),
    {
        to_ordering(rank_names(self.name.as_str(), other.name.as_str()))
    }
}

} // verus!
