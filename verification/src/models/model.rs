//! The model: every top-level list of a document.

use vstd::prelude::*;
use crate::codec::{
    flag_or_at, flag_unless, keys_distinct, lemma_items_round_trip, lemma_lookup_present,
    lemma_present_distinct, lemma_repeated_at, lenient_fields_of, lenient_object_of, list_at,
    list_json, names, opt_list_at, opt_list_json, present, read_flag_or, read_list, read_opt_list,
    read_text, repeated_field, text_at, write_flag_unless, write_list, write_opt_list,
    ObjectWriter, Wire,
};
use crate::error::{Entity, ParseError, ParseErrorView};
use crate::json::{lookup, Json, JsonView};
use crate::models::annotations::{Annotation, AnnotationView};
use crate::models::datasource::{DataSource, DataSourceView};
use crate::models::expression::{ModelExpression, ModelExpressionView};
use crate::models::relationship::{Relationship, RelationshipView};
use crate::models::roles::{Role, RoleView};
use crate::models::table::{Table, TableView};
use crate::models::traits::RecursiveSort;
use crate::sorting::{
    lemma_stable_sort_fixpoint, lemma_stable_sort_sorted, sort, sorted, stable_sort,
};

verus! {

/// The analytical schema of a document. Fields that the record does not
/// declare are ignored.
#[derive(Debug, PartialEq, Eq, Clone)]
pub struct Model {
    pub culture: String,
    /// Left out of the JSON form when `true`, and read as `true` when absent.
    pub discourage_implicit_measures: bool,
    pub data_sources: Vec<DataSource>,
    pub tables: Vec<Table>,
    pub relationships: Vec<Relationship>,
    pub roles: Option<Vec<Role>>,
    pub expressions: Vec<ModelExpression>,
    pub annotations: Vec<Annotation>,
}

/// The model of a [`Model`].
pub struct ModelView {
    pub culture: Seq<char>,
    pub discourage_implicit_measures: bool,
    pub data_sources: Seq<DataSourceView>,
    pub tables: Seq<TableView>,
    pub relationships: Seq<RelationshipView>,
    pub roles: Option<Seq<RoleView>>,
    pub expressions: Seq<ModelExpressionView>,
    pub annotations: Seq<AnnotationView>,
}

impl DeepView for Model {
    type V = ModelView;

    open spec fn deep_view(&self) -> ModelView {
        ModelView {
            culture: self.culture@,
            discourage_implicit_measures: self.discourage_implicit_measures,
            data_sources: self.data_sources.deep_view(),
            tables: self.tables.deep_view(),
            relationships: self.relationships.deep_view(),
            roles: self.roles.deep_view(),
            expressions: self.expressions.deep_view(),
            annotations: self.annotations.deep_view(),
        }
    }
}

impl Model {
    /// The keys of the record in written order, each with the value written
    /// under it, or `None` where the entry is left out.
    pub open spec fn entries(v: ModelView) -> Seq<(Seq<char>, Option<JsonView>)> {
        seq![
            ("culture"@, Some(JsonView::Text(v.culture))),
            ("discourageImplicitMeasures"@, flag_unless(v.discourage_implicit_measures, true)),
            ("dataSources"@, Some(list_json::<DataSource>(v.data_sources))),
            ("tables"@, Some(list_json::<Table>(v.tables))),
            ("relationships"@, Some(list_json::<Relationship>(v.relationships))),
            ("roles"@, opt_list_json::<Role>(v.roles)),
            ("expressions"@, Some(list_json::<ModelExpression>(v.expressions))),
            ("annotations"@, Some(list_json::<Annotation>(v.annotations))),
        ]
    }

    /// Each key of the record is read back with the value written under it,
    /// or as absent where the entry is left out.
    pub proof fn lemma_entries(v: ModelView)
        ensures
            lookup(present(Self::entries(v)), "culture"@) == Self::entries(v)[0].1,
            lookup(
                present(Self::entries(v)),
                "discourageImplicitMeasures"@) == Self::entries(v,
            )[1].1,
            lookup(present(Self::entries(v)), "dataSources"@) == Self::entries(v)[2].1,
            lookup(present(Self::entries(v)), "tables"@) == Self::entries(v)[3].1,
            lookup(present(Self::entries(v)), "relationships"@) == Self::entries(v)[4].1,
            lookup(present(Self::entries(v)), "roles"@) == Self::entries(v)[5].1,
            lookup(present(Self::entries(v)), "expressions"@) == Self::entries(v)[6].1,
            lookup(present(Self::entries(v)), "annotations"@) == Self::entries(v)[7].1,
            repeated_field(
                present(Self::entries(v)),
                Entity::Model,
                names([
                    "culture", "discourageImplicitMeasures", "dataSources", "tables",
                    "relationships", "roles", "expressions", "annotations",
                ]),
            ) is None,
    {
        let table = Self::entries(v);
        reveal_strlit("culture");
        reveal_strlit("discourageImplicitMeasures");
        reveal_strlit("dataSources");
        reveal_strlit("tables");
        reveal_strlit("relationships");
        reveal_strlit("roles");
        reveal_strlit("expressions");
        reveal_strlit("annotations");
        assert("culture"@.len() == 7);
        assert("discourageImplicitMeasures"@.len() == 26);
        assert("dataSources"@.len() == 11);
        assert("tables"@.len() == 6);
        assert("relationships"@.len() == 13);
        assert("roles"@.len() == 5);
        assert("expressions"@.len() == 11);
        assert("annotations"@.len() == 11);
        assert("dataSources"@[0] != "expressions"@[0]);
        assert("dataSources"@[0] != "annotations"@[0]);
        assert("expressions"@[0] != "annotations"@[0]);
        assert(table.len() == 8);
        assert(keys_distinct(table));
        lemma_present_distinct(
            table,
            names([
                "culture", "discourageImplicitMeasures", "dataSources", "tables", "relationships",
                "roles", "expressions", "annotations",
            ]),
        );
        lemma_lookup_present(table, 0);
        lemma_lookup_present(table, 1);
        lemma_lookup_present(table, 2);
        lemma_lookup_present(table, 3);
        lemma_lookup_present(table, 4);
        lemma_lookup_present(table, 5);
        lemma_lookup_present(table, 6);
        lemma_lookup_present(table, 7);
    }
}

impl Wire for Model {
    open spec fn decode(j: JsonView) -> Result<ModelView, ParseErrorView> {
        match lenient_object_of(
            j,
            Entity::Model,
            names([
                "culture", "discourageImplicitMeasures", "dataSources", "tables", "relationships",
                "roles", "expressions", "annotations",
            ]),
        ) {
            Err(e) => Err(e),
            Ok(fields) => {
                let culture = text_at(fields, "culture"@, Entity::Model);
                let discourage_implicit_measures = flag_or_at(
                    fields,
                    "discourageImplicitMeasures"@,
                    Entity::Model,
                    true,
                );
                let data_sources = list_at::<DataSource>(fields, "dataSources"@, Entity::Model);
                let tables = list_at::<Table>(fields, "tables"@, Entity::Model);
                let relationships = list_at::<Relationship>(
                    fields,
                    "relationships"@,
                    Entity::Model,
                );
                let roles = opt_list_at::<Role>(fields, "roles"@, Entity::Model);
                let expressions = list_at::<ModelExpression>(fields, "expressions"@, Entity::Model);
                let annotations = list_at::<Annotation>(fields, "annotations"@, Entity::Model);
                if culture is Err {
                    Err(culture->Err_0)
                } else if discourage_implicit_measures is Err {
                    Err(discourage_implicit_measures->Err_0)
                } else if data_sources is Err {
                    Err(data_sources->Err_0)
                } else if tables is Err {
                    Err(tables->Err_0)
                } else if relationships is Err {
                    Err(relationships->Err_0)
                } else if roles is Err {
                    Err(roles->Err_0)
                } else if expressions is Err {
                    Err(expressions->Err_0)
                } else if annotations is Err {
                    Err(annotations->Err_0)
                } else {
                    Ok(
                        ModelView {
                            culture: culture->Ok_0,
                            discourage_implicit_measures: discourage_implicit_measures->Ok_0,
                            data_sources: data_sources->Ok_0,
                            tables: tables->Ok_0,
                            relationships: relationships->Ok_0,
                            roles: roles->Ok_0,
                            expressions: expressions->Ok_0,
                            annotations: annotations->Ok_0,
                        },
                    )
                }
            },
        }
    }

    open spec fn encode(v: ModelView) -> JsonView {
        JsonView::Object(present(Self::entries(v)))
    }

    fn from_json(j: &Json) -> (r: Result<Model, ParseError>) {
        let fields = lenient_fields_of(
            j,
            Entity::Model,
            &[
                "culture", "discourageImplicitMeasures", "dataSources", "tables", "relationships",
                "roles", "expressions", "annotations",
            ],
        )?;
        let culture = read_text(fields, "culture", Entity::Model)?;
        let discourage_implicit_measures = read_flag_or(
            fields,
            "discourageImplicitMeasures",
            Entity::Model,
            true,
        )?;
        let data_sources = read_list::<DataSource>(fields, "dataSources", Entity::Model)?;
        let tables = read_list::<Table>(fields, "tables", Entity::Model)?;
        let relationships = read_list::<Relationship>(fields, "relationships", Entity::Model)?;
        let roles = read_opt_list::<Role>(fields, "roles", Entity::Model)?;
        let expressions = read_list::<ModelExpression>(fields, "expressions", Entity::Model)?;
        let annotations = read_list::<Annotation>(fields, "annotations", Entity::Model)?;
        Ok(
            Model {
                culture,
                discourage_implicit_measures,
                data_sources,
                tables,
                relationships,
                roles,
                expressions,
                annotations,
            },
        )
    }

    fn to_json(&self) -> (j: Json) {
        let w = ObjectWriter::new()
            .put("culture", Json::text(self.culture.as_str()))
            .put_opt(
                "discourageImplicitMeasures",
                write_flag_unless(self.discourage_implicit_measures, true),
            )
            .put("dataSources", write_list(&self.data_sources))
            .put("tables", write_list(&self.tables))
            .put("relationships", write_list(&self.relationships))
            .put_opt("roles", write_opt_list(&self.roles))
            .put("expressions", write_list(&self.expressions))
            .put("annotations", write_list(&self.annotations));
        assert(w.table() =~= Self::entries(self.deep_view()));
        w.finish()
    }

    open spec fn strict_keys() -> Option<Seq<Seq<char>>> {
        None
    }

    open spec fn declared_keys() -> Option<Seq<Seq<char>>> {
        Some(
            names([
                "culture", "discourageImplicitMeasures", "dataSources", "tables", "relationships",
                "roles", "expressions", "annotations",
            ]),
        )
    }

    proof fn lemma_refuses_unknown_key(fields: Seq<(Seq<char>, JsonView)>, i: int) {
    }

    proof fn lemma_refuses_repeated_key(fields: Seq<(Seq<char>, JsonView)>, i: int, j: int) {
        let declared = names(
            [
                "culture", "discourageImplicitMeasures", "dataSources", "tables", "relationships",
                "roles", "expressions", "annotations",
            ],
        );
        if declared.contains(fields[i].0) {
            lemma_repeated_at(fields, declared, i, j);
        }
    }

    #[verifier::rlimit(50)]
    proof fn lemma_round_trip(v: ModelView) {
        Self::lemma_entries(v);
        let fields = present(Self::entries(v));
        let object = lenient_object_of(
            Self::encode(v),
            Entity::Model,
            names([
                "culture", "discourageImplicitMeasures", "dataSources", "tables", "relationships",
                "roles", "expressions", "annotations",
            ]),
        );
        assert(object is Ok && object->Ok_0 == fields);
        let culture = text_at(fields, "culture"@, Entity::Model);
        let discourage_implicit_measures = flag_or_at(
            fields,
            "discourageImplicitMeasures"@,
            Entity::Model,
            true,
        );
        let data_sources = list_at::<DataSource>(fields, "dataSources"@, Entity::Model);
        let tables = list_at::<Table>(fields, "tables"@, Entity::Model);
        let relationships = list_at::<Relationship>(fields, "relationships"@, Entity::Model);
        let roles = opt_list_at::<Role>(fields, "roles"@, Entity::Model);
        let expressions = list_at::<ModelExpression>(fields, "expressions"@, Entity::Model);
        let annotations = list_at::<Annotation>(fields, "annotations"@, Entity::Model);
        assert(culture == Ok::<Seq<char>, ParseErrorView>(v.culture));
        assert(discourage_implicit_measures->Ok_0 == v.discourage_implicit_measures
            && discourage_implicit_measures is Ok);
        assert(data_sources == Ok::<Seq<DataSourceView>, ParseErrorView>(v.data_sources)) by {
            lemma_items_round_trip::<DataSource>(v.data_sources);
        }
        assert(tables == Ok::<Seq<TableView>, ParseErrorView>(v.tables)) by {
            lemma_items_round_trip::<Table>(v.tables);
        }
        assert(relationships == Ok::<Seq<RelationshipView>, ParseErrorView>(v.relationships)) by {
            lemma_items_round_trip::<Relationship>(v.relationships);
        }
        assert(roles == Ok::<Option<Seq<RoleView>>, ParseErrorView>(v.roles)) by {
            if v.roles is Some {
                lemma_items_round_trip::<Role>(v.roles->0);
            }
        }
        assert(expressions == Ok::<Seq<ModelExpressionView>, ParseErrorView>(v.expressions)) by {
            lemma_items_round_trip::<ModelExpression>(v.expressions);
        }
        assert(annotations == Ok::<Seq<AnnotationView>, ParseErrorView>(v.annotations)) by {
            lemma_items_round_trip::<Annotation>(v.annotations);
        }
    }
}

impl RecursiveSort for Model {
    open spec fn canonical(v: ModelView) -> ModelView {
        ModelView {
            data_sources: stable_sort::<DataSource>(v.data_sources),
            tables: Vec::<Table>::canonical(v.tables),
            relationships: stable_sort::<Relationship>(v.relationships),
            roles: Option::<Vec<Role>>::canonical(v.roles),
            expressions: stable_sort::<ModelExpression>(v.expressions),
            annotations: stable_sort::<Annotation>(v.annotations),
            ..v
        }
    }

    open spec fn is_canonical(v: ModelView) -> bool {
        &&& sorted::<DataSource>(v.data_sources)
        &&& Vec::<Table>::is_canonical(v.tables)
        &&& sorted::<Relationship>(v.relationships)
        &&& Option::<Vec<Role>>::is_canonical(v.roles)
        &&& sorted::<ModelExpression>(v.expressions)
        &&& sorted::<Annotation>(v.annotations)
    }

    /// Brings every list of the model into canonical order, the lists of
    /// its tables and roles first.
    fn recursive_sort(&mut self) {
        sort(&mut self.data_sources);
        self.tables.recursive_sort();
        sort(&mut self.relationships);
        self.roles.recursive_sort();
        sort(&mut self.expressions);
        sort(&mut self.annotations);
    }

    proof fn lemma_canonical_sorted(v: ModelView) {
        lemma_stable_sort_sorted::<DataSource>(v.data_sources);
        Vec::<Table>::lemma_canonical_sorted(v.tables);
        lemma_stable_sort_sorted::<Relationship>(v.relationships);
        Option::<Vec<Role>>::lemma_canonical_sorted(v.roles);
        lemma_stable_sort_sorted::<ModelExpression>(v.expressions);
        lemma_stable_sort_sorted::<Annotation>(v.annotations);
    }

    proof fn lemma_canonical_fixpoint(v: ModelView) {
        lemma_stable_sort_fixpoint::<DataSource>(v.data_sources);
        Vec::<Table>::lemma_canonical_fixpoint(v.tables);
        lemma_stable_sort_fixpoint::<Relationship>(v.relationships);
        Option::<Vec<Role>>::lemma_canonical_fixpoint(v.roles);
        lemma_stable_sort_fixpoint::<ModelExpression>(v.expressions);
        lemma_stable_sort_fixpoint::<Annotation>(v.annotations);
    }
}

} // verus!
