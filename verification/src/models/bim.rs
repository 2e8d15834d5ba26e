//! The document root.

use vstd::prelude::*;
use crate::codec::{
    count_at, count_json, item_at, keys_distinct, lemma_lookup_present, lemma_present_distinct,
    lemma_repeated_at, lenient_fields_of, lenient_object_of, names, present, read_count, read_item,
    read_text, repeated_field, text_at, write_count, ObjectWriter, Wire,
};
use crate::error::{failure, Entity, ErrorKind, ParseError, ParseErrorView};
use crate::json::{lookup, parsed, printed, Json, JsonView};
use crate::models::model::{Model, ModelView};
use crate::models::traits::RecursiveSort;
use crate::sorting::{sort, sorted};

verus! {

/// The root of a document: the model with its name, its identifier and the
/// compatibility level. Fields that the record does not declare are ignored.
#[derive(Debug, PartialEq, Eq, Clone)]
pub struct Bim {
    pub name: String,
    pub compatibility_level: u32,
    pub model: Model,
    pub id: String,
}

/// The model of a [`Bim`].
pub struct BimView {
    pub name: Seq<char>,
    pub compatibility_level: u32,
    pub model: ModelView,
    pub id: Seq<char>,
}

impl DeepView for Bim {
    type V = BimView;

    open spec fn deep_view(&self) -> BimView {
        BimView {
            name: self.name@,
            compatibility_level: self.compatibility_level,
            model: self.model.deep_view(),
            id: self.id@,
        }
    }
}

impl Bim {
    /// The keys of the record in written order, each with the value written
    /// under it, or `None` where the entry is left out.
    pub open spec fn entries(v: BimView) -> Seq<(Seq<char>, Option<JsonView>)> {
        seq![
            ("name"@, Some(JsonView::Text(v.name))),
            ("compatibilityLevel"@, Some(count_json(v.compatibility_level))),
            ("model"@, Some(Model::encode(v.model))),
            ("id"@, Some(JsonView::Text(v.id))),
        ]
    }

    /// Each key of the record is read back with the value written under it,
    /// or as absent where the entry is left out.
    pub proof fn lemma_entries(v: BimView)
        ensures
            lookup(present(Self::entries(v)), "name"@) == Self::entries(v)[0].1,
            lookup(present(Self::entries(v)), "compatibilityLevel"@) == Self::entries(v)[1].1,
            lookup(present(Self::entries(v)), "model"@) == Self::entries(v)[2].1,
            lookup(present(Self::entries(v)), "id"@) == Self::entries(v)[3].1,
            repeated_field(
                present(Self::entries(v)),
                Entity::Document,
                names(["name", "compatibilityLevel", "model", "id"]),
            ) is None,
    {
        let table = Self::entries(v);
        reveal_strlit("name");
        reveal_strlit("compatibilityLevel");
        reveal_strlit("model");
        reveal_strlit("id");
        assert("name"@.len() == 4);
        assert("compatibilityLevel"@.len() == 18);
        assert("model"@.len() == 5);
        assert("id"@.len() == 2);
        assert(table.len() == 4);
        assert(keys_distinct(table));
        lemma_present_distinct(table, names(["name", "compatibilityLevel", "model", "id"]));
        lemma_lookup_present(table, 0);
        lemma_lookup_present(table, 1);
        lemma_lookup_present(table, 2);
        lemma_lookup_present(table, 3);
    }
}

impl Wire for Bim {
    open spec fn decode(j: JsonView) -> Result<BimView, ParseErrorView> {
        match lenient_object_of(
            j,
            Entity::Document,
            names(["name", "compatibilityLevel", "model", "id"]),
        ) {
            Err(e) => Err(e),
            Ok(fields) => {
                let name = text_at(fields, "name"@, Entity::Document);
                let compatibility_level = count_at(fields, "compatibilityLevel"@, Entity::Document);
                let model = item_at::<Model>(fields, "model"@, Entity::Document);
                let id = text_at(fields, "id"@, Entity::Document);
                if name is Err {
                    Err(name->Err_0)
                } else if compatibility_level is Err {
                    Err(compatibility_level->Err_0)
                } else if model is Err {
                    Err(model->Err_0)
                } else if id is Err {
                    Err(id->Err_0)
                } else {
                    Ok(
                        BimView {
                            name: name->Ok_0,
                            compatibility_level: compatibility_level->Ok_0,
                            model: model->Ok_0,
                            id: id->Ok_0,
                        },
                    )
                }
            },
        }
    }

    open spec fn encode(v: BimView) -> JsonView {
        JsonView::Object(present(Self::entries(v)))
    }

    fn from_json(j: &Json) -> (r: Result<Bim, ParseError>) {
        let fields = lenient_fields_of(
            j,
            Entity::Document,
            &["name", "compatibilityLevel", "model", "id"],
        )?;
        let name = read_text(fields, "name", Entity::Document)?;
        let compatibility_level = read_count(fields, "compatibilityLevel", Entity::Document)?;
        let model = read_item::<Model>(fields, "model", Entity::Document)?;
        let id = read_text(fields, "id", Entity::Document)?;
        Ok(Bim { name, compatibility_level, model, id })
    }

    fn to_json(&self) -> (j: Json) {
        let w = ObjectWriter::new()
            .put("name", Json::text(self.name.as_str()))
            .put("compatibilityLevel", write_count(self.compatibility_level))
            .put("model", self.model.to_json())
            .put("id", Json::text(self.id.as_str()));
        assert(w.table() =~= Self::entries(self.deep_view()));
        w.finish()
    }

    open spec fn strict_keys() -> Option<Seq<Seq<char>>> {
        None
    }

    open spec fn declared_keys() -> Option<Seq<Seq<char>>> {
        Some(names(["name", "compatibilityLevel", "model", "id"]))
    }

    proof fn lemma_refuses_unknown_key(fields: Seq<(Seq<char>, JsonView)>, i: int) {
    }

    proof fn lemma_refuses_repeated_key(fields: Seq<(Seq<char>, JsonView)>, i: int, j: int) {
        let declared = names(["name", "compatibilityLevel", "model", "id"]);
        if declared.contains(fields[i].0) {
            lemma_repeated_at(fields, declared, i, j);
        }
    }

    #[verifier::rlimit(50)]
    proof fn lemma_round_trip(v: BimView) {
        Self::lemma_entries(v);
        let fields = present(Self::entries(v));
        let object = lenient_object_of(
            Self::encode(v),
            Entity::Document,
            names(["name", "compatibilityLevel", "model", "id"]),
        );
        assert(object is Ok && object->Ok_0 == fields);
        let name = text_at(fields, "name"@, Entity::Document);
        let compatibility_level = count_at(fields, "compatibilityLevel"@, Entity::Document);
        let model = item_at::<Model>(fields, "model"@, Entity::Document);
        let id = text_at(fields, "id"@, Entity::Document);
        assert(name == Ok::<Seq<char>, ParseErrorView>(v.name));
        assert(compatibility_level == Ok::<u32, ParseErrorView>(v.compatibility_level));
        assert(model == Ok::<ModelView, ParseErrorView>(v.model)) by {
            Model::lemma_round_trip(v.model);
        }
        assert(id == Ok::<Seq<char>, ParseErrorView>(v.id));
    }
}

impl RecursiveSort for Bim {
    open spec fn canonical(v: BimView) -> BimView {
        BimView {
            model: Model::canonical(v.model),
            ..v
        }
    }

    open spec fn is_canonical(v: BimView) -> bool {
        Model::is_canonical(v.model)
    }

    /// Brings every list of the document into canonical order.
    fn recursive_sort(&mut self) {
        self.model.recursive_sort();
    }

    proof fn lemma_canonical_sorted(v: BimView) {
        Model::lemma_canonical_sorted(v.model);
    }

    proof fn lemma_canonical_fixpoint(v: BimView) {
        Model::lemma_canonical_fixpoint(v.model);
    }
}

/// What `Bim::from_str` returns for `text`, but for the reader's message
/// where the text is no JSON.
pub open spec fn read_document(text: Seq<char>) -> Result<BimView, ParseErrorView> {
    match parsed(text) {
        Some(j) => Bim::decode(j),
        None => Err(failure(ErrorKind::Malformed, Entity::Document, Seq::empty())),
    }
}

/// What `Bim::to_string` returns for the document `v`.
pub open spec fn written_document(v: BimView) -> Seq<char> {
    match printed(Bim::encode(v)) {
        Some(text) => text,
        None => "null"@,
    }
}

impl Bim {
    /// Brings every list of the document into canonical order: each list
    /// sorted by the order of its records, the lists that a record owns
    /// before the list that holds the record.
    pub fn sort(&mut self)
        ensures
            final(self).deep_view() == Bim::canonical(old(self).deep_view()),
            Bim::is_canonical(final(self).deep_view()),
    {
        self.recursive_sort();
    }

    /// Reads a document from JSON text. Text that is no JSON gives a
    /// `Malformed` failure with the reader's message; JSON that is no
    /// document gives the failure that `Bim::decode` names. The text is
    /// read as `Json::parse` reads it, with the last entry of a key that
    /// stands twice; `from_json` refuses a value in which both are kept.
    pub fn from_str(s: &str) -> (r: Result<Bim, ParseError>)
        ensures
            match read_document(s@) {
                Ok(v) => r is Ok && r->Ok_0.deep_view() == v,
                Err(e) => r is Err && r->Err_0.kind == e.kind && r->Err_0.entity == e.entity
                    && r->Err_0.field@ == e.field && (e.kind != ErrorKind::Malformed
                    ==> r->Err_0.detail@ == e.detail),
            },
    {
        let j = Json::parse(s)?;
        Bim::from_json(&j)
    }

    /// Writes the document as indented JSON text; `null` where no text can
    /// be written.
    pub fn to_string(&self) -> (r: String)
        ensures
            r@ == written_document(self.deep_view()),
    {
        match self.to_json().render() {
            Some(text) => text,
            None => "null".to_owned(),
        }
    }
}

} // verus!
