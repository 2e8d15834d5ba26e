//! Roles and their members.

use std::cmp::Ordering;
use vstd::prelude::*;
use crate::codec::{
    keys_distinct, lemma_items_round_trip, lemma_lookup_present, lemma_present_distinct,
    lemma_repeated_at, lenient_fields_of, lenient_object_of, list_at, list_json, names, present,
    read_list, read_text, repeated_field, text_at, write_list, ObjectWriter, Wire,
};
use crate::error::{Entity, ParseError, ParseErrorView};
use crate::json::{lookup, Json, JsonView};
use crate::models::traits::RecursiveSort;
use crate::sorting::{
    lemma_stable_sort_fixpoint, lemma_stable_sort_sorted, sort, sorted, stable_sort, Ranked,
};
use crate::text::{
    folded, lemma_bytes_le_total, lemma_bytes_le_transitive, name_le, name_precedes, name_rank,
    ordering_of, rank_names, to_ordering,
};

verus! {

/// A role of the model with the members that hold it. Roles are ordered by
/// name, case ignored. Fields that the record does not declare are ignored.
#[derive(Debug, PartialEq, Eq, Clone)]
pub struct Role {
    pub name: String,
    pub model_permission: String,
    pub members: Vec<Member>,
}

/// The model of a [`Role`].
pub struct RoleView {
    pub name: Seq<char>,
    pub model_permission: Seq<char>,
    pub members: Seq<MemberView>,
}

impl DeepView for Role {
    type V = RoleView;

    open spec fn deep_view(&self) -> RoleView {
        RoleView {
            name: self.name@,
            model_permission: self.model_permission@,
            members: self.members.deep_view(),
        }
    }
}

impl Role {
    /// The keys of the record in written order, each with the value written
    /// under it, or `None` where the entry is left out.
    pub open spec fn entries(v: RoleView) -> Seq<(Seq<char>, Option<JsonView>)> {
        seq![
            ("name"@, Some(JsonView::Text(v.name))),
            ("modelPermission"@, Some(JsonView::Text(v.model_permission))),
            ("members"@, Some(list_json::<Member>(v.members))),
        ]
    }

    /// Each key of the record is read back with the value written under it,
    /// or as absent where the entry is left out.
    pub proof fn lemma_entries(v: RoleView)
        ensures
            lookup(present(Self::entries(v)), "name"@) == Self::entries(v)[0].1,
            lookup(present(Self::entries(v)), "modelPermission"@) == Self::entries(v)[1].1,
            lookup(present(Self::entries(v)), "members"@) == Self::entries(v)[2].1,
            repeated_field(
                present(Self::entries(v)),
                Entity::Role,
                names(["name", "modelPermission", "members"]),
            ) is None,
    {
        let table = Self::entries(v);
        reveal_strlit("name");
        reveal_strlit("modelPermission");
        reveal_strlit("members");
        assert("name"@.len() == 4);
        assert("modelPermission"@.len() == 15);
        assert("members"@.len() == 7);
        assert(table.len() == 3);
        assert(keys_distinct(table));
        lemma_present_distinct(table, names(["name", "modelPermission", "members"]));
        lemma_lookup_present(table, 0);
        lemma_lookup_present(table, 1);
        lemma_lookup_present(table, 2);
    }
}

impl Wire for Role {
    open spec fn decode(j: JsonView) -> Result<RoleView, ParseErrorView> {
        match lenient_object_of(j, Entity::Role, names(["name", "modelPermission", "members"])) {
            Err(e) => Err(e),
            Ok(fields) => {
                let name = text_at(fields, "name"@, Entity::Role);
                let model_permission = text_at(fields, "modelPermission"@, Entity::Role);
                let members = list_at::<Member>(fields, "members"@, Entity::Role);
                if name is Err {
                    Err(name->Err_0)
                } else if model_permission is Err {
                    Err(model_permission->Err_0)
                } else if members is Err {
                    Err(members->Err_0)
                } else {
                    Ok(
                        RoleView {
                            name: name->Ok_0,
                            model_permission: model_permission->Ok_0,
                            members: members->Ok_0,
                        },
                    )
                }
            },
        }
    }

    open spec fn encode(v: RoleView) -> JsonView {
        JsonView::Object(present(Self::entries(v)))
    }

    fn from_json(j: &Json) -> (r: Result<Role, ParseError>) {
        let fields = lenient_fields_of(j, Entity::Role, &["name", "modelPermission", "members"])?;
        let name = read_text(fields, "name", Entity::Role)?;
        let model_permission = read_text(fields, "modelPermission", Entity::Role)?;
        let members = read_list::<Member>(fields, "members", Entity::Role)?;
        Ok(Role { name, model_permission, members })
    }

    fn to_json(&self) -> (j: Json) {
        let w = ObjectWriter::new()
            .put("name", Json::text(self.name.as_str()))
            .put("modelPermission", Json::text(self.model_permission.as_str()))
            .put("members", write_list(&self.members));
        assert(w.table() =~= Self::entries(self.deep_view()));
        w.finish()
    }

    open spec fn strict_keys() -> Option<Seq<Seq<char>>> {
        None
    }

    open spec fn declared_keys() -> Option<Seq<Seq<char>>> {
        Some(names(["name", "modelPermission", "members"]))
    }

    proof fn lemma_refuses_unknown_key(fields: Seq<(Seq<char>, JsonView)>, i: int) {
    }

    proof fn lemma_refuses_repeated_key(fields: Seq<(Seq<char>, JsonView)>, i: int, j: int) {
        let declared = names(["name", "modelPermission", "members"]);
        if declared.contains(fields[i].0) {
            lemma_repeated_at(fields, declared, i, j);
        }
    }

    proof fn lemma_round_trip(v: RoleView) {
        Self::lemma_entries(v);
        let fields = present(Self::entries(v));
        let object = lenient_object_of(
            Self::encode(v),
            Entity::Role,
            names(["name", "modelPermission", "members"]),
        );
        assert(object is Ok && object->Ok_0 == fields);
        let name = text_at(fields, "name"@, Entity::Role);
        let model_permission = text_at(fields, "modelPermission"@, Entity::Role);
        let members = list_at::<Member>(fields, "members"@, Entity::Role);
        assert(name == Ok::<Seq<char>, ParseErrorView>(v.name));
        assert(model_permission == Ok::<Seq<char>, ParseErrorView>(v.model_permission));
        assert(members == Ok::<Seq<MemberView>, ParseErrorView>(v.members)) by {
            lemma_items_round_trip::<Member>(v.members);
        }
    }
}

impl Ranked for Role {
    open spec fn ranks_le(a: RoleView, b: RoleView) -> bool {
        name_le(a.name, b.name)
    }

    fn precedes(&self, other: &Self) -> (r: bool) {
        name_precedes(self.name.as_str(), other.name.as_str())
    }

    proof fn lemma_ranks_total(a: RoleView, b: RoleView) {
        lemma_bytes_le_total(folded(a.name), folded(b.name));
    }

    proof fn lemma_ranks_transitive(a: RoleView, b: RoleView, c: RoleView) {
        lemma_bytes_le_transitive(folded(a.name), folded(b.name), folded(c.name));
    }
}

impl Role {
    /// How `self` stands to `other` in the order of names, case ignored.
    pub fn cmp(&self, other: &Self) -> (r: Ordering)
        ensures
            r == ordering_of(name_rank(self.name@, other.name@)),
    {
        to_ordering(rank_names(self.name.as_str(), other.name.as_str()))
    }
}

impl RecursiveSort for Role {
    open spec fn canonical(v: RoleView) -> RoleView {
        RoleView {
            members: stable_sort::<Member>(v.members),
            ..v
        }
    }

    open spec fn is_canonical(v: RoleView) -> bool {
        sorted::<Member>(v.members)
    }

    /// Sorts the members.
    fn recursive_sort(&mut self) {
        sort(&mut self.members);
    }

    proof fn lemma_canonical_sorted(v: RoleView) {
        lemma_stable_sort_sorted::<Member>(v.members);
    }

    proof fn lemma_canonical_fixpoint(v: RoleView) {
        lemma_stable_sort_fixpoint::<Member>(v.members);
    }
}

/// A member of a role. Members are ordered by name, case ignored. Fields that
/// the record does not declare are ignored.
#[derive(Debug, PartialEq, Eq, Clone)]
pub struct Member {
    pub name: String,
    pub id: String,
    pub identity_provider: String,
}

/// The model of a [`Member`].
pub struct MemberView {
    pub name: Seq<char>,
    pub id: Seq<char>,
    pub identity_provider: Seq<char>,
}

impl DeepView for Member {
    type V = MemberView;

    open spec fn deep_view(&self) -> MemberView {
        MemberView {
            name: self.name@,
            id: self.id@,
            identity_provider: self.identity_provider@,
        }
    }
}

impl Member {
    /// The keys of the record in written order, each with the value written
    /// under it, or `None` where the entry is left out.
    pub open spec fn entries(v: MemberView) -> Seq<(Seq<char>, Option<JsonView>)> {
        seq![
            ("memberName"@, Some(JsonView::Text(v.name))),
            ("memberId"@, Some(JsonView::Text(v.id))),
            ("identityProvider"@, Some(JsonView::Text(v.identity_provider))),
        ]
    }

    /// Each key of the record is read back with the value written under it,
    /// or as absent where the entry is left out.
    pub proof fn lemma_entries(v: MemberView)
        ensures
            lookup(present(Self::entries(v)), "memberName"@) == Self::entries(v)[0].1,
            lookup(present(Self::entries(v)), "memberId"@) == Self::entries(v)[1].1,
            lookup(present(Self::entries(v)), "identityProvider"@) == Self::entries(v)[2].1,
            repeated_field(
                present(Self::entries(v)),
                Entity::Member,
                names(["memberName", "memberId", "identityProvider"]),
            ) is None,
    {
        let table = Self::entries(v);
        reveal_strlit("memberName");
        reveal_strlit("memberId");
        reveal_strlit("identityProvider");
        assert("memberName"@.len() == 10);
        assert("memberId"@.len() == 8);
        assert("identityProvider"@.len() == 16);
        assert(table.len() == 3);
        assert(keys_distinct(table));
        lemma_present_distinct(table, names(["memberName", "memberId", "identityProvider"]));
        lemma_lookup_present(table, 0);
        lemma_lookup_present(table, 1);
        lemma_lookup_present(table, 2);
    }
}

impl Wire for Member {
    open spec fn decode(j: JsonView) -> Result<MemberView, ParseErrorView> {
        match lenient_object_of(
            j,
            Entity::Member,
            names(["memberName", "memberId", "identityProvider"]),
        ) {
            Err(e) => Err(e),
            Ok(fields) => {
                let name = text_at(fields, "memberName"@, Entity::Member);
                let id = text_at(fields, "memberId"@, Entity::Member);
                let identity_provider = text_at(fields, "identityProvider"@, Entity::Member);
                if name is Err {
                    Err(name->Err_0)
                } else if id is Err {
                    Err(id->Err_0)
                } else if identity_provider is Err {
                    Err(identity_provider->Err_0)
                } else {
                    Ok(
                        MemberView {
                            name: name->Ok_0,
                            id: id->Ok_0,
                            identity_provider: identity_provider->Ok_0,
                        },
                    )
                }
            },
        }
    }

    open spec fn encode(v: MemberView) -> JsonView {
        JsonView::Object(present(Self::entries(v)))
    }

    fn from_json(j: &Json) -> (r: Result<Member, ParseError>) {
        let fields = lenient_fields_of(
            j,
            Entity::Member,
            &["memberName", "memberId", "identityProvider"],
        )?;
        let name = read_text(fields, "memberName", Entity::Member)?;
        let id = read_text(fields, "memberId", Entity::Member)?;
        let identity_provider = read_text(fields, "identityProvider", Entity::Member)?;
        Ok(Member { name, id, identity_provider })
    }

    fn to_json(&self) -> (j: Json) {
        let w = ObjectWriter::new()
            .put("memberName", Json::text(self.name.as_str()))
            .put("memberId", Json::text(self.id.as_str()))
            .put("identityProvider", Json::text(self.identity_provider.as_str()));
        assert(w.table() =~= Self::entries(self.deep_view()));
        w.finish()
    }

    open spec fn strict_keys() -> Option<Seq<Seq<char>>> {
        None
    }

    open spec fn declared_keys() -> Option<Seq<Seq<char>>> {
        Some(names(["memberName", "memberId", "identityProvider"]))
    }

    proof fn lemma_refuses_unknown_key(fields: Seq<(Seq<char>, JsonView)>, i: int) {
    }

    proof fn lemma_refuses_repeated_key(fields: Seq<(Seq<char>, JsonView)>, i: int, j: int) {
        let declared = names(["memberName", "memberId", "identityProvider"]);
        if declared.contains(fields[i].0) {
            lemma_repeated_at(fields, declared, i, j);
        }
    }

    proof fn lemma_round_trip(v: MemberView) {
        Self::lemma_entries(v);
        let fields = present(Self::entries(v));
        let object = lenient_object_of(
            Self::encode(v),
            Entity::Member,
            names(["memberName", "memberId", "identityProvider"]),
        );
        assert(object is Ok && object->Ok_0 == fields);
        let name = text_at(fields, "memberName"@, Entity::Member);
        let id = text_at(fields, "memberId"@, Entity::Member);
        let identity_provider = text_at(fields, "identityProvider"@, Entity::Member);
        assert(name == Ok::<Seq<char>, ParseErrorView>(v.name));
        assert(id == Ok::<Seq<char>, ParseErrorView>(v.id));
        assert(identity_provider == Ok::<Seq<char>, ParseErrorView>(v.identity_provider));
    }
}

impl Ranked for Member {
    open spec fn ranks_le(a: MemberView, b: MemberView) -> bool {
        name_le(a.name, b.name)
    }

    fn precedes(&self, other: &Self) -> (r: bool) {
        name_precedes(self.name.as_str(), other.name.as_str())
    }

    proof fn lemma_ranks_total(a: MemberView, b: MemberView) {
        lemma_bytes_le_total(folded(a.name), folded(b.name));
    }

    proof fn lemma_ranks_transitive(a: MemberView, b: MemberView, c: MemberView) {
        lemma_bytes_le_transitive(folded(a.name), folded(b.name), folded(c.name));
    }
}

impl Member {
    /// How `self` stands to `other` in the order of names, case ignored.
    pub fn cmp(&self, other: &Self) -> (r: Ordering)
        ensures
            r == ordering_of(name_rank(self.name@, other.name@)),
    {
        to_ordering(rank_names(self.name.as_str(), other.name.as_str()))
    }
}

} // verus!
