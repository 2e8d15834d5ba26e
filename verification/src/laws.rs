//! What holds of reading, writing and ordering, for every input.

use vstd::prelude::*;
use crate::codec::{first_unknown, lemma_first_unknown_none, strict_object_of, text_at, Wire};
use crate::error::{Entity, ErrorKind, ParseErrorView};
use crate::json::{lookup, JsonView};
use crate::models::annotations::Annotation;
use crate::models::bim::{Bim, BimView};
use crate::models::datasource::{
    Address, ConnectionDetails, ConnectionDetailsView, CredentialType, DataSource,
    DataSourceOption,
};
use crate::models::expression::ModelExpression;
use crate::models::model::{Model, ModelView};
use crate::models::relationship::{Relationship, RelationshipView};
use crate::models::roles::{Member, Role};
use crate::models::table::calculation_group::{
    CalculationGroup, CalculationItem, CalculationItemView, FormatStringDefinition,
};
use crate::models::table::column::{Calculated, CalculatedView};
use crate::models::table::measure::Kpi;
use crate::models::table::{Column, Measure, Partition, Source, Table};
use crate::models::traits::{all_canonical, each_canonical, RecursiveSort};
use crate::sorting::{
    lemma_stable_sort_permutes, lemma_stable_sort_sorted, lemma_stable_sort_stable, level_with,
    sorted, stable_sort, Ranked,
};

verus! {

/// Reading what was written gives the value back, for every record type:
/// written text never loses or changes a value.
pub proof fn lemma_written_value_is_read_back<T: Wire>(v: T::V)
    ensures
        T::decode(T::encode(v)) == Ok::<T::V, ParseErrorView>(v),
{
    T::lemma_round_trip(v);
}

/// Reading is a fixed point after one cycle, for every record type: what is
/// read from a JSON value is read again from what is written for it. The
/// written value need not be the JSON value that was read; entries that hold
/// a default may be gone.
pub proof fn lemma_reading_is_a_fixed_point<T: Wire>(j: JsonView)
    requires
        T::decode(j) is Ok,
    ensures
        T::decode(T::encode(T::decode(j)->Ok_0)) == T::decode(j),
{
    T::lemma_round_trip(T::decode(j)->Ok_0);
}

/// Bringing a record into canonical order twice gives what doing it once
/// gives, for every record type that owns lists.
pub proof fn lemma_canonical_is_idempotent<T: RecursiveSort>(v: T::V)
    ensures
        T::canonical(T::canonical(v)) == T::canonical(v),
{
    T::lemma_canonical_sorted(v);
    T::lemma_canonical_fixpoint(T::canonical(v));
}

/// Canonical order changes nothing in a record whose lists are sorted.
pub proof fn lemma_canonical_keeps_sorted_record<T: RecursiveSort>(v: T::V)
    requires
        T::is_canonical(v),
    ensures
        T::canonical(v) == v,
{
    T::lemma_canonical_fixpoint(v);
}

/// In a sorted list each element may stand before the next: its key is at
/// most the key of its neighbour, in the order of the record type.
pub proof fn lemma_sorted_neighbours<T: Ranked>(list: Seq<T::V>, i: int)
    requires
        0 <= i,
        i + 1 < list.len(),
    ensures
        stable_sort::<T>(list).len() == list.len(),
        T::ranks_le(stable_sort::<T>(list)[i], stable_sort::<T>(list)[i + 1]),
{
    lemma_stable_sort_sorted::<T>(list);
    lemma_stable_sort_permutes::<T>(list);
}

/// In the canonical form of a list of records that own lists, each element
/// may stand before the next, and each element is in canonical form itself.
pub proof fn lemma_canonical_neighbours<T: RecursiveSort + Ranked>(list: Seq<T::V>, i: int)
    requires
        0 <= i,
        i + 1 < list.len(),
    ensures
        Vec::<T>::canonical(list).len() == list.len(),
        T::ranks_le(Vec::<T>::canonical(list)[i], Vec::<T>::canonical(list)[i + 1]),
        all_canonical::<T>(Vec::<T>::canonical(list)),
{
    Vec::<T>::lemma_canonical_sorted(list);
    lemma_stable_sort_permutes::<T>(list.map_values(|v: T::V| T::canonical(v)));
}

/// Sorting keeps what a list holds: each element stands in the sorted list
/// as often as before, and elements that rank level with one another keep
/// their order.
pub proof fn lemma_sorting_keeps_elements<T: Ranked>(list: Seq<T::V>, x: T::V)
    ensures
        stable_sort::<T>(list).to_multiset() == list.to_multiset(),
        stable_sort::<T>(list).filter(level_with::<T>(x)) == list.filter(level_with::<T>(x)),
{
    lemma_stable_sort_permutes::<T>(list);
    lemma_stable_sort_stable::<T>(list, x);
}

/// The canonical form of a list holds the canonical forms of its elements,
/// each as often as the list holds the element.
pub proof fn lemma_canonical_keeps_elements<T: RecursiveSort + Ranked>(list: Seq<T::V>)
    ensures
        Vec::<T>::canonical(list).to_multiset() == each_canonical::<T>(list).to_multiset(),
{
    lemma_stable_sort_permutes::<T>(each_canonical::<T>(list));
}

/// After canonical ordering every list of a document is sorted: those of
/// the model here by name, and those below them as `is_canonical` says of
/// each table and each role.
pub proof fn lemma_canonical_document_is_sorted(d: BimView)
    ensures
        Bim::is_canonical(Bim::canonical(d)),
        ({
            let m = Bim::canonical(d).model;
            &&& sorted::<DataSource>(m.data_sources)
            &&& sorted::<Table>(m.tables)
            &&& all_canonical::<Table>(m.tables)
            &&& sorted::<Relationship>(m.relationships)
            &&& m.roles matches Some(roles) ==> sorted::<Role>(roles)
                && all_canonical::<Role>(roles)
            &&& sorted::<ModelExpression>(m.expressions)
            &&& sorted::<Annotation>(m.annotations)
        }),
{
    Bim::lemma_canonical_sorted(d);
}

/// Canonical ordering of a document is idempotent.
pub proof fn lemma_canonical_document_is_idempotent(d: BimView)
    ensures
        Bim::canonical(Bim::canonical(d)) == Bim::canonical(d),
{
    lemma_canonical_is_idempotent::<Bim>(d);
}

/// A document that was written is read back as it was.
pub proof fn lemma_document_is_read_back(d: BimView)
    ensures
        Bim::decode(Bim::encode(d)) == Ok::<BimView, ParseErrorView>(d),
{
    Bim::lemma_round_trip(d);
}

/// Every strict record type refuses an object that holds a key which the
/// type does not declare, whatever else the object holds.
pub proof fn lemma_strict_record_refuses_unknown_key<T: Wire>(
    fields: Seq<(Seq<char>, JsonView)>,
    i: int,
)
    requires
        T::strict_keys() is Some,
        0 <= i < fields.len(),
        !T::strict_keys()->0.contains(fields[i].0),
    ensures
        T::decode(JsonView::Object(fields)) is Err,
{
    T::lemma_refuses_unknown_key(fields, i);
}

/// Every record type refuses an object that holds one of the keys which
/// the type declares twice, so that no value of a field is dropped in
/// silence.
pub proof fn lemma_record_refuses_repeated_key<T: Wire>(
    fields: Seq<(Seq<char>, JsonView)>,
    i: int,
    j: int,
)
    requires
        T::declared_keys() is Some,
        0 <= i < j < fields.len(),
        fields[i].0 == fields[j].0,
        T::declared_keys()->0.contains(fields[i].0),
    ensures
        T::decode(JsonView::Object(fields)) is Err,
{
    T::lemma_refuses_repeated_key(fields, i, j);
}

/// Every record type of a document declares its keys, the strict ones and
/// the others.
pub proof fn lemma_record_types_declare_keys()
    ensures
        Bim::declared_keys() is Some,
        Model::declared_keys() is Some,
        DataSource::declared_keys() is Some,
        ConnectionDetails::declared_keys() is Some,
        Address::declared_keys() is Some,
        CredentialType::declared_keys() is Some,
        DataSourceOption::declared_keys() is Some,
        Table::declared_keys() is Some,
        Column::declared_keys() is Some,
        Partition::declared_keys() is Some,
        Source::declared_keys() is Some,
        Measure::declared_keys() is Some,
        Kpi::declared_keys() is Some,
        CalculationGroup::declared_keys() is Some,
        CalculationItem::declared_keys() is Some,
        FormatStringDefinition::declared_keys() is Some,
        Relationship::declared_keys() is Some,
        Role::declared_keys() is Some,
        Member::declared_keys() is Some,
        ModelExpression::declared_keys() is Some,
        Annotation::declared_keys() is Some,
{
}

/// Which record types of a document are strict, and which ignore the keys
/// that they do not declare.
pub proof fn lemma_strict_record_types()
    ensures
        Annotation::strict_keys() is Some,
        ModelExpression::strict_keys() is Some,
        Relationship::strict_keys() is Some,
        DataSource::strict_keys() is Some,
        DataSourceOption::strict_keys() is Some,
        ConnectionDetails::strict_keys() is Some,
        Address::strict_keys() is Some,
        CredentialType::strict_keys() is Some,
        Table::strict_keys() is Some,
        Column::strict_keys() is Some,
        Partition::strict_keys() is Some,
        Source::strict_keys() is Some,
        Measure::strict_keys() is Some,
        Kpi::strict_keys() is Some,
        CalculationGroup::strict_keys() is Some,
        CalculationItem::strict_keys() is Some,
        Bim::strict_keys() is None,
        Model::strict_keys() is None,
        Role::strict_keys() is None,
        Member::strict_keys() is None,
        FormatStringDefinition::strict_keys() is None,
{
}

/// The protocol of connection details names the variant: an object is read
/// as the variant that its protocol names, and each variant is written with
/// its own protocol.
pub proof fn lemma_protocol_names_the_variant(
    fields: Seq<(Seq<char>, JsonView)>,
    v: ConnectionDetailsView,
)
    ensures
        ConnectionDetails::decode(JsonView::Object(fields)) == Ok::<
            ConnectionDetailsView,
            ParseErrorView,
        >(v) ==> lookup(fields, "protocol"@) == Some(JsonView::Text(protocol_of(v))),
        text_at(
            ConnectionDetails::encode(v)->Object_0,
            "protocol"@,
            Entity::ConnectionDetails,
        ) == Ok::<Seq<char>, ParseErrorView>(protocol_of(v)),
{
    reveal_strlit("document-db");
    reveal_strlit("tds");
    reveal_strlit("postgresql");
    reveal_strlit("mysql");
    assert("document-db"@.len() == 11);
    assert("tds"@.len() == 3);
    assert("postgresql"@.len() == 10);
    assert("mysql"@.len() == 5);
    ConnectionDetails::lemma_round_trip(v);
}

/// The protocol under which a variant of connection details is written.
pub open spec fn protocol_of(v: ConnectionDetailsView) -> Seq<char> {
    match v {
        ConnectionDetailsView::DocumentDb { .. } => "document-db"@,
        ConnectionDetailsView::Tds(_) => "tds"@,
        ConnectionDetailsView::PostgresSql(_) => "postgresql"@,
        ConnectionDetailsView::MySql(_) => "mysql"@,
    }
}

/// The shape of a column names its variant: an object without an expression
/// is never read as a calculated column, and one that has neither an
/// expression nor a type is read as a sourced column, if it is read at all.
pub proof fn lemma_shape_names_the_column(fields: Seq<(Seq<char>, JsonView)>)
    requires
        lookup(fields, "expression"@) is None,
    ensures
        Column::decode(JsonView::Object(fields)) matches Ok(c) ==> !(c is Calculated),
        lookup(fields, "type"@) is None ==> (Column::decode(JsonView::Object(fields)) matches Ok(
            c,
        ) ==> c is Sourced),
{
}

/// A relationship is active unless it says otherwise: an object without the
/// key `isActive` is read as an active relationship, and an active
/// relationship is written without that key.
pub proof fn lemma_relationship_is_active_by_default(
    fields: Seq<(Seq<char>, JsonView)>,
    r: RelationshipView,
)
    ensures
        lookup(fields, "isActive"@) is None ==> (Relationship::decode(JsonView::Object(fields))
            matches Ok(read) ==> read.is_active),
        r.is_active ==> lookup(Relationship::encode(r)->Object_0, "isActive"@) is None,
        !r.is_active ==> lookup(Relationship::encode(r)->Object_0, "isActive"@) == Some(
            JsonView::Boolean(false),
        ),
{
    Relationship::lemma_entries(r);
}

/// What a model does not hold is not written: a model without roles is
/// written without the key `roles`, and one that discourages implicit
/// measures, as a model does unless it says otherwise, is written without
/// the key `discourageImplicitMeasures`.
pub proof fn lemma_absent_fields_of_a_model_stay_absent(m: ModelView)
    ensures
        m.roles is None ==> lookup(Model::encode(m)->Object_0, "roles"@) is None,
        m.roles is Some ==> lookup(Model::encode(m)->Object_0, "roles"@) is Some,
        m.discourage_implicit_measures ==> lookup(
            Model::encode(m)->Object_0,
            "discourageImplicitMeasures"@,
        ) is None,
{
    Model::lemma_entries(m);
}

/// A calculated column without a display folder is written without the key
/// `displayFolder`.
pub proof fn lemma_absent_display_folder_stays_absent(c: CalculatedView)
    ensures
        c.display_folder is None ==> lookup(Calculated::encode(c)->Object_0, "displayFolder"@)
            is None,
        c.display_folder matches Some(folder) ==> lookup(
            Calculated::encode(c)->Object_0,
            "displayFolder"@,
        ) == Some(JsonView::Text(folder)),
{
    Calculated::lemma_entries(c);
}

/// A calculation item with an ordinal stands before every item without
/// one, whatever their names; items with ordinals stand by ordinal.
pub proof fn lemma_ordinals_come_first(a: CalculationItemView, b: CalculationItemView)
    ensures
        a.ordinal is Some && b.ordinal is None ==> CalculationItem::ranks_le(a, b)
            && !CalculationItem::ranks_le(b, a),
        a.ordinal is Some && b.ordinal is Some && a.ordinal->0 < b.ordinal->0
            ==> CalculationItem::ranks_le(a, b) && !CalculationItem::ranks_le(b, a),
{
}

/// Where the entries of an object are checked against a list of keys, the
/// object is refused for the first key, in document order, that the list
/// does not hold.
pub proof fn lemma_strict_object_names_first_unknown_key(
    fields: Seq<(Seq<char>, JsonView)>,
    entity: Entity,
    allowed: Seq<Seq<char>>,
    i: int,
)
    requires
        0 <= i < fields.len(),
        !allowed.contains(fields[i].0),
    ensures
        strict_object_of(JsonView::Object(fields), entity, allowed) is Err,
        strict_object_of(JsonView::Object(fields), entity, allowed)->Err_0.kind
            == ErrorKind::UnknownField,
        !allowed.contains(strict_object_of(JsonView::Object(fields), entity, allowed)->Err_0.field),
{
    lemma_first_unknown_none(fields, allowed);
    lemma_first_unknown_is_unknown(fields, allowed);
}

/// What `first_unknown` finds is a key that is not allowed.
pub proof fn lemma_first_unknown_is_unknown(
    fields: Seq<(Seq<char>, JsonView)>,
    allowed: Seq<Seq<char>>,
)
    ensures
        first_unknown(fields, allowed) matches Some(key) ==> !allowed.contains(key) && lookup(
            fields,
            key,
        ) is Some,
    decreases fields.len(),
{
    if fields.len() > 0 {
        if allowed.contains(fields[0].0) {
            lemma_first_unknown_is_unknown(fields.skip(1), allowed);
            if first_unknown(fields, allowed) is Some {
                lemma_lookup_skip(fields, first_unknown(fields, allowed)->0);
            }
        } else {
            lemma_lookup_first(fields);
        }
    }
}

/// A key that is found without the first entry is found with it.
proof fn lemma_lookup_skip(fields: Seq<(Seq<char>, JsonView)>, key: Seq<char>)
    requires
        fields.len() > 0,
        lookup(fields.skip(1), key) is Some,
    ensures
        lookup(fields, key) is Some,
    decreases fields.len(),
{
    if fields.last().0 != key {
        assert(fields.skip(1).drop_last() =~= fields.drop_last().skip(1));
        assert(fields.skip(1).len() > 0);
        assert(fields.skip(1).last() == fields.last());
        lemma_lookup_skip(fields.drop_last(), key);
    }
}

/// The key of the first entry is found.
proof fn lemma_lookup_first(fields: Seq<(Seq<char>, JsonView)>)
    requires
        fields.len() > 0,
    ensures
        lookup(fields, fields[0].0) is Some,
    decreases fields.len(),
{
    if fields.last().0 != fields[0].0 {
        assert(fields.drop_last()[0] == fields[0]);
        lemma_lookup_first(fields.drop_last());
    }
}

} // verus!
