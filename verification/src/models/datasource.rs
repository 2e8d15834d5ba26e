//! Data sources: how they are reached and with which credential.

use std::cmp::Ordering;
use vstd::prelude::*;
use crate::codec::{
    check_keys, fields_of, flag_at, item_at, keys_distinct, lemma_first_unknown_none,
    lemma_key_refused, lemma_lookup_present, lemma_present_known, lemma_repeated_at,
    lemma_unknown_at, lemma_unknown_if_present, names, object_of, opt_flag_at, opt_flag_json,
    opt_item_at, opt_item_json, opt_text_at, opt_text_json, present, read_flag, read_item,
    read_opt_flag, read_opt_item, read_opt_text, read_text, refused_key, strict_fields_of,
    strict_object_of, text_at, text_or_null, write_opt_flag, write_opt_item, write_opt_text,
    write_text_or_null, ObjectWriter, Wire,
};
use crate::error::{failure, outcome, Entity, ErrorKind, ParseError, ParseErrorView};
use crate::json::{lookup, Json, JsonView};
use crate::sorting::Ranked;
use crate::text::{
    folded, lemma_bytes_le_total, lemma_bytes_le_transitive, name_le, name_precedes, name_rank,
    ordering_of, rank_names, str_eq, to_ordering,
};

verus! {

/// A source of data for the model. Data sources are ordered by name, case
/// ignored.
#[derive(Debug, PartialEq, Eq, Clone)]
pub struct DataSource {
    pub type_: String,
    pub name: String,
    pub connection_details: ConnectionDetails,
    pub options: Option<DataSourceOption>,
    pub credential: CredentialType,
}

/// The model of a [`DataSource`].
pub struct DataSourceView {
    pub type_: Seq<char>,
    pub name: Seq<char>,
    pub connection_details: ConnectionDetailsView,
    pub options: Option<DataSourceOptionView>,
    pub credential: CredentialTypeView,
}

impl DeepView for DataSource {
    type V = DataSourceView;

    open spec fn deep_view(&self) -> DataSourceView {
        DataSourceView {
            type_: self.type_@,
            name: self.name@,
            connection_details: self.connection_details.deep_view(),
            options: self.options.deep_view(),
            credential: self.credential.deep_view(),
        }
    }
}

impl DataSource {
    /// The keys of the record in written order, each with the value written
    /// under it, or `None` where the entry is left out.
    pub open spec fn entries(v: DataSourceView) -> Seq<(Seq<char>, Option<JsonView>)> {
        seq![
            ("type"@, Some(JsonView::Text(v.type_))),
            ("name"@, Some(JsonView::Text(v.name))),
            ("connectionDetails"@, Some(ConnectionDetails::encode(v.connection_details))),
            ("options"@, opt_item_json::<DataSourceOption>(v.options)),
            ("credential"@, Some(CredentialType::encode(v.credential))),
        ]
    }

    /// Each key of the record is read back with the value written under it,
    /// and no key is written that the record does not declare.
    pub proof fn lemma_entries(v: DataSourceView)
        ensures
            lookup(present(Self::entries(v)), "type"@) == Self::entries(v)[0].1,
            lookup(present(Self::entries(v)), "name"@) == Self::entries(v)[1].1,
            lookup(present(Self::entries(v)), "connectionDetails"@) == Self::entries(v)[2].1,
            lookup(present(Self::entries(v)), "options"@) == Self::entries(v)[3].1,
            lookup(present(Self::entries(v)), "credential"@) == Self::entries(v)[4].1,
            refused_key(
                present(Self::entries(v)),
                Entity::DataSource,
                names(["type", "name", "connectionDetails", "options", "credential"]),
            ) is None,
    {
        let table = Self::entries(v);
        reveal_strlit("type");
        reveal_strlit("name");
        reveal_strlit("connectionDetails");
        reveal_strlit("options");
        reveal_strlit("credential");
        assert("type"@.len() == 4);
        assert("name"@.len() == 4);
        assert("connectionDetails"@.len() == 17);
        assert("options"@.len() == 7);
        assert("credential"@.len() == 10);
        assert("type"@[0] != "name"@[0]);
        assert(table.len() == 5);
        assert(keys_distinct(table));
        let allowed = names(["type", "name", "connectionDetails", "options", "credential"]);
        assert forall|i: int| 0 <= i < table.len() implies allowed.contains(
            (#[trigger] table[i]).0,
        ) by {
            assert(allowed[i] == table[i].0);
        }
        lemma_present_known(table, allowed);
        lemma_lookup_present(table, 0);
        lemma_lookup_present(table, 1);
        lemma_lookup_present(table, 2);
        lemma_lookup_present(table, 3);
        lemma_lookup_present(table, 4);
    }
}

impl Wire for DataSource {
    open spec fn decode(j: JsonView) -> Result<DataSourceView, ParseErrorView> {
        match strict_object_of(
            j,
            Entity::DataSource,
            names(["type", "name", "connectionDetails", "options", "credential"]),
        ) {
            Err(e) => Err(e),
            Ok(fields) => {
                let type_ = text_at(fields, "type"@, Entity::DataSource);
                let name = text_at(fields, "name"@, Entity::DataSource);
                let connection_details = item_at::<ConnectionDetails>(
                    fields,
                    "connectionDetails"@,
                    Entity::DataSource,
                );
                let options = opt_item_at::<DataSourceOption>(fields, "options"@);
                let credential = item_at::<CredentialType>(
                    fields,
                    "credential"@,
                    Entity::DataSource,
                );
                if type_ is Err {
                    Err(type_->Err_0)
                } else if name is Err {
                    Err(name->Err_0)
                } else if connection_details is Err {
                    Err(connection_details->Err_0)
                } else if options is Err {
                    Err(options->Err_0)
                } else if credential is Err {
                    Err(credential->Err_0)
                } else {
                    Ok(
                        DataSourceView {
                            type_: type_->Ok_0,
                            name: name->Ok_0,
                            connection_details: connection_details->Ok_0,
                            options: options->Ok_0,
                            credential: credential->Ok_0,
                        },
                    )
                }
            },
        }
    }

    open spec fn encode(v: DataSourceView) -> JsonView {
        JsonView::Object(present(Self::entries(v)))
    }

    fn from_json(j: &Json) -> (r: Result<DataSource, ParseError>) {
        let fields = strict_fields_of(
            j,
            Entity::DataSource,
            &["type", "name", "connectionDetails", "options", "credential"],
        )?;
        let type_ = read_text(fields, "type", Entity::DataSource)?;
        let name = read_text(fields, "name", Entity::DataSource)?;
        let connection_details = read_item::<ConnectionDetails>(
            fields,
            "connectionDetails",
            Entity::DataSource,
        )?;
        let options = read_opt_item::<DataSourceOption>(fields, "options")?;
        let credential = read_item::<CredentialType>(fields, "credential", Entity::DataSource)?;
        Ok(DataSource { type_, name, connection_details, options, credential })
    }

    fn to_json(&self) -> (j: Json) {
        let w = ObjectWriter::new()
            .put("type", Json::text(self.type_.as_str()))
            .put("name", Json::text(self.name.as_str()))
            .put("connectionDetails", self.connection_details.to_json())
            .put_opt("options", write_opt_item(&self.options))
            .put("credential", self.credential.to_json());
        assert(w.table() =~= Self::entries(self.deep_view()));
        w.finish()
    }

    open spec fn strict_keys() -> Option<Seq<Seq<char>>> {
        Some(names(["type", "name", "connectionDetails", "options", "credential"]))
    }

    open spec fn declared_keys() -> Option<Seq<Seq<char>>> {
        Some(names(["type", "name", "connectionDetails", "options", "credential"]))
    }

    proof fn lemma_refuses_unknown_key(fields: Seq<(Seq<char>, JsonView)>, i: int) {
        lemma_first_unknown_none(
            fields,
            names(["type", "name", "connectionDetails", "options", "credential"]),
        );
    }

    proof fn lemma_refuses_repeated_key(fields: Seq<(Seq<char>, JsonView)>, i: int, j: int) {
        let declared = names(["type", "name", "connectionDetails", "options", "credential"]);
        if declared.contains(fields[i].0) {
            lemma_repeated_at(fields, declared, i, j);
        }
    }

    proof fn lemma_round_trip(v: DataSourceView) {
        Self::lemma_entries(v);
        let fields = present(Self::entries(v));
        let object = strict_object_of(
            Self::encode(v),
            Entity::DataSource,
            names(["type", "name", "connectionDetails", "options", "credential"]),
        );
        assert(object is Ok && object->Ok_0 == fields);
        let type_ = text_at(fields, "type"@, Entity::DataSource);
        let name = text_at(fields, "name"@, Entity::DataSource);
        let connection_details = item_at::<ConnectionDetails>(
            fields,
            "connectionDetails"@,
            Entity::DataSource,
        );
        let options = opt_item_at::<DataSourceOption>(fields, "options"@);
        let credential = item_at::<CredentialType>(fields, "credential"@, Entity::DataSource);
        assert(type_ == Ok::<Seq<char>, ParseErrorView>(v.type_));
        assert(name == Ok::<Seq<char>, ParseErrorView>(v.name));
        assert(connection_details->Ok_0 == v.connection_details && connection_details is Ok) by {
            ConnectionDetails::lemma_round_trip(v.connection_details);
        }
        assert(options == Ok::<Option<DataSourceOptionView>, ParseErrorView>(v.options)) by {
            if v.options is Some {
                DataSourceOption::lemma_round_trip(v.options->0);
            }
        }
        assert(credential == Ok::<CredentialTypeView, ParseErrorView>(v.credential)) by {
            CredentialType::lemma_round_trip(v.credential);
        }
    }
}

impl Ranked for DataSource {
    open spec fn ranks_le(a: DataSourceView, b: DataSourceView) -> bool {
        name_le(a.name, b.name)
    }

    fn precedes(&self, other: &Self) -> (r: bool) {
        name_precedes(self.name.as_str(), other.name.as_str())
    }

    proof fn lemma_ranks_total(a: DataSourceView, b: DataSourceView) {
        lemma_bytes_le_total(folded(a.name), folded(b.name));
    }

    proof fn lemma_ranks_transitive(a: DataSourceView, b: DataSourceView, c: DataSourceView) {
        lemma_bytes_le_transitive(folded(a.name), folded(b.name), folded(c.name));
    }
}

impl DataSource {
    /// How `self` stands to `other` in the order of names, case ignored.
    pub fn cmp(&self, other: &Self) -> (r: Ordering)
        ensures
            r == ordering_of(name_rank(self.name@, other.name@)),
    {
        to_ordering(rank_names(self.name.as_str(), other.name.as_str()))
    }
}

/// How a data source is reached. The JSON form names the variant under the
/// key `protocol`; the other entries of the object are those of the variant.
#[derive(Debug, PartialEq, Eq, Clone)]
pub enum ConnectionDetails {
    DocumentDb { address: Address },
    Tds(SqlConnection),
    PostgresSql(SqlConnection),
    MySql(SqlConnection),
}

/// The model of a [`ConnectionDetails`].
pub enum ConnectionDetailsView {
    DocumentDb { address: AddressView },
    Tds(SqlConnectionView),
    PostgresSql(SqlConnectionView),
    MySql(SqlConnectionView),
}

impl DeepView for ConnectionDetails {
    type V = ConnectionDetailsView;

    open spec fn deep_view(&self) -> ConnectionDetailsView {
        match self {
            ConnectionDetails::DocumentDb { address } => ConnectionDetailsView::DocumentDb {
                address: address.deep_view(),
            },
            ConnectionDetails::Tds(c) => ConnectionDetailsView::Tds(c.deep_view()),
            ConnectionDetails::PostgresSql(c) => ConnectionDetailsView::PostgresSql(c.deep_view()),
            ConnectionDetails::MySql(c) => ConnectionDetailsView::MySql(c.deep_view()),
        }
    }
}

impl ConnectionDetails {
    /// The keys of the record in written order, each with the value written
    /// under it, or `None` where the entry is left out.
    pub open spec fn entries(v: ConnectionDetailsView) -> Seq<(Seq<char>, Option<JsonView>)> {
        match v {
            ConnectionDetailsView::DocumentDb { address } => seq![
                ("protocol"@, Some(JsonView::Text("document-db"@))),
                ("address"@, Some(Address::encode(address))),
            ],
            ConnectionDetailsView::Tds(c) => seq![("protocol"@, Some(JsonView::Text("tds"@)))]
                + SqlConnection::entries(c),
            ConnectionDetailsView::PostgresSql(c) => seq![
                ("protocol"@, Some(JsonView::Text("postgresql"@))),
            ] + SqlConnection::entries(c),
            ConnectionDetailsView::MySql(c) => seq![("protocol"@, Some(JsonView::Text("mysql"@)))]
                + SqlConnection::entries(c),
        }
    }

    /// What is read from the entries of an object whose protocol is
    /// `document-db`.
    pub open spec fn read_document_db(fields: Seq<(Seq<char>, JsonView)>) -> Result<
        ConnectionDetailsView,
        ParseErrorView,
    > {
        match refused_key(fields, Entity::ConnectionDetails, names(["protocol", "address"])) {
            Some(e) => Err(e),
            None => match item_at::<Address>(fields, "address"@, Entity::ConnectionDetails) {
                Err(e) => Err(e),
                Ok(address) => Ok(ConnectionDetailsView::DocumentDb { address }),
            },
        }
    }

    /// What is read from the entries of an object whose protocol is that of
    /// a SQL database.
    pub open spec fn read_sql(fields: Seq<(Seq<char>, JsonView)>) -> Result<
        SqlConnectionView,
        ParseErrorView,
    > {
        match refused_key(
            fields,
            Entity::ConnectionDetails,
            names(["protocol", "address", "authentication", "query"]),
        ) {
            Some(e) => Err(e),
            None => SqlConnection::read(fields),
        }
    }

    fn read_sql_from(fields: &Vec<(String, Json)>) -> (r: Result<SqlConnection, ParseError>)
        ensures
            outcome(r) == Self::read_sql(fields.deep_view()),
    {
        check_keys(
            fields,
            Entity::ConnectionDetails,
            &["protocol", "address", "authentication", "query"],
        )?;
        SqlConnection::read_from(fields)
    }

    proof fn lemma_sql_round_trip(protocol: Seq<char>, c: SqlConnectionView)
        ensures
            ({
                let table = seq![("protocol"@, Some(JsonView::Text(protocol)))]
                    + SqlConnection::entries(c);
                &&& Self::read_sql(present(table)) == Ok::<SqlConnectionView, ParseErrorView>(c)
                &&& text_at(present(table), "protocol"@, Entity::ConnectionDetails) == Ok::<
                    Seq<char>,
                    ParseErrorView,
                >(protocol)
            }),
    {
        let table = seq![("protocol"@, Some(JsonView::Text(protocol)))] + SqlConnection::entries(c);
        reveal_strlit("protocol");
        reveal_strlit("address");
        reveal_strlit("authentication");
        reveal_strlit("query");
        assert("protocol"@.len() == 8);
        assert("address"@.len() == 7);
        assert("authentication"@.len() == 14);
        assert("query"@.len() == 5);
        assert(table.len() == 4);
        assert(keys_distinct(table));
        let allowed = names(["protocol", "address", "authentication", "query"]);
        assert forall|i: int| 0 <= i < table.len() implies allowed.contains(
            (#[trigger] table[i]).0,
        ) by {
            assert(allowed[i] == table[i].0);
        }
        lemma_present_known(table, allowed);
        lemma_lookup_present(table, 0);
        lemma_lookup_present(table, 1);
        lemma_lookup_present(table, 2);
        lemma_lookup_present(table, 3);
        Address::lemma_round_trip(c.address);
    }
}

impl Wire for ConnectionDetails {
    open spec fn decode(j: JsonView) -> Result<ConnectionDetailsView, ParseErrorView> {
        match object_of(j, Entity::ConnectionDetails) {
            Err(e) => Err(e),
            Ok(fields) => match text_at(fields, "protocol"@, Entity::ConnectionDetails) {
                Err(e) => Err(e),
                Ok(protocol) => if protocol == "document-db"@ {
                    Self::read_document_db(fields)
                } else if protocol == "tds"@ {
                    match Self::read_sql(fields) {
                        Ok(c) => Ok(ConnectionDetailsView::Tds(c)),
                        Err(e) => Err(e),
                    }
                } else if protocol == "postgresql"@ {
                    match Self::read_sql(fields) {
                        Ok(c) => Ok(ConnectionDetailsView::PostgresSql(c)),
                        Err(e) => Err(e),
                    }
                } else if protocol == "mysql"@ {
                    match Self::read_sql(fields) {
                        Ok(c) => Ok(ConnectionDetailsView::MySql(c)),
                        Err(e) => Err(e),
                    }
                } else {
                    Err(failure(ErrorKind::VariantMismatch, Entity::ConnectionDetails, protocol))
                },
            },
        }
    }

    open spec fn encode(v: ConnectionDetailsView) -> JsonView {
        JsonView::Object(present(Self::entries(v)))
    }

    fn from_json(j: &Json) -> (r: Result<ConnectionDetails, ParseError>) {
        let fields = fields_of(j, Entity::ConnectionDetails)?;
        let protocol = read_text(fields, "protocol", Entity::ConnectionDetails)?;
        if str_eq(protocol.as_str(), "document-db") {
            check_keys(fields, Entity::ConnectionDetails, &["protocol", "address"])?;
            let address = read_item::<Address>(fields, "address", Entity::ConnectionDetails)?;
            Ok(ConnectionDetails::DocumentDb { address })
        } else if str_eq(protocol.as_str(), "tds") {
            Ok(ConnectionDetails::Tds(Self::read_sql_from(fields)?))
        } else if str_eq(protocol.as_str(), "postgresql") {
            Ok(ConnectionDetails::PostgresSql(Self::read_sql_from(fields)?))
        } else if str_eq(protocol.as_str(), "mysql") {
            Ok(ConnectionDetails::MySql(Self::read_sql_from(fields)?))
        } else {
            Err(
                ParseError::new(
                    ErrorKind::VariantMismatch,
                    Entity::ConnectionDetails,
                    protocol.as_str(),
                ),
            )
        }
    }

    fn to_json(&self) -> (j: Json) {
        let w = match self {
            ConnectionDetails::DocumentDb { address } => ObjectWriter::new().put(
                "protocol",
                Json::text("document-db"),
            ).put("address", address.to_json()),
            ConnectionDetails::Tds(c) => c.write_into(
                ObjectWriter::new().put("protocol", Json::text("tds")),
            ),
            ConnectionDetails::PostgresSql(c) => c.write_into(
                ObjectWriter::new().put("protocol", Json::text("postgresql")),
            ),
            ConnectionDetails::MySql(c) => c.write_into(
                ObjectWriter::new().put("protocol", Json::text("mysql")),
            ),
        };
        assert(w.table() =~= Self::entries(self.deep_view()));
        w.finish()
    }

    open spec fn strict_keys() -> Option<Seq<Seq<char>>> {
        Some(names(["protocol", "address", "authentication", "query"]))
    }

    proof fn lemma_refuses_unknown_key(fields: Seq<(Seq<char>, JsonView)>, i: int) {
        let all = names(["protocol", "address", "authentication", "query"]);
        let fewer = names(["protocol", "address"]);
        if !all.contains(fields[i].0) {
            assert forall|k: int| 0 <= k < fewer.len(
                ) implies all.contains(#[trigger] fewer[k],
            ) by {
                assert(all[k] == fewer[k]);
            }
            lemma_unknown_at(fields, all, fewer, i);
            lemma_unknown_at(fields, all, all, i);
        }
    }

    open spec fn declared_keys() -> Option<Seq<Seq<char>>> {
        Self::strict_keys()
    }

    proof fn lemma_refuses_repeated_key(fields: Seq<(Seq<char>, JsonView)>, i: int, j: int) {
        lemma_key_refused(fields, names(["protocol", "address"]), i, j);
        lemma_key_refused(fields, names(["protocol", "address", "authentication", "query"]), i, j);
    }

    proof fn lemma_round_trip(v: ConnectionDetailsView) {
        reveal_strlit("document-db");
        reveal_strlit("tds");
        reveal_strlit("postgresql");
        reveal_strlit("mysql");
        assert("document-db"@.len() == 11);
        assert("tds"@.len() == 3);
        assert("postgresql"@.len() == 10);
        assert("mysql"@.len() == 5);
        match v {
            ConnectionDetailsView::DocumentDb { address } => {
                let table = Self::entries(v);
                reveal_strlit("protocol");
                reveal_strlit("address");
                assert("protocol"@.len() == 8);
                assert("address"@.len() == 7);
                assert(table.len() == 2);
                assert(keys_distinct(table));
                let allowed = names(["protocol", "address"]);
                assert forall|i: int| 0 <= i < table.len() implies allowed.contains(
                    (#[trigger] table[i]).0,
                ) by {
                    assert(allowed[i] == table[i].0);
                }
                lemma_present_known(table, allowed);
                lemma_lookup_present(table, 0);
                lemma_lookup_present(table, 1);
                Address::lemma_round_trip(address);
            },
            ConnectionDetailsView::Tds(c) => {
                Self::lemma_sql_round_trip("tds"@, c);
            },
            ConnectionDetailsView::PostgresSql(c) => {
                Self::lemma_sql_round_trip("postgresql"@, c);
            },
            ConnectionDetailsView::MySql(c) => {
                Self::lemma_sql_round_trip("mysql"@, c);
            },
        }
    }
}

/// The connection to a SQL database. Its fields stand beside the protocol in
/// the object of the [`ConnectionDetails`] that holds it.
#[derive(Debug, PartialEq, Eq, Clone)]
pub struct SqlConnection {
    pub address: Address,
    /// Written as `null` when absent.
    pub authentication: Option<String>,
    /// Written as `null` when absent.
    pub query: Option<String>,
}

/// The model of a [`SqlConnection`].
pub struct SqlConnectionView {
    pub address: AddressView,
    pub authentication: Option<Seq<char>>,
    pub query: Option<Seq<char>>,
}

impl DeepView for SqlConnection {
    type V = SqlConnectionView;

    open spec fn deep_view(&self) -> SqlConnectionView {
        SqlConnectionView {
            address: self.address.deep_view(),
            authentication: self.authentication.deep_view(),
            query: self.query.deep_view(),
        }
    }
}

impl SqlConnection {
    /// The keys of this group of fields in written order, each with the value
    /// written under it, or `None` where the entry is left out.
    pub open spec fn entries(v: SqlConnectionView) -> Seq<(Seq<char>, Option<JsonView>)> {
        seq![
            ("address"@, Some(Address::encode(v.address))),
            ("authentication"@, Some(text_or_null(v.authentication))),
            ("query"@, Some(text_or_null(v.query))),
        ]
    }

    /// What is read for this group of fields from the entries of the object
    /// that holds them.
    pub open spec fn read(fields: Seq<(Seq<char>, JsonView)>) -> Result<
        SqlConnectionView,
        ParseErrorView,
    > {
        let address = item_at::<Address>(fields, "address"@, Entity::ConnectionDetails);
        let authentication = opt_text_at(fields, "authentication"@, Entity::ConnectionDetails);
        let query = opt_text_at(fields, "query"@, Entity::ConnectionDetails);
        if address is Err {
            Err(address->Err_0)
        } else if authentication is Err {
            Err(authentication->Err_0)
        } else if query is Err {
            Err(query->Err_0)
        } else {
            Ok(
                SqlConnectionView {
                    address: address->Ok_0,
                    authentication: authentication->Ok_0,
                    query: query->Ok_0,
                },
            )
        }
    }

    /// Reads this group of fields from the entries of the object that holds them.
    pub fn read_from(fields: &Vec<(String, Json)>) -> (r: Result<SqlConnection, ParseError>)
        ensures
            outcome(r) == Self::read(fields.deep_view()),
    {
        let address = read_item::<Address>(fields, "address", Entity::ConnectionDetails)?;
        let authentication = read_opt_text(fields, "authentication", Entity::ConnectionDetails)?;
        let query = read_opt_text(fields, "query", Entity::ConnectionDetails)?;
        Ok(SqlConnection { address, authentication, query })
    }

    /// Adds the entries of this group of fields to `w`.
    pub fn write_into(&self, w: ObjectWriter) -> (r: ObjectWriter)
        ensures
            r.table() == w.table() + Self::entries(self.deep_view()),
    {
        let r = w
            .put("address", self.address.to_json())
            .put("authentication", write_text_or_null(&self.authentication))
            .put("query", write_text_or_null(&self.query));
        assert(r.table() =~= w.table() + Self::entries(self.deep_view()));
        r
    }
}

/// Where a data source is found. The JSON form names no variant: an object
/// is read as `DocumentDb` where it has that shape, else as `SqlDatabase`.
#[derive(Debug, PartialEq, Eq, Clone)]
pub enum Address {
    DocumentDb { url: String, database: Option<String>, collection: Option<String> },
    SqlDatabase { server: String, database: String },
}

/// The model of an [`Address`].
pub enum AddressView {
    DocumentDb { url: Seq<char>, database: Option<Seq<char>>, collection: Option<Seq<char>> },
    SqlDatabase { server: Seq<char>, database: Seq<char> },
}

impl DeepView for Address {
    type V = AddressView;

    open spec fn deep_view(&self) -> AddressView {
        match self {
            Address::DocumentDb { url, database, collection } => AddressView::DocumentDb {
                url: url@,
                database: database.deep_view(),
                collection: collection.deep_view(),
            },
            Address::SqlDatabase { server, database } => AddressView::SqlDatabase {
                server: server@,
                database: database@,
            },
        }
    }
}

impl Address {
    /// The keys of the record in written order, each with the value written
    /// under it, or `None` where the entry is left out.
    pub open spec fn entries(v: AddressView) -> Seq<(Seq<char>, Option<JsonView>)> {
        match v {
            AddressView::DocumentDb { url, database, collection } => seq![
                ("url"@, Some(JsonView::Text(url))),
                ("database"@, opt_text_json(database)),
                ("collection"@, opt_text_json(collection)),
            ],
            AddressView::SqlDatabase { server, database } => seq![
                ("server"@, Some(JsonView::Text(server))),
                ("database"@, Some(JsonView::Text(database))),
            ],
        }
    }

    /// What is read from `j` as the first shape, `DocumentDb`.
    pub open spec fn decode_document_db(j: JsonView) -> Result<AddressView, ParseErrorView> {
        match strict_object_of(j, Entity::Address, names(["url", "database", "collection"])) {
            Err(e) => Err(e),
            Ok(fields) => {
                let url = text_at(fields, "url"@, Entity::Address);
                let database = opt_text_at(fields, "database"@, Entity::Address);
                let collection = opt_text_at(fields, "collection"@, Entity::Address);
                if url is Err {
                    Err(url->Err_0)
                } else if database is Err {
                    Err(database->Err_0)
                } else if collection is Err {
                    Err(collection->Err_0)
                } else {
                    Ok(
                        AddressView::DocumentDb {
                            url: url->Ok_0,
                            database: database->Ok_0,
                            collection: collection->Ok_0,
                        },
                    )
                }
            },
        }
    }

    /// What is read from `j` as the second shape, `SqlDatabase`.
    pub open spec fn decode_sql_database(j: JsonView) -> Result<AddressView, ParseErrorView> {
        match strict_object_of(j, Entity::Address, names(["server", "database"])) {
            Err(e) => Err(e),
            Ok(fields) => {
                let server = text_at(fields, "server"@, Entity::Address);
                let database = text_at(fields, "database"@, Entity::Address);
                if server is Err {
                    Err(server->Err_0)
                } else if database is Err {
                    Err(database->Err_0)
                } else {
                    Ok(AddressView::SqlDatabase { server: server->Ok_0, database: database->Ok_0 })
                }
            },
        }
    }

    fn read_document_db(j: &Json) -> (r: Result<Address, ParseError>)
        ensures
            outcome(r) == Self::decode_document_db(j.deep_view()),
    {
        let fields = strict_fields_of(j, Entity::Address, &["url", "database", "collection"])?;
        let url = read_text(fields, "url", Entity::Address)?;
        let database = read_opt_text(fields, "database", Entity::Address)?;
        let collection = read_opt_text(fields, "collection", Entity::Address)?;
        Ok(Address::DocumentDb { url, database, collection })
    }

    fn read_sql_database(j: &Json) -> (r: Result<Address, ParseError>)
        ensures
            outcome(r) == Self::decode_sql_database(j.deep_view()),
    {
        let fields = strict_fields_of(j, Entity::Address, &["server", "database"])?;
        let server = read_text(fields, "server", Entity::Address)?;
        let database = read_text(fields, "database", Entity::Address)?;
        Ok(Address::SqlDatabase { server, database })
    }
}

impl Wire for Address {
    open spec fn decode(j: JsonView) -> Result<AddressView, ParseErrorView> {
        let first = Self::decode_document_db(j);
        let second = Self::decode_sql_database(j);
        if first is Ok {
            first
        } else if second is Ok {
            second
        } else {
            Err(failure(ErrorKind::VariantMismatch, Entity::Address, Seq::empty()))
        }
    }

    open spec fn encode(v: AddressView) -> JsonView {
        JsonView::Object(present(Self::entries(v)))
    }

    fn from_json(j: &Json) -> (r: Result<Address, ParseError>) {
        match Self::read_document_db(j) {
            Ok(address) => Ok(address),
            Err(_) => match Self::read_sql_database(j) {
                Ok(address) => Ok(address),
                Err(_) => {
                    proof {
                        reveal_strlit("");
                        assert(""@ =~= Seq::empty());
                    }
                    Err(ParseError::new(ErrorKind::VariantMismatch, Entity::Address, ""))
                },
            },
        }
    }

    fn to_json(&self) -> (j: Json) {
        let w = match self {
            Address::DocumentDb { url, database, collection } => ObjectWriter::new().put(
                "url",
                Json::text(url.as_str()),
            ).put_opt("database", write_opt_text(database)).put_opt(
                "collection",
                write_opt_text(collection),
            ),
            Address::SqlDatabase { server, database } => ObjectWriter::new().put(
                "server",
                Json::text(server.as_str()),
            ).put("database", Json::text(database.as_str())),
        };
        assert(w.table() =~= Self::entries(self.deep_view()));
        w.finish()
    }

    open spec fn strict_keys() -> Option<Seq<Seq<char>>> {
        Some(names(["url", "database", "collection", "server"]))
    }

    proof fn lemma_refuses_unknown_key(fields: Seq<(Seq<char>, JsonView)>, i: int) {
        let all = names(["url", "database", "collection", "server"]);
        let first = names(["url", "database", "collection"]);
        let second = names(["server", "database"]);
        if !all.contains(fields[i].0) {
            assert forall|k: int| 0 <= k < first.len(
                ) implies all.contains(#[trigger] first[k],
            ) by {
                assert(all[k] == first[k]);
            }
            assert forall|k: int| 0 <= k < second.len(
                ) implies all.contains(#[trigger] second[k],
            ) by {
                assert(all[3] == second[0] && all[1] == second[1]);
            }
            lemma_unknown_at(fields, all, first, i);
            lemma_unknown_at(fields, all, second, i);
        }
    }

    open spec fn declared_keys() -> Option<Seq<Seq<char>>> {
        Self::strict_keys()
    }

    proof fn lemma_refuses_repeated_key(fields: Seq<(Seq<char>, JsonView)>, i: int, j: int) {
        lemma_key_refused(fields, names(["url", "database", "collection"]), i, j);
        lemma_key_refused(fields, names(["server", "database"]), i, j);
    }

    proof fn lemma_round_trip(v: AddressView) {
        let table = Self::entries(v);
        reveal_strlit("url");
        reveal_strlit("database");
        reveal_strlit("collection");
        reveal_strlit("server");
        assert("url"@.len() == 3);
        assert("database"@.len() == 8);
        assert("collection"@.len() == 10);
        assert("server"@.len() == 6);
        let first = names(["url", "database", "collection"]);
        let second = names(["server", "database"]);
        match v {
            AddressView::DocumentDb { .. } => {
                assert(table.len() == 3);
                assert(keys_distinct(table));
                assert forall|i: int| 0 <= i < table.len() implies first.contains(
                    (#[trigger] table[i]).0,
                ) by {
                    assert(first[i] == table[i].0);
                }
                lemma_present_known(table, first);
                lemma_lookup_present(table, 0);
                lemma_lookup_present(table, 1);
                lemma_lookup_present(table, 2);
            },
            AddressView::SqlDatabase { .. } => {
                assert(table.len() == 2);
                assert(keys_distinct(table));
                assert forall|i: int| 0 <= i < table.len() implies second.contains(
                    (#[trigger] table[i]).0,
                ) by {
                    assert(second[i] == table[i].0);
                }
                lemma_present_known(table, second);
                lemma_lookup_present(table, 0);
                lemma_lookup_present(table, 1);
                assert(!first.contains("server"@));
                lemma_unknown_if_present(present(table), first, "server"@);
            },
        }
    }
}

/// What every credential tells of itself.
pub trait Credential: DeepView {
    /// The kind of the credential, on its model.
    spec fn kind_of(v: <Self as DeepView>::V) -> Seq<char>;

    /// The path of the credential, on its model.
    spec fn path_of(v: <Self as DeepView>::V) -> Seq<char>;

    /// The way of authentication, on the credential's model.
    spec fn authentication_of(v: <Self as DeepView>::V) -> Authentication;

    /// The kind of the credential.
    fn kind(&self) -> (r: String)
        ensures
            r@ == Self::kind_of(self.deep_view()),
    ;

    /// The path of the credential.
    fn path(&self) -> (r: String)
        ensures
            r@ == Self::path_of(self.deep_view()),
    ;

    /// The way in which the credential authenticates.
    fn authentication(&self) -> (r: Authentication)
        ensures
            r == Self::authentication_of(self.deep_view()),
    ;
}

/// What every credential holds. Its fields stand beside the others in the
/// object of the [`CredentialType`] that holds it.
#[derive(Debug, PartialEq, Eq, Clone)]
pub struct CredentialCommon {
    pub kind: String,
    pub path: String,
    pub privacy_setting: Option<PrivacySetting>,
}

/// The model of a [`CredentialCommon`].
pub struct CredentialCommonView {
    pub kind: Seq<char>,
    pub path: Seq<char>,
    pub privacy_setting: Option<PrivacySetting>,
}

impl DeepView for CredentialCommon {
    type V = CredentialCommonView;

    open spec fn deep_view(&self) -> CredentialCommonView {
        CredentialCommonView {
            kind: self.kind@,
            path: self.path@,
            privacy_setting: self.privacy_setting.deep_view(),
        }
    }
}

impl CredentialCommon {
    /// The keys of this group of fields in written order, each with the value
    /// written under it, or `None` where the entry is left out.
    pub open spec fn entries(v: CredentialCommonView) -> Seq<(Seq<char>, Option<JsonView>)> {
        seq![
            ("kind"@, Some(JsonView::Text(v.kind))),
            ("path"@, Some(JsonView::Text(v.path))),
            ("PrivacySetting"@, opt_item_json::<PrivacySetting>(v.privacy_setting)),
        ]
    }

    /// What is read for this group of fields from the entries of the object
    /// that holds them.
    pub open spec fn read(fields: Seq<(Seq<char>, JsonView)>) -> Result<
        CredentialCommonView,
        ParseErrorView,
    > {
        let kind = text_at(fields, "kind"@, Entity::Credential);
        let path = text_at(fields, "path"@, Entity::Credential);
        let privacy_setting = opt_item_at::<PrivacySetting>(fields, "PrivacySetting"@);
        if kind is Err {
            Err(kind->Err_0)
        } else if path is Err {
            Err(path->Err_0)
        } else if privacy_setting is Err {
            Err(privacy_setting->Err_0)
        } else {
            Ok(
                CredentialCommonView {
                    kind: kind->Ok_0,
                    path: path->Ok_0,
                    privacy_setting: privacy_setting->Ok_0,
                },
            )
        }
    }

    /// Reads this group of fields from the entries of the object that holds them.
    pub fn read_from(fields: &Vec<(String, Json)>) -> (r: Result<CredentialCommon, ParseError>)
        ensures
            outcome(r) == Self::read(fields.deep_view()),
    {
        let kind = read_text(fields, "kind", Entity::Credential)?;
        let path = read_text(fields, "path", Entity::Credential)?;
        let privacy_setting = read_opt_item::<PrivacySetting>(fields, "PrivacySetting")?;
        Ok(CredentialCommon { kind, path, privacy_setting })
    }

    /// Adds the entries of this group of fields to `w`.
    pub fn write_into(&self, w: ObjectWriter) -> (r: ObjectWriter)
        ensures
            r.table() == w.table() + Self::entries(self.deep_view()),
    {
        let r = w
            .put("kind", Json::text(self.kind.as_str()))
            .put("path", Json::text(self.path.as_str()))
            .put_opt("PrivacySetting", write_opt_item(&self.privacy_setting));
        assert(r.table() =~= w.table() + Self::entries(self.deep_view()));
        r
    }
}

/// How widely the data of a source may be shared.
#[derive(Debug, PartialEq, Eq, Clone, Copy, Structural)]
pub enum PrivacySetting {
    Unspecified,
    Public,
    Organizational,
    Private,
}

impl DeepView for PrivacySetting {
    type V = PrivacySetting;

    open spec fn deep_view(&self) -> PrivacySetting {
        *self
    }
}

impl PrivacySetting {
    /// The name under which the value is written.
    pub open spec fn label(self) -> Seq<char> {
        match self {
            PrivacySetting::Unspecified => "None"@,
            PrivacySetting::Public => "Public"@,
            PrivacySetting::Organizational => "Organizational"@,
            PrivacySetting::Private => "Private"@,
        }
    }
}

impl Wire for PrivacySetting {
    open spec fn decode(j: JsonView) -> Result<PrivacySetting, ParseErrorView> {
        match j {
            JsonView::Text(t) => if t == "None"@ {
                Ok(PrivacySetting::Unspecified)
            } else if t == "Public"@ {
                Ok(PrivacySetting::Public)
            } else if t == "Organizational"@ {
                Ok(PrivacySetting::Organizational)
            } else if t == "Private"@ {
                Ok(PrivacySetting::Private)
            } else {
                Err(failure(ErrorKind::VariantMismatch, Entity::PrivacySetting, t))
            },
            _ => Err(failure(ErrorKind::TypeMismatch, Entity::PrivacySetting, Seq::empty())),
        }
    }

    open spec fn encode(v: PrivacySetting) -> JsonView {
        JsonView::Text(v.label())
    }

    fn from_json(j: &Json) -> (r: Result<PrivacySetting, ParseError>) {
        match j.as_text() {
            Some(t) => if str_eq(t.as_str(), "None") {
                Ok(PrivacySetting::Unspecified)
            } else if str_eq(t.as_str(), "Public") {
                Ok(PrivacySetting::Public)
            } else if str_eq(t.as_str(), "Organizational") {
                Ok(PrivacySetting::Organizational)
            } else if str_eq(t.as_str(), "Private") {
                Ok(PrivacySetting::Private)
            } else {
                Err(ParseError::new(ErrorKind::VariantMismatch, Entity::PrivacySetting, t.as_str()))
            },
            None => {
                proof {
                    reveal_strlit("");
                    assert(""@ =~= Seq::empty());
                }
                Err(ParseError::new(ErrorKind::TypeMismatch, Entity::PrivacySetting, ""))
            },
        }
    }

    fn to_json(&self) -> (j: Json) {
        match self {
            PrivacySetting::Unspecified => Json::text("None"),
            PrivacySetting::Public => Json::text("Public"),
            PrivacySetting::Organizational => Json::text("Organizational"),
            PrivacySetting::Private => Json::text("Private"),
        }
    }

    open spec fn strict_keys() -> Option<Seq<Seq<char>>> {
        None
    }

    open spec fn declared_keys() -> Option<Seq<Seq<char>>> {
        None
    }

    proof fn lemma_refuses_unknown_key(fields: Seq<(Seq<char>, JsonView)>, i: int) {
    }

    proof fn lemma_refuses_repeated_key(fields: Seq<(Seq<char>, JsonView)>, i: int, j: int) {
    }

    proof fn lemma_round_trip(v: PrivacySetting) {
        reveal_strlit("None");
        reveal_strlit("Public");
        reveal_strlit("Organizational");
        reveal_strlit("Private");
        assert("None"@.len() == 4);
        assert("Public"@.len() == 6);
        assert("Organizational"@.len() == 14);
        assert("Private"@.len() == 7);
    }
}

/// A credential. The JSON form names the variant under the key
/// `AuthenticationKind`; the other entries of the object are those of the
/// variant.
#[derive(Debug, PartialEq, Eq, Clone)]
pub enum CredentialType {
    Key { common: CredentialCommon },
    UsernamePassword { common: CredentialCommon, username: String, encrypt_connection: bool },
}

/// The model of a [`CredentialType`].
pub enum CredentialTypeView {
    Key { common: CredentialCommonView },
    UsernamePassword {
        common: CredentialCommonView,
        username: Seq<char>,
        encrypt_connection: bool,
    },
}

impl DeepView for CredentialType {
    type V = CredentialTypeView;

    open spec fn deep_view(&self) -> CredentialTypeView {
        match self {
            CredentialType::Key { common } => CredentialTypeView::Key { common: common.deep_view(
            ) },
            CredentialType::UsernamePassword {
                common,
                username,
                encrypt_connection,
            } => CredentialTypeView::UsernamePassword {
                common: common.deep_view(),
                username: username@,
                encrypt_connection: *encrypt_connection,
            },
        }
    }
}

/// The ways in which a credential authenticates.
#[derive(Debug, PartialEq, Eq, Clone, Copy, Structural)]
pub enum Authentication {
    Key,
    UsernamePassword,
}

impl Credential for CredentialType {
    open spec fn kind_of(v: CredentialTypeView) -> Seq<char> {
        match v {
            CredentialTypeView::Key { common } => common.kind,
            CredentialTypeView::UsernamePassword { common, .. } => common.kind,
        }
    }

    open spec fn path_of(v: CredentialTypeView) -> Seq<char> {
        match v {
            CredentialTypeView::Key { common } => common.path,
            CredentialTypeView::UsernamePassword { common, .. } => common.path,
        }
    }

    open spec fn authentication_of(v: CredentialTypeView) -> Authentication {
        match v {
            CredentialTypeView::Key { .. } => Authentication::Key,
            CredentialTypeView::UsernamePassword { .. } => Authentication::UsernamePassword,
        }
    }

    #[must_use]
    fn kind(&self) -> (r: String) {
        match self {
            CredentialType::Key { common } => common.kind.clone(),
            CredentialType::UsernamePassword { common, .. } => common.kind.clone(),
        }
    }

    #[must_use]
    fn path(&self) -> (r: String) {
        match self {
            CredentialType::Key { common } => common.path.clone(),
            CredentialType::UsernamePassword { common, .. } => common.path.clone(),
        }
    }

    #[must_use]
    fn authentication(&self) -> (r: Authentication) {
        match self {
            CredentialType::Key { .. } => Authentication::Key,
            CredentialType::UsernamePassword { .. } => Authentication::UsernamePassword,
        }
    }
}

impl CredentialType {
    /// The keys of the record in written order, each with the value written
    /// under it, or `None` where the entry is left out.
    pub open spec fn entries(v: CredentialTypeView) -> Seq<(Seq<char>, Option<JsonView>)> {
        match v {
            CredentialTypeView::Key { common } => seq![
                ("AuthenticationKind"@, Some(JsonView::Text("Key"@))),
            ] + CredentialCommon::entries(common),
            CredentialTypeView::UsernamePassword { common, username, encrypt_connection } => seq![
                ("AuthenticationKind"@, Some(JsonView::Text("UsernamePassword"@))),
            ] + CredentialCommon::entries(common) + seq![
                ("Username"@, Some(JsonView::Text(username))),
                ("EncryptConnection"@, Some(JsonView::Boolean(encrypt_connection))),
            ],
        }
    }

    /// What is read from the entries of an object whose kind is `Key`.
    pub open spec fn read_key(fields: Seq<(Seq<char>, JsonView)>) -> Result<
        CredentialTypeView,
        ParseErrorView,
    > {
        match refused_key(
            fields,
            Entity::Credential,
            names(["AuthenticationKind", "kind", "path", "PrivacySetting"]),
        ) {
            Some(e) => Err(e),
            None => match CredentialCommon::read(fields) {
                Err(e) => Err(e),
                Ok(common) => Ok(CredentialTypeView::Key { common }),
            },
        }
    }

    /// What is read from the entries of an object whose kind is
    /// `UsernamePassword`.
    pub open spec fn read_username_password(fields: Seq<(Seq<char>, JsonView)>) -> Result<
        CredentialTypeView,
        ParseErrorView,
    > {
        match refused_key(
            fields,
            Entity::Credential,
            names(
                [
                    "AuthenticationKind",
                    "kind",
                    "path",
                    "PrivacySetting",
                    "Username",
                    "EncryptConnection",
                ],
            ),
        ) {
            Some(e) => Err(e),
            None => {
                let common = CredentialCommon::read(fields);
                let username = text_at(fields, "Username"@, Entity::Credential);
                let encrypt_connection = flag_at(fields, "EncryptConnection"@, Entity::Credential);
                if common is Err {
                    Err(common->Err_0)
                } else if username is Err {
                    Err(username->Err_0)
                } else if encrypt_connection is Err {
                    Err(encrypt_connection->Err_0)
                } else {
                    Ok(
                        CredentialTypeView::UsernamePassword {
                            common: common->Ok_0,
                            username: username->Ok_0,
                            encrypt_connection: encrypt_connection->Ok_0,
                        },
                    )
                }
            },
        }
    }
}

impl Wire for CredentialType {
    open spec fn decode(j: JsonView) -> Result<CredentialTypeView, ParseErrorView> {
        match object_of(j, Entity::Credential) {
            Err(e) => Err(e),
            Ok(fields) => match text_at(fields, "AuthenticationKind"@, Entity::Credential) {
                Err(e) => Err(e),
                Ok(kind) => if kind == "Key"@ {
                    Self::read_key(fields)
                } else if kind == "UsernamePassword"@ {
                    Self::read_username_password(fields)
                } else {
                    Err(failure(ErrorKind::VariantMismatch, Entity::Credential, kind))
                },
            },
        }
    }

    open spec fn encode(v: CredentialTypeView) -> JsonView {
        JsonView::Object(present(Self::entries(v)))
    }

    fn from_json(j: &Json) -> (r: Result<CredentialType, ParseError>) {
        let fields = fields_of(j, Entity::Credential)?;
        let kind = read_text(fields, "AuthenticationKind", Entity::Credential)?;
        if str_eq(kind.as_str(), "Key") {
            check_keys(
                fields,
                Entity::Credential,
                &["AuthenticationKind", "kind", "path", "PrivacySetting"],
            )?;
            let common = CredentialCommon::read_from(fields)?;
            Ok(CredentialType::Key { common })
        } else if str_eq(kind.as_str(), "UsernamePassword") {
            check_keys(
                fields,
                Entity::Credential,
                &[
                    "AuthenticationKind",
                    "kind",
                    "path",
                    "PrivacySetting",
                    "Username",
                    "EncryptConnection",
                ],
            )?;
            let common = CredentialCommon::read_from(fields)?;
            let username = read_text(fields, "Username", Entity::Credential)?;
            let encrypt_connection = read_flag(fields, "EncryptConnection", Entity::Credential)?;
            Ok(CredentialType::UsernamePassword { common, username, encrypt_connection })
        } else {
            Err(ParseError::new(ErrorKind::VariantMismatch, Entity::Credential, kind.as_str()))
        }
    }

    fn to_json(&self) -> (j: Json) {
        let w = match self {
            CredentialType::Key { common } => common.write_into(
                ObjectWriter::new().put("AuthenticationKind", Json::text("Key")),
            ),
            CredentialType::UsernamePassword {
                common,
                username,
                encrypt_connection,
            } => common.write_into(
                ObjectWriter::new().put("AuthenticationKind", Json::text("UsernamePassword")),
            ).put("Username", Json::text(username.as_str())).put(
                "EncryptConnection",
                Json::Boolean(*encrypt_connection),
            ),
        };
        assert(w.table() =~= Self::entries(self.deep_view()));
        w.finish()
    }

    open spec fn strict_keys() -> Option<Seq<Seq<char>>> {
        Some(
            names(
                [
                    "AuthenticationKind",
                    "kind",
                    "path",
                    "PrivacySetting",
                    "Username",
                    "EncryptConnection",
                ],
            ),
        )
    }

    proof fn lemma_refuses_unknown_key(fields: Seq<(Seq<char>, JsonView)>, i: int) {
        let all = names(
            [
                "AuthenticationKind",
                "kind",
                "path",
                "PrivacySetting",
                "Username",
                "EncryptConnection",
            ],
        );
        let fewer = names(["AuthenticationKind", "kind", "path", "PrivacySetting"]);
        if !all.contains(fields[i].0) {
            assert forall|k: int| 0 <= k < fewer.len(
                ) implies all.contains(#[trigger] fewer[k],
            ) by {
                assert(all[k] == fewer[k]);
            }
            lemma_unknown_at(fields, all, fewer, i);
            lemma_unknown_at(fields, all, all, i);
        }
    }

    open spec fn declared_keys() -> Option<Seq<Seq<char>>> {
        Self::strict_keys()
    }

    proof fn lemma_refuses_repeated_key(fields: Seq<(Seq<char>, JsonView)>, i: int, j: int) {
        lemma_key_refused(
            fields,
            names(["AuthenticationKind", "kind", "path", "PrivacySetting"]),
            i,
            j,
        );
        lemma_key_refused(
            fields,
            names(
                [
                    "AuthenticationKind",
                    "kind",
                    "path",
                    "PrivacySetting",
                    "Username",
                    "EncryptConnection",
                ],
            ),
            i,
            j,
        );
    }

    proof fn lemma_round_trip(v: CredentialTypeView) {
        let table = Self::entries(v);
        reveal_strlit("Key");
        reveal_strlit("UsernamePassword");
        assert("Key"@.len() == 3);
        assert("UsernamePassword"@.len() == 16);
        reveal_strlit("AuthenticationKind");
        reveal_strlit("kind");
        reveal_strlit("path");
        reveal_strlit("PrivacySetting");
        reveal_strlit("Username");
        reveal_strlit("EncryptConnection");
        assert("AuthenticationKind"@.len() == 18);
        assert("kind"@.len() == 4);
        assert("path"@.len() == 4);
        assert("PrivacySetting"@.len() == 14);
        assert("Username"@.len() == 8);
        assert("EncryptConnection"@.len() == 17);
        assert("kind"@[0] != "path"@[0]);
        match v {
            CredentialTypeView::Key { common } => {
                let allowed = names(["AuthenticationKind", "kind", "path", "PrivacySetting"]);
                assert(table.len() == 4);
                assert(keys_distinct(table));
                assert forall|i: int| 0 <= i < table.len() implies allowed.contains(
                    (#[trigger] table[i]).0,
                ) by {
                    assert(allowed[i] == table[i].0);
                }
                lemma_present_known(table, allowed);
                lemma_lookup_present(table, 0);
                lemma_lookup_present(table, 1);
                lemma_lookup_present(table, 2);
                lemma_lookup_present(table, 3);
                if common.privacy_setting is Some {
                    PrivacySetting::lemma_round_trip(common.privacy_setting->0);
                }
            },
            CredentialTypeView::UsernamePassword { common, .. } => {
                let allowed = names(
                    [
                        "AuthenticationKind",
                        "kind",
                        "path",
                        "PrivacySetting",
                        "Username",
                        "EncryptConnection",
                    ],
                );
                assert(table.len() == 6);
                assert(keys_distinct(table));
                assert forall|i: int| 0 <= i < table.len() implies allowed.contains(
                    (#[trigger] table[i]).0,
                ) by {
                    assert(allowed[i] == table[i].0);
                }
                lemma_present_known(table, allowed);
                lemma_lookup_present(table, 0);
                lemma_lookup_present(table, 1);
                lemma_lookup_present(table, 2);
                lemma_lookup_present(table, 3);
                lemma_lookup_present(table, 4);
                lemma_lookup_present(table, 5);
                if common.privacy_setting is Some {
                    PrivacySetting::lemma_round_trip(common.privacy_setting->0);
                }
            },
        }
    }
}

/// Options of a data source.
#[derive(Debug, PartialEq, Eq, Clone)]
pub struct DataSourceOption {
    pub return_single_database: Option<bool>,
}

/// The model of a [`DataSourceOption`].
pub struct DataSourceOptionView {
    pub return_single_database: Option<bool>,
}

impl DeepView for DataSourceOption {
    type V = DataSourceOptionView;

    open spec fn deep_view(&self) -> DataSourceOptionView {
        DataSourceOptionView {
            return_single_database: self.return_single_database,
        }
    }
}

impl DataSourceOption {
    /// The keys of the record in written order, each with the value written
    /// under it, or `None` where the entry is left out.
    pub open spec fn entries(v: DataSourceOptionView) -> Seq<(Seq<char>, Option<JsonView>)> {
        seq![
            ("returnSingleDatabase"@, opt_flag_json(v.return_single_database)),
        ]
    }

    /// Each key of the record is read back with the value written under it,
    /// and no key is written that the record does not declare.
    pub proof fn lemma_entries(v: DataSourceOptionView)
        ensures
            lookup(present(Self::entries(v)), "returnSingleDatabase"@) == Self::entries(v)[0].1,
            refused_key(
                present(Self::entries(v)),
                Entity::DataSourceOption,
                names(["returnSingleDatabase"]),
            ) is None,
    {
        let table = Self::entries(v);
        reveal_strlit("returnSingleDatabase");
        assert("returnSingleDatabase"@.len() == 20);
        assert(table.len() == 1);
        assert(keys_distinct(table));
        let allowed = names(["returnSingleDatabase"]);
        assert forall|i: int| 0 <= i < table.len() implies allowed.contains(
            (#[trigger] table[i]).0,
        ) by {
            assert(allowed[i] == table[i].0);
        }
        lemma_present_known(table, allowed);
        lemma_lookup_present(table, 0);
    }
}

impl Wire for DataSourceOption {
    open spec fn decode(j: JsonView) -> Result<DataSourceOptionView, ParseErrorView> {
        match strict_object_of(j, Entity::DataSourceOption, names(["returnSingleDatabase"])) {
            Err(e) => Err(e),
            Ok(fields) => {
                let return_single_database = opt_flag_at(
                    fields,
                    "returnSingleDatabase"@,
                    Entity::DataSourceOption,
                );
                if return_single_database is Err {
                    Err(return_single_database->Err_0)
                } else {
                    Ok(
                        DataSourceOptionView {
                            return_single_database: return_single_database->Ok_0,
                        },
                    )
                }
            },
        }
    }

    open spec fn encode(v: DataSourceOptionView) -> JsonView {
        JsonView::Object(present(Self::entries(v)))
    }

    fn from_json(j: &Json) -> (r: Result<DataSourceOption, ParseError>) {
        let fields = strict_fields_of(j, Entity::DataSourceOption, &["returnSingleDatabase"])?;
        let return_single_database = read_opt_flag(
            fields,
            "returnSingleDatabase",
            Entity::DataSourceOption,
        )?;
        Ok(DataSourceOption { return_single_database })
    }

    fn to_json(&self) -> (j: Json) {
        let w = ObjectWriter::new()
            .put_opt("returnSingleDatabase", write_opt_flag(self.return_single_database));
        assert(w.table() =~= Self::entries(self.deep_view()));
        w.finish()
    }

    open spec fn strict_keys() -> Option<Seq<Seq<char>>> {
        Some(names(["returnSingleDatabase"]))
    }

    open spec fn declared_keys() -> Option<Seq<Seq<char>>> {
        Some(names(["returnSingleDatabase"]))
    }

    proof fn lemma_refuses_unknown_key(fields: Seq<(Seq<char>, JsonView)>, i: int) {
        lemma_first_unknown_none(fields, names(["returnSingleDatabase"]));
    }

    proof fn lemma_refuses_repeated_key(fields: Seq<(Seq<char>, JsonView)>, i: int, j: int) {
        let declared = names(["returnSingleDatabase"]);
        if declared.contains(fields[i].0) {
            lemma_repeated_at(fields, declared, i, j);
        }
    }

    proof fn lemma_round_trip(v: DataSourceOptionView) {
        Self::lemma_entries(v);
        let fields = present(Self::entries(v));
        let object = strict_object_of(
            Self::encode(v),
            Entity::DataSourceOption,
            names(["returnSingleDatabase"]),
        );
        assert(object is Ok && object->Ok_0 == fields);
        let return_single_database = opt_flag_at(
            fields,
            "returnSingleDatabase"@,
            Entity::DataSourceOption,
        );
        assert(return_single_database->Ok_0 == v.return_single_database
            && return_single_database is Ok);
    }
}

} // verus!
