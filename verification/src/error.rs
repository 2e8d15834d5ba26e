//! Why reading a document failed, and where.

use vstd::prelude::*;

verus! {

/// The kind of a reading failure.
#[derive(Clone, Copy, Debug, PartialEq, Eq, Structural)]
pub enum ErrorKind {
    /// The text is no JSON document at all.
    Malformed,
    /// A value has another JSON type than its place asks for.
    TypeMismatch,
    /// A required field is absent.
    MissingField,
    /// A strict record holds a field that it does not declare.
    UnknownField,
    /// A record holds one of its fields twice.
    DuplicateField,
    /// No declared shape of a variant type fits the value.
    VariantMismatch,
}

/// The record type in which a failure was found.
#[derive(Clone, Copy, Debug, PartialEq, Eq, Structural)]
pub enum Entity {
    Document,
    Model,
    DataSource,
    ConnectionDetails,
    Address,
    Credential,
    PrivacySetting,
    DataSourceOption,
    Table,
    Column,
    DataCategory,
    Partition,
    Source,
    Measure,
    Kpi,
    CalculationGroup,
    CalculationItem,
    FormatStringDefinition,
    Relationship,
    CrossFilterBehaviour,
    Role,
    Member,
    Annotation,
    ModelExpression,
    Expression,
}

/// A reading failure: what went wrong, in which record type, at which field.
#[derive(Clone, Debug, PartialEq, Eq)]
pub struct ParseError {
    pub kind: ErrorKind,
    pub entity: Entity,
    /// The field concerned; empty where the record itself is at fault.
    pub field: String,
    /// The JSON reader's own message; empty unless `kind` is `Malformed`.
    pub detail: String,
}

/// The model of a [`ParseError`].
pub struct ParseErrorView {
    pub kind: ErrorKind,
    pub entity: Entity,
    pub field: Seq<char>,
    pub detail: Seq<char>,
}

impl DeepView for ParseError {
    type V = ParseErrorView;

    open spec fn deep_view(&self) -> ParseErrorView {
        ParseErrorView {
            kind: self.kind,
            entity: self.entity,
            field: self.field@,
            detail: self.detail@,
        }
    }
}

/// The failure of kind `kind` in `entity` at `field`, with no reader message.
pub open spec fn failure(kind: ErrorKind, entity: Entity, field: Seq<char>) -> ParseErrorView {
    ParseErrorView { kind, entity, field, detail: Seq::empty() }
}

/// The model of a reading result: the model of the value, or of the failure.
pub open spec fn outcome<T: DeepView>(r: Result<T, ParseError>) -> Result<T::V, ParseErrorView> {
    match r {
        Ok(t) => Ok(t.deep_view()),
        Err(e) => Err(e.deep_view()),
    }
}

impl ParseError {
    /// Builds the failure of kind `kind` in `entity` at `field`.
    pub fn new(kind: ErrorKind, entity: Entity, field: &str) -> (e: ParseError)
        ensures
            e.deep_view() == failure(kind, entity, field@),
    {
        ParseError { kind, entity, field: field.to_owned(), detail: String::new() }
    }
}

} // verus!
