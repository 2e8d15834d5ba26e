//! The document model: its records, their JSON form and their order.
//!
//! Every record type reads itself from a JSON value and writes itself back
//! ([`crate::codec::Wire`]). A strict record refuses a field that it does not
//! declare; the document root, the model, roles, members and format string
//! definitions ignore such fields. Every record refuses an object that holds
//! one of its own fields twice. Where a type has several shapes, the
//! protocol of connection details and the authentication kind of a credential
//! name the shape, while columns, addresses and expressions are read as the
//! first shape that fits.
//!
//! Records that stand in lists are ranked ([`crate::sorting::Ranked`]): by
//! name without regard to case, but for calculation items, which go by
//! ordinal and then by name as written. A record that owns lists brings them
//! into canonical order ([`RecursiveSort`]), the lists of its elements first.

pub mod annotations;
pub mod bim;
pub mod datasource;
pub mod expression;
pub mod model;
pub mod relationship;
pub mod roles;
pub mod skip_if;
pub mod table;
pub mod traits;

pub use bim::Bim;
pub use datasource::DataSource;
pub use expression::{Expression, Expressive};
pub use model::Model;
pub use relationship::Relationship;
pub use traits::RecursiveSort;
