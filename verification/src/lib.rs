//! A small object-relational mapping core: typed records are described by a
//! schema, turned into parameterised SQL statements, and rebuilt from the rows
//! a storage engine hands back.
//!
//! The crate performs no I/O. It plans statements and interprets rows; a
//! storage engine runs what is planned.
//!
//! - `model`: the descriptor of a record type: table, fields, primary key.
//! - `value`: the untyped value that records and rows are exchanged in.
//! - `db`: the statements of the record store.
//! - `query`: the builder of read queries.
//! - `util`: the bridge from rows to records and from untyped values to
//!   typed fields.
//! - `statement`: SQL text with the values bound to it.
//! - `text`: joining, decimal numerals, counting.
//! - `json`: the JSON encoding of compound values.

pub mod db;
pub mod json;
pub mod model;
pub mod query;
pub mod statement;
pub mod text;
pub mod util;
pub mod value;

pub use db::Database;
pub use model::{Model, Schema};
pub use query::QueryBuilder;
pub use statement::{Param, PlanError, Statement};
pub use value::{Number, Object, Untyped};
pub use util::{row_to_model, DeserError, LooseValue};
