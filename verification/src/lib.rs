//! Schema hierarchy resolution and a typed value model for relational table
//! descriptions.
//!
//! The crate classifies table schemas into base tables and the tables that
//! extend them, flattens each hierarchy into a two-level definition, types
//! untyped field values, and encodes query filters.

pub mod definition;
pub mod definition_laws;
pub mod filter;
pub mod forest_laws;
pub mod hierarchy;
pub mod named;
pub mod raw;
pub mod request;
pub mod rows;
pub mod schema;
pub mod session;
pub mod text;
pub mod value;

pub use crate::definition::TableDefinition;
pub use crate::filter::{Comp, Filter};
pub use crate::hierarchy::TableNode;
pub use crate::raw::{RawNumber, RawValue};
pub use crate::request::Selection;
pub use crate::rows::{DecodeError, TableEntry};
pub use crate::schema::{ColumnType, Table, TableColumn, TableColumnForeignKey};
pub use crate::value::{ColumnParseError, ColumnValue};
