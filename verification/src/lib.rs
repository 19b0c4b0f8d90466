//! Tree tables: rows that nest, a number per row and column, and columns whose
//! numbers are derived from other cells.
//!
//! A number is an IEEE 754 double, carried by its 64-bit pattern. The library
//! stores and moves numbers; where it has to add or multiply two of them it
//! calls the operations that the caller hands in.

pub mod codec;
pub mod column;
pub mod display;
pub mod document;
pub mod engine;
pub mod json;
pub mod laws;
pub mod row;
pub mod session;
pub mod values;

pub use crate::codec::LoadError;
pub use crate::column::{ColumnConfig, ColumnType};
pub use crate::document::TreeTable;
pub use crate::engine::EngineError;
pub use crate::json::JsonValue;
pub use crate::row::RowData;
pub use crate::session::TreeTablesApp;
pub use crate::values::{DataElement, Values};
