//! Row-aligned construction of columnar record batches.
//!
//! A [`ColumnTree`] owns one Arrow array builder per column of a table,
//! nested tables included. Producers append to columns one field at a
//! time; [`autocomplete_row`] finds the single row that is still short in
//! some columns and fills it, and a flush turns the aligned buffers into a
//! [`RowBatch`], which Arrow takes as a record batch.
//!
//! Everything is stated over the mathematical model in [`model`]: a table
//! is a sequence of columns, a column is the sequence of its rows.

pub mod arrays;
pub mod batch;
pub mod common;
pub mod error;
pub mod laws;
pub mod model;
pub mod schema;
pub mod text;
pub mod traits;
pub mod tree;

pub use arrays::ArrowBatch;
pub use batch::RowBatch;
pub use common::Common;
pub use common::CommonBuilder;
pub use error::TableError;
pub use model::RowState;
pub use schema::ColumnDef;
pub use schema::ColumnKind;
pub use schema::LeafKind;
pub use schema::SchemaDescriptor;
pub use traits::autocomplete_row;
pub use traits::debug_assert_row_counts;
pub use traits::debug_dump_column_row_counts;
pub use traits::ArrowTable;
pub use traits::TableBuilder;
pub use tree::empty_batch;
pub use tree::ColumnTree;
