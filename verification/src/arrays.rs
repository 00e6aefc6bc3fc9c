//! The Arrow side: the builders of leaf columns, finished columns and
//! record batches.
//!
//! Each leaf column is an Arrow array builder. The builders are generic over
//! Arrow's own type traits, so each one is kept in a private field of a
//! struct that the verifier treats as opaque; a finished column is a
//! reference-counted trait object and is kept in the same way. What a
//! builder or a column holds is named by a specification function, and
//! every function in this module states, without proof, what the Arrow
//! function it calls does to those contents.

use arrow::array::{
    ArrayBuilder, ArrayRef, Int32Builder, LargeBinaryBuilder, LargeListBuilder, LargeStringBuilder,
    RecordBatch, RecordBatchOptions, StructArray,
};
use arrow::buffer::NullBuffer;
use arrow::datatypes::{Field, Fields, Schema};
use arrow::error::ArrowError;
use crate::schema::{DefView, KindView, LeafKind};
use std::sync::Arc;
use vstd::prelude::*;

verus! {

/// One row of a column.
pub enum Cell {
    Null,
    Int32(i32),
    Utf8(Seq<char>),
    Binary(Seq<u8>),
    List(Seq<i32>),
    /// A present row of a struct column: one cell per field.
    Struct(Seq<Cell>),
}

/// The largest reservation, in rows or bytes, that is handed to Arrow when a
/// builder is created. It keeps every initial allocation far below the
/// point at which `Vec::with_capacity` refuses the request.
pub const RESERVE_LIMIT: usize = 0x0100_0000;

/// A column of nullable 32-bit integers: Arrow's `Int32Builder`.
#[verifier::external_body]
pub struct Int32Column {
    inner: Int32Builder,
}

/// The rows appended to an `Int32Builder` since it was created or last
/// finished, oldest first.
pub uninterp spec fn int32_cells(b: Int32Column) -> Seq<Cell>;

/// A column of nullable strings: Arrow's `LargeStringBuilder`, whose 64-bit
/// offsets cannot overflow.
#[verifier::external_body]
pub struct Utf8Column {
    inner: LargeStringBuilder,
}

/// The rows appended to a `LargeStringBuilder` since it was created or last
/// finished, oldest first.
pub uninterp spec fn utf8_cells(b: Utf8Column) -> Seq<Cell>;

/// A column of nullable byte strings: Arrow's `LargeBinaryBuilder`.
#[verifier::external_body]
pub struct BinaryColumn {
    inner: LargeBinaryBuilder,
}

/// The rows appended to a `LargeBinaryBuilder` since it was created or last
/// finished, oldest first.
pub uninterp spec fn binary_cells(b: BinaryColumn) -> Seq<Cell>;

/// A column of nullable lists of 32-bit integers: Arrow's
/// `LargeListBuilder<Int32Builder>`.
#[verifier::external_body]
pub struct ListColumn {
    inner: LargeListBuilder<Int32Builder>,
}

/// The rows appended to a `LargeListBuilder` since it was created or last
/// finished, oldest first.
pub uninterp spec fn list_cells(b: ListColumn) -> Seq<Cell>;

/// A finished column: an Arrow `ArrayRef`.
#[verifier::external_body]
pub struct ColumnData {
    inner: ArrayRef,
}

/// The rows of a finished Arrow array, first row first.
pub uninterp spec fn column_cells(a: ColumnData) -> Seq<Cell>;

/// The Arrow data type of a finished array, in the terms of a schema:
/// `Int32` for integers, `LargeUtf8` for text, `LargeBinary` for byte
/// strings, `LargeList` of `Int32` for lists, and for a nested table
/// `Struct` with the fields of the table.
pub uninterp spec fn column_type(a: ColumnData) -> KindView;

/// An Arrow `RecordBatch`: a schema and one array per field, all of one
/// length. The field is public so that a writer of columnar files can
/// take the batch.
#[verifier::external_body]
pub struct ArrowBatch {
    pub inner: RecordBatch,
}

/// Arrow's error type.
#[verifier::external_type_specification]
#[verifier::external_body]
pub struct ExArrowError(ArrowError);

/// The columns of a record batch, in schema order, each as its rows.
pub uninterp spec fn record_columns(b: ArrowBatch) -> Seq<Seq<Cell>>;

/// The number of rows of a record batch.
pub uninterp spec fn record_rows(b: ArrowBatch) -> nat;

/// The fields of the schema of a record batch, in order: the name, the
/// data type and the nullability of each.
pub uninterp spec fn record_schema(b: ArrowBatch) -> Seq<DefView>;

/// The fields that describe the given columns: each with its name, the
/// data type of its array and its nullability.
pub open spec fn described(names: Seq<String>, nullable: Seq<bool>, columns: Seq<ColumnData>) -> Seq<DefView> {
    Seq::new(
        columns.len(),
        |i: int| DefView { name: names[i]@, kind: column_type(columns[i]), nullable: nullable[i] },
    )
}

/// The rows of each of the given columns.
pub open spec fn all_cells(columns: Seq<ColumnData>) -> Seq<Seq<Cell>> {
    Seq::new(columns.len(), |i: int| column_cells(columns[i]))
}

/// The rows of a struct column: a present row holds the cells of that row
/// in each field; a row that is marked absent is null.
pub open spec fn struct_cells(marks: Seq<bool>, fields: Seq<Seq<Cell>>) -> Seq<Cell> {
    Seq::new(
        marks.len(),
        |r: int|
            if marks[r] {
                Cell::Struct(Seq::new(fields.len(), |i: int| fields[i][r]))
            } else {
                Cell::Null
            },
    )
}

/// Every null among `cells` stands in a row that `marks` marks absent.
pub open spec fn nulls_masked(cells: Seq<Cell>, marks: Seq<bool>) -> bool {
    forall|r: int| 0 <= r < cells.len() && r < marks.len() && cells[r] is Null ==> !#[trigger] marks[r]
}

/// What Arrow asks of the fields of a struct column: each has one row per
/// mark, and a field that does not admit nulls has none in a present row.
pub open spec fn struct_accepted(nullable: Seq<bool>, fields: Seq<Seq<Cell>>, marks: Seq<bool>) -> bool {
    forall|i: int|
        0 <= i < fields.len() ==> (#[trigger] fields[i]).len() == marks.len() && (nullable[i] || nulls_masked(
            fields[i],
            marks,
        ))
}

/// What Arrow asks of the columns of a record batch: each has `rows`
/// rows, and a column that does not admit nulls has none.
pub open spec fn batch_accepted(nullable: Seq<bool>, columns: Seq<Seq<Cell>>, rows: nat) -> bool {
    forall|i: int|
        0 <= i < columns.len() ==> (#[trigger] columns[i]).len() == rows && (nullable[i] || !columns[i].contains(
            Cell::Null,
        ))
}

/// `Int32Builder::with_capacity`: a builder that holds no rows.
#[verifier::external_body]
pub(crate) fn int32_with_capacity(rows: usize) -> (b: Int32Column)
    requires
        rows <= RESERVE_LIMIT,
    ensures
        int32_cells(b) == Seq::<Cell>::empty(),
{
    Int32Column { inner: Int32Builder::with_capacity(rows) }
}

/// `ArrayBuilder::len` of an `Int32Builder`: the number of rows it holds.
#[verifier::external_body]
pub(crate) fn int32_len(b: &Int32Column) -> (n: usize)
    ensures
        n == int32_cells(*b).len(),
{
    b.inner.len()
}

/// `Int32Builder::append_value`: one more row, holding `v`.
#[verifier::external_body]
pub(crate) fn int32_append_value(b: &mut Int32Column, v: i32)
    ensures
        int32_cells(*final(b)) == int32_cells(*old(b)).push(Cell::Int32(v)),
{
    b.inner.append_value(v)
}

/// `Int32Builder::append_null`: one more row, holding a null.
#[verifier::external_body]
pub(crate) fn int32_append_null(b: &mut Int32Column)
    ensures
        int32_cells(*final(b)) == int32_cells(*old(b)).push(Cell::Null),
{
    b.inner.append_null()
}

/// `ArrayBuilder::finish` of an `Int32Builder`: the rows move into the
/// array that is returned, of type `Int32`, and the builder is left empty.
#[verifier::external_body]
pub(crate) fn int32_finish(b: &mut Int32Column) -> (a: ColumnData)
    ensures
        column_cells(a) == int32_cells(*old(b)),
        column_type(a) == KindView::Leaf(LeafKind::Int32),
        int32_cells(*final(b)) == Seq::<Cell>::empty(),
{
    ColumnData { inner: ArrayBuilder::finish(&mut b.inner) }
}

/// `LargeStringBuilder::with_capacity`: a builder that holds no rows.
#[verifier::external_body]
pub(crate) fn utf8_with_capacity(rows: usize, bytes: usize) -> (b: Utf8Column)
    requires
        rows <= RESERVE_LIMIT,
        bytes <= RESERVE_LIMIT,
    ensures
        utf8_cells(b) == Seq::<Cell>::empty(),
{
    Utf8Column { inner: LargeStringBuilder::with_capacity(rows, bytes) }
}

/// `ArrayBuilder::len` of a `LargeStringBuilder`: the number of rows it
/// holds.
#[verifier::external_body]
pub(crate) fn utf8_len(b: &Utf8Column) -> (n: usize)
    ensures
        n == utf8_cells(*b).len(),
{
    b.inner.len()
}

/// `LargeStringBuilder::append_value`: one more row, holding the text `v`.
#[verifier::external_body]
pub(crate) fn utf8_append_value(b: &mut Utf8Column, v: &str)
    ensures
        utf8_cells(*final(b)) == utf8_cells(*old(b)).push(Cell::Utf8(v@)),
{
    b.inner.append_value(v)
}

/// `LargeStringBuilder::append_null`: one more row, holding a null.
#[verifier::external_body]
pub(crate) fn utf8_append_null(b: &mut Utf8Column)
    ensures
        utf8_cells(*final(b)) == utf8_cells(*old(b)).push(Cell::Null),
{
    b.inner.append_null()
}

/// `ArrayBuilder::finish` of a `LargeStringBuilder`: the rows move into the
/// array that is returned, of type `LargeUtf8`, and the builder is left
/// empty.
#[verifier::external_body]
pub(crate) fn utf8_finish(b: &mut Utf8Column) -> (a: ColumnData)
    ensures
        column_cells(a) == utf8_cells(*old(b)),
        column_type(a) == KindView::Leaf(LeafKind::Utf8),
        utf8_cells(*final(b)) == Seq::<Cell>::empty(),
{
    ColumnData { inner: ArrayBuilder::finish(&mut b.inner) }
}

/// `LargeBinaryBuilder::with_capacity`: a builder that holds no rows.
#[verifier::external_body]
pub(crate) fn binary_with_capacity(rows: usize, bytes: usize) -> (b: BinaryColumn)
    requires
        rows <= RESERVE_LIMIT,
        bytes <= RESERVE_LIMIT,
    ensures
        binary_cells(b) == Seq::<Cell>::empty(),
{
    BinaryColumn { inner: LargeBinaryBuilder::with_capacity(rows, bytes) }
}

/// `ArrayBuilder::len` of a `LargeBinaryBuilder`: the number of rows it
/// holds.
#[verifier::external_body]
pub(crate) fn binary_len(b: &BinaryColumn) -> (n: usize)
    ensures
        n == binary_cells(*b).len(),
{
    b.inner.len()
}

/// `LargeBinaryBuilder::append_value`: one more row, holding the bytes `v`.
#[verifier::external_body]
pub(crate) fn binary_append_value(b: &mut BinaryColumn, v: &[u8])
    ensures
        binary_cells(*final(b)) == binary_cells(*old(b)).push(Cell::Binary(v@)),
{
    b.inner.append_value(v)
}

/// `LargeBinaryBuilder::append_null`: one more row, holding a null.
#[verifier::external_body]
pub(crate) fn binary_append_null(b: &mut BinaryColumn)
    ensures
        binary_cells(*final(b)) == binary_cells(*old(b)).push(Cell::Null),
{
    b.inner.append_null()
}

/// `ArrayBuilder::finish` of a `LargeBinaryBuilder`: the rows move into the
/// array that is returned, of type `LargeBinary`, and the builder is left
/// empty.
#[verifier::external_body]
pub(crate) fn binary_finish(b: &mut BinaryColumn) -> (a: ColumnData)
    ensures
        column_cells(a) == binary_cells(*old(b)),
        column_type(a) == KindView::Leaf(LeafKind::Binary),
        binary_cells(*final(b)) == Seq::<Cell>::empty(),
{
    ColumnData { inner: ArrayBuilder::finish(&mut b.inner) }
}

/// `LargeListBuilder::with_capacity` over `Int32Builder::with_capacity`: a
/// builder that holds no rows.
#[verifier::external_body]
pub(crate) fn list_with_capacity(rows: usize, items: usize) -> (b: ListColumn)
    requires
        rows <= RESERVE_LIMIT,
        items <= RESERVE_LIMIT,
    ensures
        list_cells(b) == Seq::<Cell>::empty(),
{
    ListColumn { inner: LargeListBuilder::with_capacity(Int32Builder::with_capacity(items), rows) }
}

/// `ArrayBuilder::len` of a `LargeListBuilder`: the number of rows it holds.
#[verifier::external_body]
pub(crate) fn list_len(b: &ListColumn) -> (n: usize)
    ensures
        n == list_cells(*b).len(),
{
    b.inner.len()
}

/// `LargeListBuilder::append_value`: one more row, holding the list of the
/// given items, none of them null.
#[verifier::external_body]
pub(crate) fn list_append_value(b: &mut ListColumn, items: &[i32])
    ensures
        list_cells(*final(b)) == list_cells(*old(b)).push(Cell::List(items@)),
{
    b.inner.append_value(items.iter().map(|v| Some(*v)))
}

/// `LargeListBuilder::append_null`: one more row, holding a null.
#[verifier::external_body]
pub(crate) fn list_append_null(b: &mut ListColumn)
    ensures
        list_cells(*final(b)) == list_cells(*old(b)).push(Cell::Null),
{
    b.inner.append_null()
}

/// `ArrayBuilder::finish` of a `LargeListBuilder`: the rows move into the
/// array that is returned, of type `LargeList` of `Int32`, and the builder
/// is left empty.
#[verifier::external_body]
pub(crate) fn list_finish(b: &mut ListColumn) -> (a: ColumnData)
    ensures
        column_cells(a) == list_cells(*old(b)),
        column_type(a) == KindView::Leaf(LeafKind::List),
        list_cells(*final(b)) == Seq::<Cell>::empty(),
{
    ColumnData { inner: ArrayBuilder::finish(&mut b.inner) }
}

/// `Arc::clone` of an `ArrayRef`: the same array once more.
#[verifier::external_body]
pub(crate) fn column_share(a: &ColumnData) -> (r: ColumnData)
    ensures
        column_cells(r) == column_cells(*a),
        column_type(r) == column_type(*a),
{
    ColumnData { inner: a.inner.clone() }
}

/// `StructArray::try_new_with_length`, with the marks as the validity and
/// each field made by `Field::new` from its name, the data type of its
/// column and its nullability. Arrow accepts the fields exactly when each
/// has one row per mark and no field that forbids nulls has one in a
/// present row; the struct column then has the rows that the marks and
/// the fields give, and the type `Struct` of those fields.
#[verifier::external_body]
pub(crate) fn struct_column(
    names: &Vec<String>,
    nullable: &Vec<bool>,
    columns: &Vec<ColumnData>,
    marks: &Vec<bool>,
) -> (r: Result<ColumnData, ArrowError>)
    requires
        names@.len() == columns@.len(),
        nullable@.len() == columns@.len(),
    ensures
        r is Ok <==> struct_accepted(nullable@, all_cells(columns@), marks@),
        r is Ok ==> column_cells(r->Ok_0) == struct_cells(marks@, all_cells(columns@)),
        r is Ok ==> column_type(r->Ok_0) == KindView::Nested(described(names@, nullable@, columns@)),
{
    let described = columns.iter().zip(names.iter().zip(nullable.iter()));
    let fields: Vec<Field> = described.map(|(c, (n, x))| Field::new(n.as_str(), c.inner.data_type().clone(), *x)).collect();
    let arrays: Vec<ArrayRef> = columns.iter().map(|c| c.inner.clone()).collect();
    let validity = NullBuffer::from(marks.as_slice());
    let made = StructArray::try_new_with_length(Fields::from(fields), arrays, Some(validity), marks.len())?;
    Ok(ColumnData { inner: Arc::new(made) })
}

/// `RecordBatch::try_new_with_options`, with the row count given and each
/// field made by `Field::new` from its name, the data type of its column
/// and its nullability. Arrow accepts the columns exactly when each has
/// `rows` rows and no column that forbids nulls holds one; the batch then
/// has those columns, that many rows, and a schema of those fields.
#[verifier::external_body]
pub(crate) fn record_batch(
    names: &Vec<String>,
    nullable: &Vec<bool>,
    columns: &Vec<ColumnData>,
    rows: usize,
) -> (r: Result<ArrowBatch, ArrowError>)
    requires
        names@.len() == columns@.len(),
        nullable@.len() == columns@.len(),
    ensures
        r is Ok <==> batch_accepted(nullable@, all_cells(columns@), rows as nat),
        r is Ok ==> record_columns(r->Ok_0) == all_cells(columns@) && record_rows(r->Ok_0) == rows,
        r is Ok ==> record_schema(r->Ok_0) == described(names@, nullable@, columns@),
{
    let described = columns.iter().zip(names.iter().zip(nullable.iter()));
    let fields: Vec<Field> = described.map(|(c, (n, x))| Field::new(n.as_str(), c.inner.data_type().clone(), *x)).collect();
    let arrays: Vec<ArrayRef> = columns.iter().map(|c| c.inner.clone()).collect();
    let options = RecordBatchOptions::new().with_row_count(Some(rows));
    let made = RecordBatch::try_new_with_options(Arc::new(Schema::new(fields)), arrays, &options)?;
    Ok(ArrowBatch { inner: made })
}

} // verus!
