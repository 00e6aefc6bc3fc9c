use arrow::array::Array;
use arrow::array::Int32Array;
use arrow::array::LargeBinaryArray;
use arrow::array::LargeListArray;
use arrow::array::LargeStringArray;
use arrow::array::StructArray;
use arrow::datatypes::DataType;
use table_builder::empty_batch;
use table_builder::ColumnTree;
use table_builder::LeafKind;
use table_builder::SchemaDescriptor;
use table_builder::TableError;

fn nested_schema() -> SchemaDescriptor {
    let inner = SchemaDescriptor::new().with_column("c", LeafKind::Utf8, true);
    SchemaDescriptor::new()
        .with_column("a", LeafKind::Int32, true)
        .with_table("b", inner, true)
}

fn wide_schema() -> SchemaDescriptor {
    let inner = SchemaDescriptor::new()
        .with_column("c", LeafKind::Utf8, true)
        .with_column("d", LeafKind::Int32, true);
    SchemaDescriptor::new()
        .with_column("a", LeafKind::Int32, true)
        .with_table("b", inner, true)
        .with_column("blob", LeafKind::Binary, true)
        .with_column("items", LeafKind::List, true)
}

#[test]
fn autocomplete_fills_nested_column_with_null() {
    let mut tree = ColumnTree::new(&nested_schema(), 16, 4, 32, 32);
    assert_eq!(tree.append_int32(0, 5), Ok(()));
    assert_eq!(tree.row_count(), (0, 1));
    assert_eq!(tree.autocomplete(), Ok(()));
    assert_eq!(tree.row_count(), (1, 1));

    let batch = tree.flush().unwrap();
    assert_eq!(batch.rows(), 1);
    assert_eq!(batch.column_count(), 2);
    let record = batch.to_record_batch().unwrap().inner;
    assert_eq!(record.num_rows(), 1);
    assert_eq!(record.num_columns(), 2);
    assert_eq!(record.schema().field(0).name(), "a");
    assert_eq!(record.schema().field(1).name(), "b");
    let a = record.column(0).as_any().downcast_ref::<Int32Array>().unwrap();
    assert_eq!(a.len(), 1);
    assert!(a.is_valid(0));
    assert_eq!(a.value(0), 5);
    let b = record.column(1).as_any().downcast_ref::<StructArray>().unwrap();
    assert_eq!(b.len(), 1);
    assert_eq!(b.num_columns(), 1);
    let c = b.column(0).as_any().downcast_ref::<LargeStringArray>().unwrap();
    assert_eq!(c.len(), 1);
    assert!(c.is_null(0));
}

#[test]
fn autocomplete_refuses_two_rows_ahead() {
    let mut tree = ColumnTree::new(&nested_schema(), 16, 4, 32, 32);
    assert_eq!(tree.append_int32(0, 5), Ok(()));
    assert_eq!(tree.append_int32(0, 6), Ok(()));
    assert_eq!(
        tree.autocomplete(),
        Err(TableError::MultipleIncompleteRows { complete: 0, incomplete: 2 })
    );
    assert_eq!(tree.column_len(0), Some(2));
    assert_eq!(tree.column_len(1), Some(0));
    assert_eq!(tree.nested_at(1).unwrap().column_len(0), Some(0));
    assert_eq!(tree.row_count(), (0, 2));
}

#[test]
fn autocomplete_aligns_every_column() {
    let mut tree = ColumnTree::new(&wide_schema(), 8, 2, 8, 8);
    assert_eq!(tree.append_binary(2, &[1u8, 2, 3]), Ok(()));
    assert_eq!(tree.autocomplete(), Ok(()));
    assert_eq!(tree.row_count(), (1, 1));
    for i in 0..4 {
        assert_eq!(tree.column_len(i), Some(1));
    }
    let nested = tree.nested_at(1).unwrap();
    assert_eq!(nested.column_len(0), Some(1));
    assert_eq!(nested.column_len(1), Some(1));
    assert_eq!(nested.row_count(), (1, 1));
}

#[test]
fn row_count_is_aligned_or_one_apart() {
    let mut tree = ColumnTree::new(&wide_schema(), 8, 2, 8, 8);
    assert_eq!(tree.row_count(), (0, 0));
    assert_eq!(tree.append_int32(0, 1), Ok(()));
    assert_eq!(tree.row_count(), (0, 1));
    assert_eq!(tree.append_binary(2, &[9u8]), Ok(()));
    assert_eq!(tree.row_count(), (0, 1));
    assert_eq!(tree.autocomplete(), Ok(()));
    assert_eq!(tree.row_count(), (1, 1));
    assert_eq!(tree.append_int32(0, 2), Ok(()));
    assert_eq!(tree.row_count(), (1, 2));
}

#[test]
fn row_count_of_table_without_columns() {
    let tree = ColumnTree::new(&SchemaDescriptor::new(), 8, 2, 8, 8);
    assert_eq!(tree.column_count(), 0);
    assert_eq!(tree.row_count(), (0, 0));
    assert!(tree.is_root());
}

#[test]
fn flush_of_empty_table_gives_empty_batch() {
    let mut tree = ColumnTree::new(&nested_schema(), 16, 4, 32, 32);
    let first = tree.flush().unwrap();
    assert_eq!(first.rows(), 0);
    let record = first.to_record_batch().unwrap().inner;
    assert_eq!(record.num_rows(), 0);
    assert_eq!(record.num_columns(), 2);
}

#[test]
fn flush_twice_gives_empty_second_batch() {
    let mut tree = ColumnTree::new(&nested_schema(), 16, 4, 32, 32);
    assert_eq!(tree.append_int32(0, 7), Ok(()));
    assert_eq!(tree.autocomplete(), Ok(()));
    let first = tree.flush().unwrap();
    assert_eq!(first.rows(), 1);
    let second = tree.flush().unwrap();
    assert_eq!(second.rows(), 0);
    assert_eq!(second.column_count(), 2);
    assert_eq!(second.to_record_batch().unwrap().inner.num_rows(), 0);
    assert_eq!(tree.row_count(), (0, 0));
}

#[test]
fn builders_are_reusable_after_flush() {
    let mut tree = ColumnTree::new(&nested_schema(), 16, 4, 32, 32);
    assert_eq!(tree.append_int32(0, 1), Ok(()));
    assert_eq!(tree.autocomplete(), Ok(()));
    let _ = tree.flush().unwrap();
    assert_eq!(tree.append_int32(0, 2), Ok(()));
    assert_eq!(tree.nested_at(1).unwrap().append_utf8(0, "x"), Ok(()));
    assert_eq!(tree.autocomplete(), Ok(()));
    let batch = tree.flush().unwrap();
    let record = batch.to_record_batch().unwrap().inner;
    let a = record.column(0).as_any().downcast_ref::<Int32Array>().unwrap();
    assert_eq!(a.len(), 1);
    assert_eq!(a.value(0), 2);
}

#[test]
fn flush_refuses_pending_row() {
    let mut tree = ColumnTree::new(&nested_schema(), 16, 4, 32, 32);
    assert_eq!(tree.append_int32(0, 5), Ok(()));
    assert!(matches!(tree.flush(), Err(TableError::FlushWithPendingRow)));
    assert_eq!(tree.column_len(0), Some(1));
    assert_eq!(tree.row_count(), (0, 1));
}

#[test]
fn flush_refuses_pending_row_in_nested_table() {
    let mut tree = ColumnTree::new(&nested_schema(), 16, 4, 32, 32);
    assert_eq!(tree.nested_at(1).unwrap().append_utf8(0, "x"), Ok(()));
    assert!(matches!(tree.flush(), Err(TableError::FlushWithPendingRow)));
    assert_eq!(tree.nested_at(1).unwrap().column_len(0), Some(1));
}

#[test]
fn autocomplete_without_pending_row_is_refused() {
    let mut tree = ColumnTree::new(&nested_schema(), 16, 4, 32, 32);
    assert_eq!(tree.autocomplete(), Err(TableError::NoIncompleteRow));
    assert_eq!(tree.append_int32(0, 5), Ok(()));
    assert_eq!(tree.autocomplete(), Ok(()));
    assert_eq!(tree.autocomplete(), Err(TableError::NoIncompleteRow));
    assert_eq!(tree.row_count(), (1, 1));
}

#[test]
fn autocomplete_refuses_null_in_non_nullable_column() {
    let schema = SchemaDescriptor::new()
        .with_column("a", LeafKind::Int32, true)
        .with_column("b", LeafKind::Utf8, true)
        .with_column("must", LeafKind::Int32, false);
    let mut tree = ColumnTree::new(&schema, 4, 1, 1, 1);
    assert_eq!(tree.append_int32(0, 5), Ok(()));
    assert_eq!(tree.autocomplete(), Err(TableError::NonNullableColumnIncomplete));
    assert_eq!(tree.column_len(0), Some(1));
    assert_eq!(tree.column_len(1), Some(0));
    assert_eq!(tree.column_len(2), Some(0));
    assert_eq!(tree.append_int32(2, 9), Ok(()));
    assert_eq!(tree.autocomplete(), Ok(()));
    assert_eq!(tree.row_count(), (1, 1));
}

#[test]
fn autocomplete_refuses_null_in_non_nullable_nested_column() {
    let inner = SchemaDescriptor::new()
        .with_column("c", LeafKind::Utf8, true)
        .with_column("must", LeafKind::Int32, false);
    let schema = SchemaDescriptor::new()
        .with_column("a", LeafKind::Int32, true)
        .with_table("b", inner, true);
    let mut tree = ColumnTree::new(&schema, 4, 1, 1, 1);
    assert_eq!(tree.nested_at(1).unwrap().append_utf8(0, "x"), Ok(()));
    assert_eq!(tree.autocomplete(), Err(TableError::NonNullableColumnIncomplete));
    assert_eq!(tree.column_len(0), Some(0));
    assert_eq!(tree.column_len(1), Some(0));
    assert_eq!(tree.nested_at(1).unwrap().column_len(0), Some(1));
    assert_eq!(tree.nested_at(1).unwrap().column_len(1), Some(0));
}

#[test]
fn autocomplete_fills_required_nested_table_with_present_row() {
    let inner = SchemaDescriptor::new().with_column("c", LeafKind::Utf8, true);
    let schema = SchemaDescriptor::new()
        .with_column("a", LeafKind::Int32, true)
        .with_table("b", inner, false);
    let mut tree = ColumnTree::new(&schema, 4, 1, 1, 1);
    assert_eq!(tree.append_int32(0, 5), Ok(()));
    assert_eq!(tree.autocomplete(), Ok(()));
    assert_eq!(tree.row_count(), (1, 1));
    let batch = tree.flush().unwrap();
    assert_eq!(batch.rows(), 1);
    let record = batch.to_record_batch().unwrap().inner;
    let a = record.column(0).as_any().downcast_ref::<Int32Array>().unwrap();
    assert_eq!(a.value(0), 5);
    let b = record.column(1).as_any().downcast_ref::<StructArray>().unwrap();
    assert_eq!(b.len(), 1);
    assert!(b.is_valid(0));
    let c = b.column(0).as_any().downcast_ref::<LargeStringArray>().unwrap();
    assert!(c.is_null(0));
}

#[test]
fn autocomplete_refuses_required_nested_table_with_required_column() {
    let inner = SchemaDescriptor::new()
        .with_column("c", LeafKind::Utf8, true)
        .with_column("must", LeafKind::Int32, false);
    let schema = SchemaDescriptor::new()
        .with_column("a", LeafKind::Int32, true)
        .with_table("b", inner, false);
    let mut tree = ColumnTree::new(&schema, 4, 1, 1, 1);
    assert_eq!(tree.append_int32(0, 5), Ok(()));
    assert_eq!(tree.autocomplete(), Err(TableError::NonNullableColumnIncomplete));
    assert_eq!(tree.column_len(0), Some(1));
    assert_eq!(tree.column_len(1), Some(0));
    assert_eq!(tree.nested_at(1).unwrap().row_count(), (0, 0));
    assert_eq!(tree.nested_at(1).unwrap().append_int32(1, 3), Ok(()));
    assert_eq!(tree.autocomplete(), Ok(()));
    assert_eq!(tree.row_count(), (1, 1));
}

#[test]
fn nullable_nested_table_with_required_column_gets_null_row() {
    let inner = SchemaDescriptor::new().with_column("must", LeafKind::Int32, false);
    let schema = SchemaDescriptor::new()
        .with_column("a", LeafKind::Int32, true)
        .with_table("b", inner, true);
    let mut tree = ColumnTree::new(&schema, 4, 1, 1, 1);
    assert_eq!(tree.append_int32(0, 5), Ok(()));
    assert_eq!(tree.autocomplete(), Ok(()));
    let record = tree.flush().unwrap().to_record_batch().unwrap().inner;
    let b = record.column(1).as_any().downcast_ref::<StructArray>().unwrap();
    assert!(b.is_null(0));
    assert_eq!(b.column(0).len(), 1);
}

#[test]
fn nested_value_advances_nested_table_and_struct_column() {
    let mut tree = ColumnTree::new(&wide_schema(), 8, 2, 8, 8);
    assert_eq!(tree.nested_at(1).unwrap().append_utf8(0, "hello"), Ok(()));
    assert_eq!(tree.row_count(), (0, 1));
    assert_eq!(tree.column_len(1), Some(0));
    assert_eq!(tree.autocomplete(), Ok(()));
    assert_eq!(tree.column_len(1), Some(1));
    assert_eq!(tree.nested_at(1).unwrap().row_count(), (1, 1));
    assert_eq!(tree.row_count(), (1, 1));

    let record = tree.flush().unwrap().to_record_batch().unwrap().inner;
    let a = record.column(0).as_any().downcast_ref::<Int32Array>().unwrap();
    assert!(a.is_null(0));
    let b = record.column(1).as_any().downcast_ref::<StructArray>().unwrap();
    assert!(b.is_valid(0));
    let c = b.column(0).as_any().downcast_ref::<LargeStringArray>().unwrap();
    assert_eq!(c.value(0), "hello");
    let d = b.column(1).as_any().downcast_ref::<Int32Array>().unwrap();
    assert!(d.is_null(0));
}

#[test]
fn untouched_nested_table_gets_null_struct_row() {
    let mut tree = ColumnTree::new(&wide_schema(), 8, 2, 8, 8);
    assert_eq!(tree.append_int32(0, 3), Ok(()));
    assert_eq!(tree.autocomplete(), Ok(()));
    let record = tree.flush().unwrap().to_record_batch().unwrap().inner;
    let b = record.column(1).as_any().downcast_ref::<StructArray>().unwrap();
    assert_eq!(b.len(), 1);
    assert!(b.is_null(0));
    assert_eq!(b.column(0).len(), 1);
    assert_eq!(b.column(1).len(), 1);
}

#[test]
fn wrong_kind_or_index_is_schema_mismatch() {
    let mut tree = ColumnTree::new(&wide_schema(), 8, 2, 8, 8);
    assert_eq!(tree.append_int32(1, 5), Err(TableError::SchemaMismatch));
    assert_eq!(tree.append_int32(2, 5), Err(TableError::SchemaMismatch));
    assert_eq!(tree.append_int32(4, 5), Err(TableError::SchemaMismatch));
    assert_eq!(tree.append_utf8(0, "x"), Err(TableError::SchemaMismatch));
    assert_eq!(tree.append_binary(0, &[1u8]), Err(TableError::SchemaMismatch));
    assert_eq!(tree.push_list_item(0, 1), Err(TableError::SchemaMismatch));
    assert_eq!(tree.close_list(2), Err(TableError::SchemaMismatch));
    assert!(tree.nested_at(0).is_none());
    assert!(tree.nested_at(9).is_none());
    assert!(tree.nested_at(1).is_some());
    assert_eq!(tree.column_len(4), None);
    assert_eq!(tree.row_count(), (0, 0));
}

#[test]
fn values_come_out_as_they_went_in() {
    let mut tree = ColumnTree::new(&wide_schema(), 8, 2, 8, 8);
    assert_eq!(tree.append_int32(0, -7), Ok(()));
    {
        let nested = tree.nested_at(1).unwrap();
        assert_eq!(nested.append_utf8(0, "first"), Ok(()));
        assert_eq!(nested.append_int32(1, 11), Ok(()));
    }
    assert_eq!(tree.append_binary(2, &[0u8, 255, 7]), Ok(()));
    assert_eq!(tree.push_list_item(3, 1), Ok(()));
    assert_eq!(tree.push_list_item(3, 2), Ok(()));
    assert_eq!(tree.close_list(3), Ok(()));
    assert_eq!(tree.column_len(3), Some(1));
    assert_eq!(tree.autocomplete(), Ok(()));

    assert_eq!(tree.append_null_at(0), Ok(()));
    assert_eq!(tree.append_null_at(1), Ok(()));
    assert_eq!(tree.append_null_at(2), Ok(()));
    assert_eq!(tree.append_null_at(3), Ok(()));
    assert_eq!(tree.row_count(), (2, 2));

    let batch = tree.flush().unwrap();
    assert_eq!(batch.rows(), 2);
    assert_eq!(batch.column_count(), 4);
    let record = batch.to_record_batch().unwrap().inner;
    assert_eq!(record.num_rows(), 2);

    let a = record.column(0).as_any().downcast_ref::<Int32Array>().unwrap();
    assert_eq!(a.value(0), -7);
    assert!(a.is_null(1));
    let b = record.column(1).as_any().downcast_ref::<StructArray>().unwrap();
    assert!(b.is_valid(0));
    assert!(b.is_null(1));
    let c = b.column(0).as_any().downcast_ref::<LargeStringArray>().unwrap();
    assert_eq!(c.value(0), "first");
    assert!(c.is_null(1));
    let d = b.column(1).as_any().downcast_ref::<Int32Array>().unwrap();
    assert_eq!(d.value(0), 11);
    assert!(d.is_null(1));
    let blob = record.column(2).as_any().downcast_ref::<LargeBinaryArray>().unwrap();
    assert_eq!(blob.value(0), &[0u8, 255, 7]);
    assert!(blob.is_null(1));
    let items = record.column(3).as_any().downcast_ref::<LargeListArray>().unwrap();
    assert!(items.is_valid(0));
    assert!(items.is_null(1));
    let first = items.value(0);
    let first = first.as_any().downcast_ref::<Int32Array>().unwrap();
    assert_eq!(first.len(), 2);
    assert_eq!(first.value(0), 1);
    assert_eq!(first.value(1), 2);
}

#[test]
fn exported_schema_keeps_order_nullability_and_shape() {
    let inner = SchemaDescriptor::new().with_column("c", LeafKind::Utf8, false);
    let schema = SchemaDescriptor::new()
        .with_column("a", LeafKind::Int32, false)
        .with_table("b", inner, true)
        .with_column("blob", LeafKind::Binary, true)
        .with_column("items", LeafKind::List, true);
    let mut tree = ColumnTree::new(&schema, 8, 2, 8, 8);
    let record = tree.flush().unwrap().to_record_batch().unwrap().inner;
    let exported = record.schema();
    assert_eq!(exported.fields().len(), 4);
    assert_eq!(exported.field(0).name(), "a");
    assert_eq!(exported.field(0).data_type(), &DataType::Int32);
    assert!(!exported.field(0).is_nullable());
    assert_eq!(exported.field(1).name(), "b");
    assert!(exported.field(1).is_nullable());
    match exported.field(1).data_type() {
        DataType::Struct(fields) => {
            assert_eq!(fields.len(), 1);
            assert_eq!(fields[0].name(), "c");
            assert_eq!(fields[0].data_type(), &DataType::LargeUtf8);
            assert!(!fields[0].is_nullable());
        }
        other => panic!("unexpected type {other}"),
    }
    assert_eq!(exported.field(2).name(), "blob");
    assert_eq!(exported.field(2).data_type(), &DataType::LargeBinary);
    assert_eq!(exported.field(3).name(), "items");
    assert!(matches!(exported.field(3).data_type(), DataType::LargeList(_)));
}

#[test]
fn open_list_becomes_the_row_on_autocomplete() {
    let schema = SchemaDescriptor::new()
        .with_column("a", LeafKind::Int32, true)
        .with_column("items", LeafKind::List, false);
    let mut tree = ColumnTree::new(&schema, 8, 2, 8, 8);
    assert_eq!(tree.append_int32(0, 1), Ok(()));
    assert_eq!(tree.push_list_item(1, 10), Ok(()));
    assert_eq!(tree.push_list_item(1, 20), Ok(()));
    assert_eq!(tree.push_list_item(1, 30), Ok(()));
    assert_eq!(tree.column_len(1), Some(0));
    assert_eq!(tree.autocomplete(), Ok(()));
    assert_eq!(tree.column_len(1), Some(1));

    assert_eq!(tree.append_int32(0, 2), Ok(()));
    assert_eq!(tree.autocomplete(), Err(TableError::NonNullableColumnIncomplete));
    assert_eq!(tree.close_list(1), Ok(()));

    let record = tree.flush().unwrap().to_record_batch().unwrap().inner;
    let items = record.column(1).as_any().downcast_ref::<LargeListArray>().unwrap();
    assert_eq!(items.len(), 2);
    let first = items.value(0);
    let first = first.as_any().downcast_ref::<Int32Array>().unwrap();
    assert_eq!(first.len(), 3);
    assert_eq!(first.value(0), 10);
    assert_eq!(first.value(2), 30);
    assert!(items.is_valid(1));
    assert_eq!(items.value(1).len(), 0);
}

#[test]
fn null_is_refused_in_non_nullable_column() {
    let schema = SchemaDescriptor::new()
        .with_column("a", LeafKind::Int32, false)
        .with_column("b", LeafKind::Int32, true);
    let mut tree = ColumnTree::new(&schema, 8, 2, 8, 8);
    assert_eq!(tree.append_null_at(0), Err(TableError::SchemaMismatch));
    assert_eq!(tree.append_null_at(2), Err(TableError::SchemaMismatch));
    assert_eq!(tree.append_null_at(1), Ok(()));
    assert_eq!(tree.column_len(0), Some(0));
    assert_eq!(tree.column_len(1), Some(1));
}

#[test]
fn append_null_on_nested_table_fills_every_column() {
    let mut tree = ColumnTree::new(&wide_schema(), 8, 2, 8, 8);
    {
        let nested = tree.nested_at(1).unwrap();
        assert!(!nested.is_root());
        nested.append_null();
        assert_eq!(nested.row_count(), (1, 1));
    }
    assert_eq!(tree.column_len(1), Some(1));
    assert_eq!(tree.row_count(), (0, 1));
    assert_eq!(tree.autocomplete(), Ok(()));
    let record = tree.flush().unwrap().to_record_batch().unwrap().inner;
    let b = record.column(1).as_any().downcast_ref::<StructArray>().unwrap();
    assert!(b.is_null(0));
}

#[test]
fn arrow_refuses_null_in_non_nullable_struct_column() {
    let inner = SchemaDescriptor::new().with_column("x", LeafKind::Int32, false);
    let schema = SchemaDescriptor::new().with_table("s", inner, false);
    let mut tree = ColumnTree::new(&schema, 8, 2, 8, 8);
    tree.nested_at(0).unwrap().append_null();
    let batch = tree.flush().unwrap();
    assert_eq!(batch.rows(), 1);
    assert!(matches!(batch.to_record_batch(), Err(TableError::InvalidBatch)));
}

#[test]
fn capacity_hints_do_not_cap_rows() {
    let schema = SchemaDescriptor::new().with_column("a", LeafKind::Int32, true);
    let mut tree = ColumnTree::new(&schema, 1, 0, 0, 0);
    for i in 0..100 {
        assert_eq!(tree.append_int32(0, i), Ok(()));
    }
    assert_eq!(tree.row_count(), (100, 100));
    let huge = ColumnTree::new(&wide_schema(), usize::MAX, usize::MAX, usize::MAX, usize::MAX);
    assert_eq!(huge.row_count(), (0, 0));
}

#[test]
fn empty_batch_carries_the_schema() {
    let record = empty_batch(&wide_schema()).inner;
    assert_eq!(record.num_rows(), 0);
    assert_eq!(record.num_columns(), 4);
    let exported = record.schema();
    assert_eq!(exported.field(0).name(), "a");
    assert_eq!(exported.field(0).data_type(), &DataType::Int32);
    assert_eq!(exported.field(1).name(), "b");
    match exported.field(1).data_type() {
        DataType::Struct(fields) => {
            assert_eq!(fields.len(), 2);
            assert_eq!(fields[0].name(), "c");
            assert_eq!(fields[1].name(), "d");
            assert_eq!(fields[1].data_type(), &DataType::Int32);
        }
        other => panic!("unexpected type {other}"),
    }
    assert_eq!(exported.field(2).data_type(), &DataType::LargeBinary);
    assert_eq!(empty_batch(&SchemaDescriptor::new()).inner.num_columns(), 0);
}
