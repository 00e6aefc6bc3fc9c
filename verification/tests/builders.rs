use arrow::array::Array;
use arrow::array::LargeStringArray;
use table_builder::autocomplete_row;
use table_builder::debug_assert_row_counts;
use table_builder::debug_dump_column_row_counts;
use table_builder::text::count_line_string;
use table_builder::text::decimal_string;
use table_builder::text::join_lines;
use table_builder::tree::reservation;
use table_builder::tree::DEFAULT_RESERVE;
use table_builder::ArrowTable;
use table_builder::ColumnKind;
use table_builder::ColumnTree;
use table_builder::Common;
use table_builder::CommonBuilder;
use table_builder::LeafKind;
use table_builder::RowState;
use table_builder::SchemaDescriptor;
use table_builder::TableBuilder;
use table_builder::TableError;

#[test]
fn common_schema_has_one_required_string_column() {
    let schema = Common::table_schema();
    assert_eq!(schema.column_count(), 1);
    assert_eq!(schema.columns[0].name, "boot_uuid");
    assert!(!schema.columns[0].nullable);
    assert!(matches!(schema.columns[0].kind, ColumnKind::Leaf(LeafKind::Utf8)));
    let tree = Common::builders(8, 0, 36, 0);
    assert_eq!(tree.column_count(), 1);
    assert!(tree.schema().is_compatible(&schema));
}

#[test]
fn common_builder_collects_rows() {
    let mut builder = CommonBuilder::new(8, 0, 36, 0);
    assert!(builder.is_root());
    assert_eq!(builder.column_count(), 1);
    assert_eq!(builder.row_count(), (0, 0));
    builder.append_boot_uuid("first");
    builder.append(&Common { boot_uuid: String::from("second") });
    assert_eq!(builder.row_count(), (2, 2));
    assert_eq!(builder.column_len(0), Some(2));
    assert_eq!(builder.column_len(1), None);
    let batch = builder.flush().unwrap();
    assert_eq!(batch.rows(), 2);
    let record = batch.to_record_batch().unwrap().inner;
    assert_eq!(record.schema().field(0).name(), "boot_uuid");
    assert!(!record.schema().field(0).is_nullable());
    let ids = record.column(0).as_any().downcast_ref::<LargeStringArray>().unwrap();
    assert_eq!(ids.len(), 2);
    assert_eq!(ids.value(0), "first");
    assert_eq!(ids.value(1), "second");
    assert_eq!(builder.row_count(), (0, 0));
    assert_eq!(builder.flush().unwrap().rows(), 0);
}

#[test]
fn autocomplete_row_on_aligned_builder_is_refused() {
    let mut builder = CommonBuilder::new(8, 0, 36, 0);
    assert_eq!(autocomplete_row(&mut builder), Err(TableError::NoIncompleteRow));
    builder.append_boot_uuid("id");
    assert_eq!(autocomplete_row(&mut builder), Err(TableError::NoIncompleteRow));
    assert_eq!(builder.row_count(), (1, 1));
    assert!(debug_assert_row_counts(&mut builder));
}

#[test]
fn trait_autocomplete_row_fills_nothing_on_complete_rows() {
    let mut builder = CommonBuilder::new(8, 0, 36, 0);
    builder.append_boot_uuid("id");
    assert_eq!(builder.autocomplete_row(1), Ok(()));
    assert_eq!(builder.row_count(), (1, 1));
    assert_eq!(builder.autocomplete_row(2), Err(TableError::NonNullableColumnIncomplete));
    assert_eq!(builder.row_count(), (1, 1));
}

#[test]
fn debug_dump_lists_each_column() {
    let mut builder = CommonBuilder::new(8, 0, 36, 0);
    assert_eq!(debug_dump_column_row_counts(&mut builder), "boot_uuid: 0 / 0");
    builder.append_boot_uuid("id");
    assert_eq!(debug_dump_column_row_counts(&mut builder), "boot_uuid: 1 / 1");
    let counts = builder.debug_row_counts();
    assert_eq!(counts, vec![(String::from("boot_uuid"), 1, 1)]);
}

#[test]
fn debug_row_counts_show_the_lagging_column() {
    let inner = SchemaDescriptor::new()
        .with_column("c", LeafKind::Utf8, true)
        .with_column("d", LeafKind::Int32, true);
    let schema = SchemaDescriptor::new()
        .with_column("a", LeafKind::Int32, true)
        .with_table("b", inner, true)
        .with_column("e", LeafKind::Binary, true);
    let mut tree = ColumnTree::new(&schema, 8, 2, 8, 8);
    for i in 0..12 {
        assert_eq!(tree.append_int32(0, i), Ok(()));
        assert_eq!(tree.autocomplete(), Ok(()));
    }
    assert_eq!(tree.append_int32(0, 99), Ok(()));
    assert_eq!(tree.nested_at(1).unwrap().append_int32(1, 5), Ok(()));
    let counts = tree.debug_row_counts();
    assert_eq!(
        counts,
        vec![
            (String::from("a"), 13, 13),
            (String::from("b"), 12, 13),
            (String::from("e"), 12, 12),
        ]
    );
    assert_eq!(tree.row_state(), RowState::OneRowPending);
}

#[test]
fn row_state_follows_the_columns() {
    let schema = SchemaDescriptor::new()
        .with_column("a", LeafKind::Int32, true)
        .with_column("b", LeafKind::Int32, true);
    let mut tree = ColumnTree::new(&schema, 8, 2, 8, 8);
    assert_eq!(tree.row_state(), RowState::Aligned);
    assert_eq!(tree.append_int32(0, 1), Ok(()));
    assert_eq!(tree.row_state(), RowState::OneRowPending);
    assert_eq!(tree.append_int32(0, 2), Ok(()));
    assert_eq!(tree.row_state(), RowState::Diverged);
    assert_eq!(tree.append_int32(1, 1), Ok(()));
    assert_eq!(tree.row_state(), RowState::OneRowPending);
    assert_eq!(tree.append_int32(1, 2), Ok(()));
    assert_eq!(tree.row_state(), RowState::Aligned);
}

#[test]
fn leaf_kind_is_reported_per_column() {
    let inner = SchemaDescriptor::new().with_column("c", LeafKind::Utf8, true);
    let schema = SchemaDescriptor::new()
        .with_column("a", LeafKind::Int32, true)
        .with_table("b", inner, true)
        .with_column("e", LeafKind::Binary, true)
        .with_column("f", LeafKind::List, true);
    let tree = ColumnTree::new(&schema, 8, 2, 8, 8);
    assert_eq!(tree.leaf_kind_at(0), Some(LeafKind::Int32));
    assert_eq!(tree.leaf_kind_at(1), None);
    assert_eq!(tree.leaf_kind_at(2), Some(LeafKind::Binary));
    assert_eq!(tree.leaf_kind_at(3), Some(LeafKind::List));
    assert_eq!(tree.leaf_kind_at(4), None);
}

#[test]
fn schema_of_tree_is_the_schema_it_was_built_for() {
    let inner = SchemaDescriptor::new().with_column("c", LeafKind::Utf8, false);
    let schema = SchemaDescriptor::new()
        .with_column("a", LeafKind::Int32, true)
        .with_table("b", inner, true);
    let mut tree = ColumnTree::new(&schema, 8, 2, 8, 8);
    assert!(tree.schema().is_compatible(&schema));
    assert_eq!(tree.append_int32(0, 1), Ok(()));
    assert!(tree.schema().is_compatible(&schema));
    assert_eq!(tree.schema().columns[1].name, "b");
}

#[test]
fn compatible_schemas_match_in_every_part() {
    let make = |name: &str, kind: LeafKind, nullable: bool, inner_nullable: bool| {
        let inner = SchemaDescriptor::new().with_column("c", LeafKind::Utf8, inner_nullable);
        SchemaDescriptor::new()
            .with_column(name, kind, nullable)
            .with_table("b", inner, true)
    };
    let base = make("a", LeafKind::Int32, true, true);
    assert!(base.is_compatible(&make("a", LeafKind::Int32, true, true)));
    assert!(!base.is_compatible(&make("x", LeafKind::Int32, true, true)));
    assert!(!base.is_compatible(&make("a", LeafKind::Binary, true, true)));
    assert!(!base.is_compatible(&make("a", LeafKind::Int32, false, true)));
    assert!(!base.is_compatible(&make("a", LeafKind::Int32, true, false)));
    assert!(!base.is_compatible(&SchemaDescriptor::new()));
    assert!(SchemaDescriptor::new().is_compatible(&SchemaDescriptor::new()));
    let flat = SchemaDescriptor::new()
        .with_column("a", LeafKind::Int32, true)
        .with_column("b", LeafKind::Int32, true);
    assert!(!base.is_compatible(&flat));
    assert!(!flat.is_compatible(&base));
}

#[test]
fn reservation_is_the_product_or_the_default() {
    assert_eq!(DEFAULT_RESERVE, 1024);
    assert_eq!(reservation(100, 1), 100);
    assert_eq!(reservation(100, 36), 3600);
    assert_eq!(reservation(0, 36), 0);
    assert_eq!(reservation(16, 0), 0);
    assert_eq!(reservation(0x0100_0000, 1), 0x0100_0000);
    assert_eq!(reservation(0x0100_0000, 2), 1024);
    assert_eq!(reservation(0x0100_0001, 1), 1024);
    assert_eq!(reservation(usize::MAX, 2), 1024);
    assert_eq!(reservation(usize::MAX, usize::MAX), 1024);
}

#[test]
fn decimal_text_of_numbers() {
    assert_eq!(decimal_string(0), "0");
    assert_eq!(decimal_string(7), "7");
    assert_eq!(decimal_string(10), "10");
    assert_eq!(decimal_string(1234567890), "1234567890");
    assert_eq!(decimal_string(usize::MAX), usize::MAX.to_string());
    assert_eq!(count_line_string("col", 3, 14), "col: 3 / 14");
}

#[test]
fn lines_are_joined_by_line_feeds() {
    assert_eq!(join_lines(&vec![]), "");
    assert_eq!(join_lines(&vec![String::from("a: 1 / 2")]), "a: 1 / 2");
    assert_eq!(
        join_lines(&vec![String::from("a: 1 / 2"), String::from("b: 0 / 0"), String::from("c: 3 / 3")]),
        "a: 1 / 2\nb: 0 / 0\nc: 3 / 3"
    );
}
