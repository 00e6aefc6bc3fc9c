//! The table of fields that every event shares, and its builder.

use crate::batch::RowBatch;
use crate::error::TableError;
use crate::laws::{
    lemma_filled_schema, lemma_filled_wf, lemma_flushed, lemma_fresh_tree,
    lemma_null_filled_schema, lemma_null_filled_wf,
};
use crate::arrays::Cell;
use crate::model::{column_kind, TreeView};
use crate::schema::{DefView, KindView, LeafKind, SchemaDescriptor};
use crate::traits::{ArrowTable, TableBuilder};
use crate::tree::ColumnTree;
use vstd::prelude::*;

verus! {

/// The fields that every event shares.
pub struct Common {
    /// The identifier of the boot during which the event was recorded.
    pub boot_uuid: String,
}

/// The index of the column `boot_uuid` in the table of [`Common`].
pub const COMMON_BOOT_UUID: usize = 0;

impl ArrowTable for Common {
    open spec fn schema_spec() -> Seq<DefView> {
        seq![DefView { name: "boot_uuid"@, kind: KindView::Leaf(LeafKind::Utf8), nullable: false }]
    }

    fn table_schema() -> (s: SchemaDescriptor) {
        let s = SchemaDescriptor::new().with_column("boot_uuid", LeafKind::Utf8, false);
        assert(s@ =~= Self::schema_spec());
        s
    }

    fn builders(cap: usize, list_items: usize, string_len: usize, binary_len: usize) -> (t: ColumnTree) {
        let schema = Self::table_schema();
        ColumnTree::new(&schema, cap, list_items, string_len, binary_len)
    }
}

/// The builder of row batches of [`Common`].
pub struct CommonBuilder {
    tree: ColumnTree,
}

impl TableBuilder for CommonBuilder {
    closed spec fn tree(&self) -> TreeView {
        self.tree@
    }

    closed spec fn inv(&self) -> bool {
        &&& self.tree@.wf()
        &&& self.tree@.marks is None
        &&& self.tree@.schema() == Common::schema_spec()
    }

    proof fn lemma_inv(&self) {
    }

    fn new(cap: usize, list_items: usize, string_len: usize, binary_len: usize) -> (r: Self) {
        let tree = Common::builders(cap, list_items, string_len, binary_len);
        proof {
            lemma_fresh_tree(Common::schema_spec(), false);
        }
        CommonBuilder { tree }
    }

    fn flush(&mut self) -> (r: Result<RowBatch, TableError>) {
        proof {
            lemma_flushed(self.tree@);
        }
        self.tree.flush()
    }

    fn column_len(&self, index: usize) -> (r: Option<usize>) {
        self.tree.column_len(index)
    }

    fn append_null(&mut self) {
        proof {
            lemma_null_filled_wf(self.tree@);
            lemma_null_filled_schema(self.tree@);
        }
        self.tree.append_null();
    }

    fn is_root(&self) -> (r: bool) {
        self.tree.is_root()
    }

    fn autocomplete_row(&mut self, n: usize) -> (r: Result<(), TableError>) {
        proof {
            lemma_filled_wf(self.tree@, n as nat);
            lemma_filled_schema(self.tree@, n as nat);
        }
        self.tree.autocomplete_row(n)
    }

    fn column_count(&self) -> (n: usize) {
        self.tree.column_count()
    }

    fn row_count(&self) -> (r: (usize, usize)) {
        self.tree.row_count()
    }

    fn debug_row_counts(&self) -> (r: Vec<(String, usize, usize)>) {
        self.tree.debug_row_counts()
    }
}

impl CommonBuilder {
    /// Appends `v` to the column `boot_uuid`.
    pub fn append_boot_uuid(&mut self, v: &str)
        requires
            old(self).inv(),
        ensures
            final(self).inv(),
            old(self).tree().has_leaf(0, LeafKind::Utf8),
            final(self).tree() == old(self).tree().appended(0, Cell::Utf8(v@)),
    {
        let ghost t = self.tree@;
        assert(t.schema().len() == 1 && t.slots.len() == 1);
        assert(t.schema()[0] == Common::schema_spec()[0]);
        assert(column_kind(t.slots[0].column) == KindView::Leaf(LeafKind::Utf8));
        assert(t.slots[0].column is Leaf);
        assert(t.has_leaf(0, LeafKind::Utf8));
        let r = self.tree.append_utf8(COMMON_BOOT_UUID, v);
        assert(r is Ok);
    }

    /// Appends one row: the fields of `row`, each to its column.
    pub fn append(&mut self, row: &Common)
        requires
            old(self).inv(),
        ensures
            final(self).inv(),
            final(self).tree() == old(self).tree().appended(0, Cell::Utf8(row.boot_uuid@)),
    {
        self.append_boot_uuid(row.boot_uuid.as_str());
    }
}

} // verus!
