//! Row batches: the finished columns that a flush hands out.

use crate::error::TableError;
use crate::arrays::{
    all_cells, column_cells, column_share, column_type, described, record_batch, record_columns,
    record_rows, record_schema, struct_column, ArrowBatch, ColumnData,
};
use crate::model::{column_exportable, column_kind, column_rows, ColumnView, LeafView, SlotView, TreeView};
use crate::schema::{KindView, LeafKind};
use vstd::prelude::*;

verus! {

/// A finished leaf column together with its kind. The array is always of
/// the Arrow type that stands for the kind.
struct TypedColumn {
    kind: LeafKind,
    data: ColumnData,
}

impl TypedColumn {
    #[verifier::type_invariant]
    spec fn well_typed(self) -> bool {
        column_type(self.data) == KindView::Leaf(self.kind)
    }
}

enum BatchColumn {
    Leaf(TypedColumn),
    Nested(RowBatch),
}

struct BatchSlot {
    name: String,
    nullable: bool,
    column: BatchColumn,
}

/// An immutable snapshot of the rows of a table: one finished column per
/// column of the schema, in schema order. A nested column is a batch of
/// its own, with one mark per row of the struct column.
pub struct RowBatch {
    rows: usize,
    marks: Option<Vec<bool>>,
    slots: Vec<BatchSlot>,
}

impl BatchColumn {
    closed spec fn view(&self) -> ColumnView
        decreases self,
    {
        match self {
            BatchColumn::Leaf(c) => ColumnView::Leaf(
                LeafView { kind: c.kind, cells: column_cells(c.data), open: Seq::empty() },
            ),
            BatchColumn::Nested(b) => ColumnView::Nested(b.view()),
        }
    }
}

impl BatchSlot {
    closed spec fn view(&self) -> SlotView
        decreases self,
    {
        SlotView { name: self.name@, nullable: self.nullable, column: self.column.view() }
    }
}

impl RowBatch {
    /// The table that the batch holds.
    pub closed spec fn view(&self) -> TreeView
        decreases self,
    {
        TreeView {
            marks: match self.marks {
                Some(m) => Some(m@),
                None => None,
            },
            slots: Seq::new(
                self.slots@.len(),
                |i: int|
                    if 0 <= i < self.slots@.len() {
                        self.slots@[i].view()
                    } else {
                        arbitrary()
                    },
            ),
        }
    }

    /// The number of rows that the batch was made with.
    pub closed spec fn row_total(&self) -> nat {
        self.rows as nat
    }

    /// A batch of `rows` rows that has no column yet.
    pub(crate) fn with_marks(rows: usize, marks: Option<Vec<bool>>) -> (r: RowBatch)
        ensures
            r@.slots == Seq::<SlotView>::empty(),
            r@.marks == match marks {
                Some(m) => Some(m@),
                None => None,
            },
            r.row_total() == rows,
    {
        let r = RowBatch { rows, marks, slots: Vec::new() };
        assert(r@.slots =~= Seq::<SlotView>::empty());
        r
    }

    /// Adds a finished leaf column at the end.
    pub(crate) fn push_leaf(&mut self, name: String, nullable: bool, kind: LeafKind, data: ColumnData)
        requires
            column_type(data) == KindView::Leaf(kind),
        ensures
            final(self)@.marks == old(self)@.marks,
            final(self).row_total() == old(self).row_total(),
            final(self)@.slots == old(self)@.slots.push(
                SlotView {
                    name: name@,
                    nullable,
                    column: ColumnView::Leaf(LeafView { kind, cells: column_cells(data), open: Seq::empty() }),
                },
            ),
    {
        self.slots.push(BatchSlot { name, nullable, column: BatchColumn::Leaf(TypedColumn { kind, data }) });
        assert(self@.slots =~= old(self)@.slots.push(
            SlotView {
                name: name@,
                nullable,
                column: ColumnView::Leaf(LeafView { kind, cells: column_cells(data), open: Seq::empty() }),
            },
        ));
    }

    /// Adds a nested batch at the end.
    pub(crate) fn push_nested(&mut self, name: String, nullable: bool, batch: RowBatch)
        ensures
            final(self)@.marks == old(self)@.marks,
            final(self).row_total() == old(self).row_total(),
            final(self)@.slots == old(self)@.slots.push(
                SlotView { name: name@, nullable, column: ColumnView::Nested(batch@) },
            ),
    {
        let ghost nested = batch@;
        self.slots.push(BatchSlot { name, nullable, column: BatchColumn::Nested(batch) });
        assert(self@.slots =~= old(self)@.slots.push(
            SlotView { name: name@, nullable, column: ColumnView::Nested(nested) },
        ));
    }

    /// The number of rows of the batch.
    pub fn rows(&self) -> (n: usize)
        ensures
            n == self.row_total(),
    {
        self.rows
    }

    /// The number of columns of the batch, not counting the columns of
    /// nested batches.
    pub fn column_count(&self) -> (n: usize)
        ensures
            n == self@.slots.len(),
    {
        self.slots.len()
    }
    /// The columns of this batch as Arrow arrays, each nested batch as one
    /// struct array; `None` where Arrow refuses one of them.
    fn arrays(&self) -> (r: Option<(Vec<String>, Vec<bool>, Vec<ColumnData>)>)
        ensures
            r is Some <==> self@.exportable_below(),
            r is Some ==> ({
                let (names, nullable, columns) = r->0;
                &&& names@.len() == columns@.len()
                &&& nullable@.len() == columns@.len()
                &&& nullable@ == self@.nullables()
                &&& all_cells(columns@) == self@.cells()
                &&& described(names@, nullable@, columns@) == self@.schema()
            }),
        decreases self@,
    {
        let n: usize = self.slots.len();
        let mut names: Vec<String> = Vec::new();
        let mut nullable: Vec<bool> = Vec::new();
        let mut columns: Vec<ColumnData> = Vec::new();
        let mut i: usize = 0;
        while i < n
            invariant
                0 <= i <= n,
                n == self.slots@.len(),
                names@.len() == i,
                nullable@.len() == i,
                columns@.len() == i,
                forall|j: int| 0 <= j < i ==> column_exportable((#[trigger] self@.slots[j]).column),
                forall|j: int| 0 <= j < i ==> #[trigger] nullable@[j] == self@.slots[j].nullable,
                forall|j: int| 0 <= j < i ==> column_cells(#[trigger] columns@[j]) == column_rows(self@.slots[j].column),
                forall|j: int| 0 <= j < i ==> column_type(#[trigger] columns@[j]) == column_kind(self@.slots[j].column),
                forall|j: int| 0 <= j < i ==> (#[trigger] names@[j])@ == self@.slots[j].name,
            decreases n - i,
        {
            assert(self@.slots[i as int] == self.slots@[i as int]@);
            let slot = &self.slots[i];
            let column: ColumnData = match &slot.column {
                BatchColumn::Leaf(c) => {
                    proof {
                        use_type_invariant(c);
                    }
                    column_share(&c.data)
                },
                BatchColumn::Nested(b) => {
                    assert(self@.slots[i as int].column->Nested_0 == b@);
                    let marks: &Vec<bool> = match &b.marks {
                        Some(m) => m,
                        None => {
                            return None;
                        },
                    };
                    let (inner_names, inner_nullable, inner) = match b.arrays() {
                        Some(found) => found,
                        None => {
                            return None;
                        },
                    };
                    match struct_column(&inner_names, &inner_nullable, &inner, marks) {
                        Ok(made) => made,
                        Err(_) => {
                            return None;
                        },
                    }
                },
            };
            names.push(slot.name.clone());
            nullable.push(slot.nullable);
            columns.push(column);
            i += 1;
        }
        assert(nullable@ =~= self@.nullables());
        assert(all_cells(columns@) =~= self@.cells());
        assert(described(names@, nullable@, columns@) =~= self@.schema());
        Some((names, nullable, columns))
    }

    /// This batch as an Arrow record batch, for a writer of columnar
    /// files: the columns in schema order under their names and with their
    /// nullability, each nested batch as a struct column.
    ///
    /// Arrow refuses a batch in which a column that does not admit nulls
    /// holds one, or in which the columns differ in length.
    pub fn to_record_batch(&self) -> (r: Result<ArrowBatch, TableError>)
        ensures
            r is Ok <==> self@.exportable(self.row_total()),
            r is Ok ==> record_columns(r->Ok_0) == self@.cells() && record_rows(r->Ok_0) == self.row_total(),
            r is Ok ==> record_schema(r->Ok_0) == self@.schema(),
            r is Err ==> r->Err_0 == TableError::InvalidBatch,
    {
        let (names, nullable, columns) = match self.arrays() {
            Some(found) => found,
            None => {
                return Err(TableError::InvalidBatch);
            },
        };
        match record_batch(&names, &nullable, &columns, self.rows) {
            Ok(batch) => Ok(batch),
            Err(_) => Err(TableError::InvalidBatch),
        }
    }
}

} // verus!
