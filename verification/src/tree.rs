//! The column builder tree: one builder per column of a table, nested
//! tables included.

use crate::batch::RowBatch;
use crate::error::TableError;
use crate::laws::{
    lemma_appended_sound, lemma_empty_sound, lemma_filled_sound, lemma_flush_accepted, lemma_fresh_sound,
    lemma_column_null_filled, lemma_counts_bound, lemma_filled_aligned, lemma_filled_schema,
    lemma_filled_wf, lemma_flush_empty, lemma_flushed, lemma_fresh_exportable,
    lemma_fresh_snapshot, lemma_fresh_tree, lemma_null_filled_schema, lemma_null_filled_wf,
    lemma_snapshot_lengths, lemma_snapshot_schema, lemma_with_column_schema, lemma_with_column_wf,
};
use crate::arrays::{
    binary_append_null, binary_append_value, binary_cells, binary_finish, binary_len,
    binary_with_capacity, int32_append_null, int32_append_value, int32_cells, int32_finish,
    int32_len, int32_with_capacity, list_append_null, list_append_value, list_cells, list_finish,
    list_len, list_with_capacity, record_columns, record_rows, record_schema, utf8_append_null, utf8_append_value,
    utf8_cells, utf8_finish, utf8_len, utf8_with_capacity, ArrowBatch, BinaryColumn, Cell,
    Int32Column, ListColumn, RESERVE_LIMIT, Utf8Column,
};
use crate::model::{
    autocomplete_result, column_fillable, column_high, column_lengths, column_low,
    column_null_filled, fresh_column, fresh_tree, greatest, least, lemma_least_greatest_concat,
    mark_pushed, row_state_of, slots_lengths, ColumnView, LeafView, RowState, SlotView, TreeView,
};
use crate::schema::{ColumnDef, ColumnKind, LeafKind, SchemaDescriptor};
use vstd::prelude::*;

verus! {

/// The reservation that a builder gets where its hint cannot be used.
pub const DEFAULT_RESERVE: usize = 1024;

/// The reservation for `rows` rows of `per_row` units each: their product,
/// or the default where the product exceeds the limit.
pub open spec fn reservation_of(rows: usize, per_row: usize) -> usize {
    if rows * per_row <= RESERVE_LIMIT {
        (rows * per_row) as usize
    } else {
        DEFAULT_RESERVE
    }
}

/// Computes the reservation for `rows` rows of `per_row` units each.
pub fn reservation(rows: usize, per_row: usize) -> (r: usize)
    ensures
        r == reservation_of(rows, per_row),
        r <= RESERVE_LIMIT,
{
    match rows.checked_mul(per_row) {
        Some(p) => if p <= RESERVE_LIMIT {
            p
        } else {
            DEFAULT_RESERVE
        },
        None => DEFAULT_RESERVE,
    }
}

/// The empty Arrow record batch of the table that `schema` describes. It
/// carries the Arrow schema under which the batches of that table are
/// exported: the columns in order, with their names and nullability, and
/// each nested table as a struct column.
pub fn empty_batch(schema: &SchemaDescriptor) -> (r: ArrowBatch)
    ensures
        record_rows(r) == 0,
        record_columns(r) == fresh_tree(schema@, false).cells(),
        record_schema(r) == schema@,
{
    let mut tree = ColumnTree::new(schema, 0, 0, 0, 0);
    proof {
        lemma_fresh_tree(schema@, false);
        lemma_fresh_exportable(schema@, false);
        lemma_flush_empty(tree@);
        assert(tree@.snapshot() =~= tree@) by {
            lemma_fresh_snapshot(schema@, false);
        }
    }
    let batch = tree.flush().unwrap();
    batch.to_record_batch().unwrap()
}

enum Column {
    Int32(Int32Column),
    Utf8(Utf8Column),
    Binary(BinaryColumn),
    List { rows: ListColumn, open: Vec<i32> },
    Nested(ColumnTree),
}

struct Slot {
    name: String,
    nullable: bool,
    column: Column,
}

/// The builders of one table: one per column, in schema order. A nested
/// column is a tree of its own, with one mark per row of the struct column
/// that encloses it.
///
/// A tree is well-formed from its creation on, and every operation keeps
/// it so.
pub struct ColumnTree {
    marks: Option<Vec<bool>>,
    slots: Vec<Slot>,
}

impl Column {
    closed spec fn view(&self) -> ColumnView
        decreases self,
    {
        match self {
            Column::Int32(b) => ColumnView::Leaf(
                LeafView { kind: LeafKind::Int32, cells: int32_cells(*b), open: Seq::empty() },
            ),
            Column::Utf8(b) => ColumnView::Leaf(
                LeafView { kind: LeafKind::Utf8, cells: utf8_cells(*b), open: Seq::empty() },
            ),
            Column::Binary(b) => ColumnView::Leaf(
                LeafView { kind: LeafKind::Binary, cells: binary_cells(*b), open: Seq::empty() },
            ),
            Column::List { rows, open } => ColumnView::Leaf(
                LeafView { kind: LeafKind::List, cells: list_cells(*rows), open: open@ },
            ),
            Column::Nested(t) => ColumnView::Nested(t.view()),
        }
    }
}

impl Slot {
    closed spec fn view(&self) -> SlotView
        decreases self,
    {
        SlotView { name: self.name@, nullable: self.nullable, column: self.column.view() }
    }
}

impl ColumnTree {
    /// The table that the builders hold.
    pub closed spec fn view(&self) -> TreeView
        decreases self,
    {
        TreeView {
            marks: match self.marks {
                Some(m) => Some(m@),
                None => None,
            },
            slots: Seq::new(
                self.slots@.len(),
                |i: int|
                    if 0 <= i < self.slots@.len() {
                        self.slots@[i].view()
                    } else {
                        arbitrary()
                    },
            ),
        }
    }

    fn build(schema: &SchemaDescriptor, enclosed: bool, rows: usize, items: usize, text: usize, bytes: usize) -> (r:
        ColumnTree)
        requires
            rows <= RESERVE_LIMIT,
            items <= RESERVE_LIMIT,
            text <= RESERVE_LIMIT,
            bytes <= RESERVE_LIMIT,
        ensures
            r@ == fresh_tree(schema@, enclosed),
        decreases schema,
    {
        let n: usize = schema.columns.len();
        let mut slots: Vec<Slot> = Vec::new();
        let mut i: usize = 0;
        while i < n
            invariant
                0 <= i <= n,
                n == schema.columns@.len(),
                slots@.len() == i,
                rows <= RESERVE_LIMIT,
                items <= RESERVE_LIMIT,
                text <= RESERVE_LIMIT,
                bytes <= RESERVE_LIMIT,
                forall|j: int|
                    0 <= j < i ==> (#[trigger] slots@[j])@ == (SlotView {
                        name: schema@[j].name,
                        nullable: schema@[j].nullable,
                        column: fresh_column(schema@[j].kind),
                    }),
            decreases n - i,
        {
            let def = &schema.columns[i];
            assert(schema@[i as int] == def.view());
            let column = match &def.kind {
                ColumnKind::Leaf(LeafKind::Int32) => Column::Int32(int32_with_capacity(rows)),
                ColumnKind::Leaf(LeafKind::Utf8) => Column::Utf8(utf8_with_capacity(rows, text)),
                ColumnKind::Leaf(LeafKind::Binary) => Column::Binary(binary_with_capacity(rows, bytes)),
                ColumnKind::Leaf(LeafKind::List) => Column::List {
                    rows: list_with_capacity(rows, items),
                    open: Vec::new(),
                },
                ColumnKind::Nested(s) => Column::Nested(ColumnTree::build(s, true, rows, items, text, bytes)),
            };
            assert(column@ == fresh_column(def.kind@));
            slots.push(Slot { name: def.name.clone(), nullable: def.nullable, column });
            i += 1;
        }
        let marks: Option<Vec<bool>> = if enclosed {
            Some(Vec::new())
        } else {
            None
        };
        let r = ColumnTree { marks, slots };
        assert(r@.slots =~= fresh_tree(schema@, enclosed).slots);
        r
    }

    /// The builders for the table that `schema` describes, all of them
    /// empty.
    ///
    /// `cap` is the number of rows to reserve room for; `list_items`,
    /// `string_len` and `binary_len` are the expected number of list items,
    /// string bytes and binary bytes per row. The hints size the first
    /// allocation only. A hint that exceeds the reservation limit, alone
    /// or multiplied by `cap`, is replaced by the default.
    pub fn new(schema: &SchemaDescriptor, cap: usize, list_items: usize, string_len: usize, binary_len: usize) -> (r:
        ColumnTree)
        ensures
            r@ == fresh_tree(schema@, false),
            r@.wf(),
            r@.sound(),
            r@.schema() == schema@,
    {
        proof {
            lemma_fresh_tree(schema@, false);
            lemma_fresh_sound(schema@, false);
        }
        let rows = reservation(cap, 1);
        let items = reservation(cap, list_items);
        let text = reservation(cap, string_len);
        let bytes = reservation(cap, binary_len);
        ColumnTree::build(schema, false, rows, items, text, bytes)
    }

    /// Whether this is the root table: no struct column encloses it.
    pub fn is_root(&self) -> (r: bool)
        ensures
            r == (self@.marks is None),
    {
        self.marks.is_none()
    }

    /// The number of columns of this table, not counting the columns of
    /// nested tables.
    pub fn column_count(&self) -> (n: usize)
        ensures
            n == self@.slots.len(),
    {
        self.slots.len()
    }

    /// The length of column `index`: the number of its rows or, for a
    /// nested table, of its marks. `None` where there is no such column.
    pub fn column_len(&self, index: usize) -> (r: Option<usize>)
        requires
            self@.wf(),
        ensures
            r is Some <==> index < self@.slots.len(),
            r is Some ==> r->0 == column_lengths(self@.slots[index as int].column)[0],
    {
        if index >= self.slots.len() {
            return None;
        }
        assert(self@.slots[index as int] == self.slots@[index as int]@);
        let n: usize = match &self.slots[index].column {
            Column::Int32(b) => int32_len(b),
            Column::Utf8(b) => utf8_len(b),
            Column::Binary(b) => binary_len(b),
            Column::List { rows, open } => list_len(rows),
            Column::Nested(t) => match &t.marks {
                Some(m) => m.len(),
                None => 0,
            },
        };
        Some(n)
    }

    /// The kind of the leaf column `index`. `None` where there is no such
    /// column or it is a nested table.
    pub fn leaf_kind_at(&self, index: usize) -> (r: Option<LeafKind>)
        ensures
            match r {
                Some(k) => self@.has_leaf(index as int, k),
                None => forall|k: LeafKind| !self@.has_leaf(index as int, k),
            },
    {
        if index >= self.slots.len() {
            return None;
        }
        assert(self@.slots[index as int] == self.slots@[index as int]@);
        match &self.slots[index].column {
            Column::Int32(_) => Some(LeafKind::Int32),
            Column::Utf8(_) => Some(LeafKind::Utf8),
            Column::Binary(_) => Some(LeafKind::Binary),
            Column::List { .. } => Some(LeafKind::List),
            Column::Nested(_) => None,
        }
    }

    /// Appends `v` to the integer column `index`.
    pub fn append_int32(&mut self, index: usize, v: i32) -> (r: Result<(), TableError>)
        ensures
            r is Ok <==> old(self)@.has_leaf(index as int, LeafKind::Int32),
            r is Ok ==> final(self)@ == old(self)@.appended(index as int, Cell::Int32(v)),
            r is Err ==> r == Err::<(), TableError>(TableError::SchemaMismatch) && final(self)@ == old(self)@,
            old(self)@.wf() ==> final(self)@.wf(),
            old(self)@.sound() ==> final(self)@.sound(),
            final(self)@.schema() == old(self)@.schema(),
    {
        match self.leaf_kind_at(index) {
            Some(LeafKind::Int32) => {},
            _ => {
                return Err(TableError::SchemaMismatch);
            },
        }
        assert(self@.slots[index as int] == self.slots@[index as int]@);
        let slot = &mut self.slots[index];
        match &mut slot.column {
            Column::Int32(b) => {
                int32_append_value(b, v);
            },
            _ => {},
        }
        assert(self@.slots =~= old(self)@.appended(index as int, Cell::Int32(v)).slots);
        proof {
            old(self)@.lemma_leaf_replaced(index as int, self@.leaf(index as int));
            if old(self)@.sound() {
                lemma_appended_sound(old(self)@, index as int, Cell::Int32(v), 0);
            }
        }
        Ok(())
    }

    /// Appends the text `v` to the string column `index`.
    pub fn append_utf8(&mut self, index: usize, v: &str) -> (r: Result<(), TableError>)
        ensures
            r is Ok <==> old(self)@.has_leaf(index as int, LeafKind::Utf8),
            r is Ok ==> final(self)@ == old(self)@.appended(index as int, Cell::Utf8(v@)),
            r is Err ==> r == Err::<(), TableError>(TableError::SchemaMismatch) && final(self)@ == old(self)@,
            old(self)@.wf() ==> final(self)@.wf(),
            old(self)@.sound() ==> final(self)@.sound(),
            final(self)@.schema() == old(self)@.schema(),
    {
        match self.leaf_kind_at(index) {
            Some(LeafKind::Utf8) => {},
            _ => {
                return Err(TableError::SchemaMismatch);
            },
        }
        assert(self@.slots[index as int] == self.slots@[index as int]@);
        let slot = &mut self.slots[index];
        match &mut slot.column {
            Column::Utf8(b) => {
                utf8_append_value(b, v);
            },
            _ => {},
        }
        assert(self@.slots =~= old(self)@.appended(index as int, Cell::Utf8(v@)).slots);
        proof {
            old(self)@.lemma_leaf_replaced(index as int, self@.leaf(index as int));
            if old(self)@.sound() {
                lemma_appended_sound(old(self)@, index as int, Cell::Utf8(v@), 0);
            }
        }
        Ok(())
    }

    /// Appends the bytes `v` to the binary column `index`.
    pub fn append_binary(&mut self, index: usize, v: &[u8]) -> (r: Result<(), TableError>)
        ensures
            r is Ok <==> old(self)@.has_leaf(index as int, LeafKind::Binary),
            r is Ok ==> final(self)@ == old(self)@.appended(index as int, Cell::Binary(v@)),
            r is Err ==> r == Err::<(), TableError>(TableError::SchemaMismatch) && final(self)@ == old(self)@,
            old(self)@.wf() ==> final(self)@.wf(),
            old(self)@.sound() ==> final(self)@.sound(),
            final(self)@.schema() == old(self)@.schema(),
    {
        match self.leaf_kind_at(index) {
            Some(LeafKind::Binary) => {},
            _ => {
                return Err(TableError::SchemaMismatch);
            },
        }
        assert(self@.slots[index as int] == self.slots@[index as int]@);
        let slot = &mut self.slots[index];
        match &mut slot.column {
            Column::Binary(b) => {
                binary_append_value(b, v);
            },
            _ => {},
        }
        assert(self@.slots =~= old(self)@.appended(index as int, Cell::Binary(v@)).slots);
        proof {
            old(self)@.lemma_leaf_replaced(index as int, self@.leaf(index as int));
            if old(self)@.sound() {
                lemma_appended_sound(old(self)@, index as int, Cell::Binary(v@), 0);
            }
        }
        Ok(())
    }

    /// Adds `item` to the open list of the list column `index`. The list
    /// becomes a row when it is closed.
    pub fn push_list_item(&mut self, index: usize, item: i32) -> (r: Result<(), TableError>)
        ensures
            r is Ok <==> old(self)@.has_leaf(index as int, LeafKind::List),
            r is Ok ==> final(self)@ == old(self)@.item_pushed(index as int, item),
            r is Err ==> r == Err::<(), TableError>(TableError::SchemaMismatch) && final(self)@ == old(self)@,
            old(self)@.wf() ==> final(self)@.wf(),
            old(self)@.sound() ==> final(self)@.sound(),
            final(self)@.schema() == old(self)@.schema(),
    {
        match self.leaf_kind_at(index) {
            Some(LeafKind::List) => {},
            _ => {
                return Err(TableError::SchemaMismatch);
            },
        }
        assert(self@.slots[index as int] == self.slots@[index as int]@);
        let slot = &mut self.slots[index];
        match &mut slot.column {
            Column::List { rows, open } => {
                open.push(item);
            },
            _ => {},
        }
        assert(self@.slots =~= old(self)@.item_pushed(index as int, item).slots);
        proof {
            old(self)@.lemma_leaf_replaced(index as int, self@.leaf(index as int));
            if old(self)@.sound() {
                lemma_appended_sound(old(self)@, index as int, Cell::Int32(0), item);
            }
        }
        Ok(())
    }

    /// Closes the open list of the list column `index`: its items become
    /// one more row, and a new, empty list is opened.
    pub fn close_list(&mut self, index: usize) -> (r: Result<(), TableError>)
        ensures
            r is Ok <==> old(self)@.has_leaf(index as int, LeafKind::List),
            r is Ok ==> final(self)@ == old(self)@.list_closed(index as int),
            r is Err ==> r == Err::<(), TableError>(TableError::SchemaMismatch) && final(self)@ == old(self)@,
            old(self)@.wf() ==> final(self)@.wf(),
            old(self)@.sound() ==> final(self)@.sound(),
            final(self)@.schema() == old(self)@.schema(),
    {
        match self.leaf_kind_at(index) {
            Some(LeafKind::List) => {},
            _ => {
                return Err(TableError::SchemaMismatch);
            },
        }
        assert(self@.slots[index as int] == self.slots@[index as int]@);
        let slot = &mut self.slots[index];
        match &mut slot.column {
            Column::List { rows, open } => {
                list_append_value(rows, open.as_slice());
                open.clear();
            },
            _ => {},
        }
        assert(self@.slots =~= old(self)@.list_closed(index as int).slots);
        proof {
            old(self)@.lemma_leaf_replaced(index as int, self@.leaf(index as int));
            if old(self)@.sound() {
                lemma_appended_sound(old(self)@, index as int, Cell::Int32(0), 0);
            }
        }
        Ok(())
    }

    /// The nested table at column `index`, for appending to its columns.
    /// `None` where there is no such column or it is not a nested table.
    pub fn nested_at(&mut self, index: usize) -> (r: Option<&mut ColumnTree>)
        ensures
            r is Some <==> index < old(self)@.slots.len() && old(self)@.slots[index as int].column is Nested,
            r is None ==> final(self)@ == old(self)@,
            r is Some ==> old(self)@.slots[index as int].column == ColumnView::Nested((*r->0)@),
            r is Some ==> final(self)@.marks == old(self)@.marks,
            r is Some ==> {
                &&& final(self)@.slots =~= old(self)@.with_column(
                    index as int,
                    ColumnView::Nested((*final(r->0))@),
                ).slots
                &&& (old(self)@.wf() && (*final(r->0))@.wf() && (*final(r->0))@.marks is Some ==> final(self)@.wf())
                &&& ((*final(r->0))@.schema() == (*r->0)@.schema() ==> final(self)@.schema() == old(self)@.schema())
            },
            r is Some && old(self)@.wf() ==> (*r->0)@.wf() && (*r->0)@.marks is Some,
    {
        if index >= self.slots.len() {
            return None;
        }
        assert(self@.slots[index as int] == self.slots@[index as int]@);
        match &self.slots[index].column {
            Column::Nested(_) => {},
            _ => {
                return None;
            },
        }
        let slot = &mut self.slots[index];
        match &mut slot.column {
            Column::Nested(t) => {
                proof {
                    let before = old(self)@;
                    let nested = t@;
                    assert forall|g: TreeView, c: TreeView|
                        before.wf() && c.wf() && c.marks is Some && g.slots == (#[trigger] before.with_column(
                            index as int,
                            ColumnView::Nested(c),
                        )).slots implies #[trigger] g.wf() by {
                        lemma_with_column_wf(before, index as int, ColumnView::Nested(c));
                    }
                    assert forall|c: TreeView| c.schema() == nested.schema() implies (#[trigger] before.with_column(
                        index as int,
                        ColumnView::Nested(c),
                    )).schema() == before.schema() by {
                        lemma_with_column_schema(before, index as int, ColumnView::Nested(c));
                    }
                }
                Some(t)
            },
            _ => None,
        }
    }
    /// The least and the greatest length of column `index`.
    fn column_span(&self, index: usize) -> (r: (usize, usize))
        requires
            self@.wf(),
            index < self@.slots.len(),
        ensures
            column_lengths(self@.slots[index as int].column).len() > 0,
            r.0 == column_low(self@.slots[index as int].column),
            r.1 == column_high(self@.slots[index as int].column),
        decreases self@, 0nat,
    {
        assert(self@.slots[index as int] == self.slots@[index as int]@);
        let ghost own = column_lengths(self@.slots[index as int].column);
        match &self.slots[index].column {
            Column::Int32(b) => {
                let k = int32_len(b);
                (k, k)
            },
            Column::Utf8(b) => {
                let k = utf8_len(b);
                (k, k)
            },
            Column::Binary(b) => {
                let k = binary_len(b);
                (k, k)
            },
            Column::List { rows, open } => {
                let k = list_len(rows);
                (k, k)
            },
            Column::Nested(t) => {
                let m: usize = match &t.marks {
                    Some(m) => m.len(),
                    None => 0,
                };
                assert(own == seq![m as nat] + t@.lengths());
                match t.span() {
                    Some((a, b)) => {
                        proof {
                            lemma_least_greatest_concat(seq![m as nat], t@.lengths());
                        }
                        (if a < m { a } else { m }, if b > m { b } else { m })
                    },
                    None => {
                        assert(own =~= seq![m as nat]);
                        (m, m)
                    },
                }
            },
        }
    }

    /// The least and the greatest length among the columns of this table,
    /// nested columns included; `None` where the table has no column.
    fn span(&self) -> (r: Option<(usize, usize)>)
        requires
            self@.wf(),
        ensures
            r is None <==> self@.lengths().len() == 0,
            r is Some ==> ({
                let found = r->0;
                found.0 == self@.complete() && found.1 == self@.incomplete()
            }),
        decreases self@, 1nat,
    {
        let n: usize = self.slots.len();
        let mut acc: Option<(usize, usize)> = None;
        let mut i: usize = 0;
        while i < n
            invariant
                0 <= i <= n,
                n == self@.slots.len(),
                self@.wf(),
                acc is None <==> slots_lengths(self@.slots, i as nat).len() == 0,
                acc is Some ==> ({
                    let found = acc->0;
                    found.0 == least(slots_lengths(self@.slots, i as nat)) && found.1 == greatest(
                        slots_lengths(self@.slots, i as nat),
                    )
                }),
            decreases n - i,
        {
            let ghost before = slots_lengths(self@.slots, i as nat);
            let ghost own = column_lengths(self@.slots[i as int].column);
            assert(slots_lengths(self@.slots, (i + 1) as nat) == before + own);
            let (lo, hi) = self.column_span(i);
            acc = match acc {
                Some((a, b)) => {
                    proof {
                        lemma_least_greatest_concat(before, own);
                    }
                    Some((if lo < a { lo } else { a }, if hi > b { hi } else { b }))
                },
                None => {
                    assert(before + own =~= own);
                    Some((lo, hi))
                },
            };
            i += 1;
        }
        assert(self@.lengths() == slots_lengths(self@.slots, n as nat));
        acc
    }

    /// For each column of this table, in order: its name, its least and
    /// its greatest length. The two differ only for a nested table whose
    /// columns are not aligned. This is for diagnostics: it shows which
    /// column a producer forgot to set.
    pub fn debug_row_counts(&self) -> (r: Vec<(String, usize, usize)>)
        requires
            self@.wf(),
        ensures
            r@.len() == self@.slots.len(),
            forall|i: int|
                0 <= i < r@.len() ==> (#[trigger] r@[i]).0@ == self@.slots[i].name && r@[i].1 == column_low(
                    self@.slots[i].column,
                ) && r@[i].2 == column_high(self@.slots[i].column),
    {
        let n: usize = self.slots.len();
        let mut out: Vec<(String, usize, usize)> = Vec::new();
        let mut i: usize = 0;
        while i < n
            invariant
                0 <= i <= n,
                n == self.slots@.len(),
                n == self@.slots.len(),
                self@.wf(),
                out@.len() == i,
                forall|j: int|
                    0 <= j < i ==> (#[trigger] out@[j]).0@ == self@.slots[j].name && out@[j].1 == column_low(
                        self@.slots[j].column,
                    ) && out@[j].2 == column_high(self@.slots[j].column),
            decreases n - i,
        {
            assert(self@.slots[i as int] == self.slots@[i as int]@);
            let (lo, hi) = self.column_span(i);
            out.push((self.slots[i].name.clone(), lo, hi));
            i += 1;
        }
        out
    }

    /// The schema that this table was built for.
    pub fn schema(&self) -> (r: SchemaDescriptor)
        ensures
            r@ == self@.schema(),
        decreases self@,
    {
        let n: usize = self.slots.len();
        let mut columns: Vec<ColumnDef> = Vec::new();
        let mut i: usize = 0;
        while i < n
            invariant
                0 <= i <= n,
                n == self.slots@.len(),
                columns@.len() == i,
                forall|j: int| 0 <= j < i ==> (#[trigger] columns@[j])@ == self@.schema()[j],
            decreases n - i,
        {
            assert(self@.slots[i as int] == self.slots@[i as int]@);
            let slot = &self.slots[i];
            let kind = match &slot.column {
                Column::Int32(_) => ColumnKind::Leaf(LeafKind::Int32),
                Column::Utf8(_) => ColumnKind::Leaf(LeafKind::Utf8),
                Column::Binary(_) => ColumnKind::Leaf(LeafKind::Binary),
                Column::List { .. } => ColumnKind::Leaf(LeafKind::List),
                Column::Nested(t) => {
                    assert(self@.slots[i as int].column == ColumnView::Nested(t@));
                    assert(self@.slots[i as int].column->Nested_0 == t@);
                    ColumnKind::Nested(t.schema())
                },
            };
            columns.push(ColumnDef { name: slot.name.clone(), kind, nullable: slot.nullable });
            i += 1;
        }
        let r = SchemaDescriptor { columns };
        assert(r@ =~= self@.schema());
        r
    }

    /// The number of complete rows and the number of rows that were begun:
    /// the least and the greatest length among the columns of this table,
    /// nested columns included. A table without columns has `(0, 0)`.
    pub fn row_count(&self) -> (r: (usize, usize))
        requires
            self@.wf(),
        ensures
            r.0 == self@.complete(),
            r.1 == self@.incomplete(),
    {
        match self.span() {
            Some(r) => r,
            None => (0, 0),
        }
    }

    /// Where this table stands between two rows: aligned, with one row
    /// pending, or with columns that diverge by more than one row.
    pub fn row_state(&self) -> (r: RowState)
        requires
            self@.wf(),
        ensures
            r == row_state_of(self@),
    {
        let (complete, incomplete) = self.row_count();
        proof {
            lemma_counts_bound(self@);
        }
        if complete == incomplete {
            RowState::Aligned
        } else if complete == incomplete - 1 {
            RowState::OneRowPending
        } else {
            RowState::Diverged
        }
    }

    fn push_mark(&mut self, present: bool)
        ensures
            final(self)@.marks == mark_pushed(old(self)@.marks, present),
            final(self)@.slots == old(self)@.slots,
    {
        match &mut self.marks {
            Some(m) => {
                m.push(present);
            },
            None => {},
        }
    }

    fn null_fill(&mut self)
        requires
            old(self)@.wf(),
        ensures
            final(self)@ == old(self)@.null_filled(),
        decreases old(self)@,
    {
        let n: usize = self.slots.len();
        let mut i: usize = 0;
        while i < n
            invariant
                0 <= i <= n,
                self.slots@.len() == n,
                old(self).slots@.len() == n,
                old(self)@.wf(),
                self.marks == old(self).marks,
                forall|j: int|
                    0 <= j < i ==> (#[trigger] self.slots@[j])@ == old(self)@.null_filled().slots[j],
                forall|j: int| i <= j < n ==> self.slots@[j] == old(self).slots@[j],
            decreases n - i,
        {
            assert(old(self)@.slots[i as int] == old(self).slots@[i as int]@);
            let slot = &mut self.slots[i];
            match &mut slot.column {
                Column::Int32(b) => {
                    int32_append_null(b);
                },
                Column::Utf8(b) => {
                    utf8_append_null(b);
                },
                Column::Binary(b) => {
                    binary_append_null(b);
                },
                Column::List { rows, open } => {
                    list_append_null(rows);
                    open.clear();
                },
                Column::Nested(t) => {
                    t.null_fill();
                },
            }
            i += 1;
        }
        self.push_mark(false);
        assert(self@.slots =~= old(self)@.null_filled().slots);
    }

    /// Appends a null row to every column of this nested table, to the
    /// columns of the tables nested in it, and a null mark to the struct
    /// column that encloses it. Open lists are dropped.
    ///
    /// The root table has no enclosing column and no null row: this is for
    /// nested tables only.
    pub fn append_null(&mut self)
        requires
            old(self)@.wf(),
            old(self)@.marks is Some,
        ensures
            final(self)@ == old(self)@.null_filled(),
            final(self)@.wf(),
            final(self)@.schema() == old(self)@.schema(),
    {
        proof {
            lemma_null_filled_wf(self@);
            lemma_null_filled_schema(self@);
        }
        self.null_fill();
    }

    /// Appends a null to column `index`; for a nested table, a null row
    /// throughout. Refused where there is no such column or the column does
    /// not admit nulls.
    pub fn append_null_at(&mut self, index: usize) -> (r: Result<(), TableError>)
        requires
            old(self)@.wf(),
        ensures
            r is Ok <==> index < old(self)@.slots.len() && old(self)@.slots[index as int].nullable,
            r is Ok ==> final(self)@ == old(self)@.with_column(
                index as int,
                column_null_filled(old(self)@.slots[index as int].column),
            ),
            r is Err ==> r == Err::<(), TableError>(TableError::SchemaMismatch) && final(self)@ == old(self)@,
            final(self)@.wf(),
            final(self)@.schema() == old(self)@.schema(),
    {
        if index >= self.slots.len() {
            return Err(TableError::SchemaMismatch);
        }
        assert(self@.slots[index as int] == self.slots@[index as int]@);
        proof {
            lemma_column_null_filled(self@.slots[index as int].column);
            lemma_with_column_wf(self@, index as int, column_null_filled(self@.slots[index as int].column));
            lemma_with_column_schema(self@, index as int, column_null_filled(self@.slots[index as int].column));
        }
        if !self.slots[index].nullable {
            return Err(TableError::SchemaMismatch);
        }
        let slot = &mut self.slots[index];
        match &mut slot.column {
            Column::Int32(b) => {
                int32_append_null(b);
            },
            Column::Utf8(b) => {
                utf8_append_null(b);
            },
            Column::Binary(b) => {
                binary_append_null(b);
            },
            Column::List { rows, open } => {
                list_append_null(rows);
                open.clear();
            },
            Column::Nested(t) => {
                t.null_fill();
            },
        }
        assert(self@.slots =~= old(self)@.with_column(
            index as int,
            column_null_filled(old(self)@.slots[index as int].column),
        ).slots);
        Ok(())
    }

    /// Whether every column can be brought up to `n` rows without a null
    /// in a column that does not admit one.
    pub fn can_fill(&self, n: usize) -> (r: bool)
        requires
            self@.wf(),
        ensures
            r == self@.fillable(n as nat),
        decreases self@,
    {
        let count: usize = self.slots.len();
        let mut i: usize = 0;
        while i < count
            invariant
                0 <= i <= count,
                count == self.slots@.len(),
                self@.wf(),
                forall|j: int|
                    0 <= j < i ==> column_fillable(
                        (#[trigger] self@.slots[j]).column,
                        self@.slots[j].nullable,
                        n as nat,
                    ),
            decreases count - i,
        {
            assert(self@.slots[i as int] == self.slots@[i as int]@);
            let slot = &self.slots[i];
            let ok: bool = match &slot.column {
                Column::Int32(b) => int32_len(b) >= n || slot.nullable,
                Column::Utf8(b) => utf8_len(b) >= n || slot.nullable,
                Column::Binary(b) => binary_len(b) >= n || slot.nullable,
                Column::List { rows, open } => list_len(rows) >= n || open.len() > 0 || slot.nullable,
                Column::Nested(t) => {
                    let marked: bool = match &t.marks {
                        Some(m) => m.len() >= n,
                        None => false,
                    };
                    let (lo, hi) = t.row_count();
                    if marked || hi >= n || !slot.nullable {
                        t.can_fill(n)
                    } else {
                        true
                    }
                },
            };
            assert(ok == column_fillable(self@.slots[i as int].column, self@.slots[i as int].nullable, n as nat));
            if !ok {
                return false;
            }
            i += 1;
        }
        true
    }

    /// Brings every column up to `n` rows: a lagging leaf column gets its
    /// open list as the row, or a null; a nested table that has started the
    /// row, or that must not be null, is filled in turn and marked present;
    /// any other gets a null row throughout.
    fn fill(&mut self, n: usize)
        requires
            old(self)@.wf(),
        ensures
            final(self)@ == old(self)@.filled(n as nat),
        decreases old(self)@,
    {
        let count: usize = self.slots.len();
        let mut i: usize = 0;
        while i < count
            invariant
                0 <= i <= count,
                self.slots@.len() == count,
                old(self).slots@.len() == count,
                old(self)@.wf(),
                self.marks == old(self).marks,
                forall|j: int|
                    0 <= j < i ==> (#[trigger] self.slots@[j])@ == old(self)@.filled(n as nat).slots[j],
                forall|j: int| i <= j < count ==> self.slots@[j] == old(self).slots@[j],
            decreases count - i,
        {
            assert(old(self)@.slots[i as int] == old(self).slots@[i as int]@);
            let slot = &mut self.slots[i];
            let nullable = slot.nullable;
            match &mut slot.column {
                Column::Int32(b) => {
                    if int32_len(b) < n {
                        int32_append_null(b);
                    }
                },
                Column::Utf8(b) => {
                    if utf8_len(b) < n {
                        utf8_append_null(b);
                    }
                },
                Column::Binary(b) => {
                    if binary_len(b) < n {
                        binary_append_null(b);
                    }
                },
                Column::List { rows, open } => {
                    if list_len(rows) < n {
                        if open.len() > 0 {
                            list_append_value(rows, open.as_slice());
                        } else {
                            list_append_null(rows);
                        }
                        open.clear();
                    }
                },
                Column::Nested(t) => {
                    let marked: bool = match &t.marks {
                        Some(m) => m.len() >= n,
                        None => false,
                    };
                    let (lo, hi) = t.row_count();
                    if marked {
                        t.fill(n);
                    } else if hi >= n || !nullable {
                        t.fill(n);
                        t.push_mark(true);
                    } else {
                        t.null_fill();
                    }
                },
            }
            i += 1;
        }
        assert(self@.slots =~= old(self)@.filled(n as nat).slots);
    }

    /// Fills row `n - 1` in every column that has fewer than `n` rows, or
    /// changes nothing.
    ///
    /// Succeeds exactly when no column that lacks the row and has nothing
    /// to put there forbids nulls.
    pub fn autocomplete_row(&mut self, n: usize) -> (r: Result<(), TableError>)
        requires
            old(self)@.wf(),
        ensures
            r is Ok <==> old(self)@.fillable(n as nat),
            r is Ok ==> final(self)@ == old(self)@.filled(n as nat),
            r is Err ==> r == Err::<(), TableError>(TableError::NonNullableColumnIncomplete) && final(self)@ == old(
                self,
            )@,
            final(self)@.wf(),
            final(self)@.schema() == old(self)@.schema(),
    {
        proof {
            lemma_filled_wf(self@, n as nat);
            lemma_filled_schema(self@, n as nat);
        }
        if !self.can_fill(n) {
            return Err(TableError::NonNullableColumnIncomplete);
        }
        self.fill(n);
        Ok(())
    }
    /// Moves the rows of every column into a batch and leaves the
    /// builders empty.
    fn take(&mut self) -> (b: RowBatch)
        requires
            old(self)@.wf(),
        ensures
            b@ == old(self)@.snapshot(),
            b.row_total() == old(self)@.rows(),
            final(self)@ == old(self)@.emptied(),
        decreases old(self)@,
    {
        let rows: usize = match &self.marks {
            Some(m) => m.len(),
            None => self.row_count().0,
        };
        let marks: Option<Vec<bool>> = match &mut self.marks {
            Some(m) => {
                let mut taken: Vec<bool> = Vec::new();
                taken.append(m);
                Some(taken)
            },
            None => None,
        };
        let mut batch = RowBatch::with_marks(rows, marks);
        let count: usize = self.slots.len();
        let mut i: usize = 0;
        while i < count
            invariant
                0 <= i <= count,
                self.slots@.len() == count,
                old(self).slots@.len() == count,
                old(self)@.wf(),
                self@.marks == old(self)@.emptied().marks,
                batch@.marks == old(self)@.marks,
                batch.row_total() == old(self)@.rows(),
                batch@.slots.len() == i,
                forall|j: int| 0 <= j < i ==> #[trigger] batch@.slots[j] == old(self)@.snapshot().slots[j],
                forall|j: int|
                    0 <= j < i ==> (#[trigger] self.slots@[j])@ == old(self)@.emptied().slots[j],
                forall|j: int| i <= j < count ==> self.slots@[j] == old(self).slots@[j],
            decreases count - i,
        {
            assert(old(self)@.slots[i as int] == old(self).slots@[i as int]@);
            let slot = &mut self.slots[i];
            let name = slot.name.clone();
            let nullable = slot.nullable;
            match &mut slot.column {
                Column::Int32(b) => {
                    batch.push_leaf(name, nullable, LeafKind::Int32, int32_finish(b));
                },
                Column::Utf8(b) => {
                    batch.push_leaf(name, nullable, LeafKind::Utf8, utf8_finish(b));
                },
                Column::Binary(b) => {
                    batch.push_leaf(name, nullable, LeafKind::Binary, binary_finish(b));
                },
                Column::List { rows, open } => {
                    batch.push_leaf(name, nullable, LeafKind::List, list_finish(rows));
                    open.clear();
                },
                Column::Nested(t) => {
                    batch.push_nested(name, nullable, t.take());
                },
            }
            i += 1;
        }
        assert(self@.slots =~= old(self)@.emptied().slots);
        assert(batch@.slots =~= old(self)@.snapshot().slots);
        batch
    }

    /// Hands out all rows as a batch and leaves the builders empty, for
    /// the next batch.
    ///
    /// Refused while a row is incomplete: every column, nested columns and
    /// the enclosing struct column included, must have the same length.
    /// Open lists are not part of any row and are dropped. A table without
    /// rows gives an empty batch.
    pub fn flush(&mut self) -> (r: Result<RowBatch, TableError>)
        requires
            old(self)@.wf(),
        ensures
            r is Ok <==> old(self)@.flushable(),
            r is Ok ==> (r->Ok_0)@ == old(self)@.snapshot() && (r->Ok_0).row_total() == old(self)@.rows()
                && final(self)@ == old(self)@.emptied(),
            r is Err ==> r->Err_0 == TableError::FlushWithPendingRow && final(self)@ == old(self)@,
            r is Ok ==> (r->Ok_0)@.schema() == old(self)@.schema() && (r->Ok_0)@.aligned(old(self)@.rows()),
            r is Ok && old(self)@.sound() && old(self)@.marks is None ==> (r->Ok_0)@.exportable(
                (r->Ok_0).row_total(),
            ),
            final(self)@.wf(),
            old(self)@.sound() ==> final(self)@.sound(),
            final(self)@.schema() == old(self)@.schema(),
    {
        proof {
            lemma_flushed(self@);
            lemma_empty_sound(self@);
            if self@.sound() && self@.marks is None && self@.flushable() {
                lemma_flush_accepted(self@);
            }
            lemma_snapshot_schema(self@);
            lemma_snapshot_lengths(self@);
            lemma_counts_bound(self@);
        }
        let ready: bool = match self.span() {
            Some((lo, hi)) => lo == hi && match &self.marks {
                Some(m) => m.len() == lo,
                None => true,
            },
            None => true,
        };
        if !ready {
            return Err(TableError::FlushWithPendingRow);
        }
        Ok(self.take())
    }
    /// Completes the one incomplete row of this table.
    ///
    /// With no row begun beyond the complete ones there is nothing to do,
    /// and with more than one the producer has written out of order: both
    /// are refused. With exactly one, every column that lacks the row is
    /// filled. On success every column, nested columns included, has the
    /// same number of rows; on failure the table is as it was.
    pub fn autocomplete(&mut self) -> (r: Result<(), TableError>)
        requires
            old(self)@.wf(),
        ensures
            r == autocomplete_result(old(self)@),
            r is Ok ==> final(self)@ == old(self)@.filled(old(self)@.incomplete()),
            r is Ok ==> final(self)@.aligned(old(self)@.incomplete()),
            r is Err ==> final(self)@ == old(self)@,
            final(self)@.wf(),
            old(self)@.sound() ==> final(self)@.sound(),
            final(self)@.schema() == old(self)@.schema(),
    {
        let (complete, incomplete) = self.row_count();
        proof {
            lemma_counts_bound(self@);
        }
        if complete == incomplete {
            return Err(TableError::NoIncompleteRow);
        }
        if complete != incomplete - 1 {
            return Err(TableError::MultipleIncompleteRows { complete, incomplete });
        }
        proof {
            lemma_filled_aligned(self@, incomplete as nat);
            if self@.sound() && self@.fillable(incomplete as nat) {
                lemma_filled_sound(self@, incomplete as nat);
            }
        }
        match self.autocomplete_row(incomplete) {
            Ok(()) => Ok(()),
            Err(e) => Err(e),
        }
    }
}

} // verus!
