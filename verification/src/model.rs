//! The mathematical model of a column tree.
//!
//! A tree is a sequence of columns. A leaf column is the sequence of its
//! rows; a nested column is another tree together with one mark per row of
//! the enclosing struct column. Everything the builders promise is stated
//! over these values.

use crate::error::TableError;
use crate::arrays::{batch_accepted, struct_accepted, struct_cells, Cell};
use crate::schema::{DefView, KindView, LeafKind};
use vstd::prelude::*;

verus! {

/// A leaf column: its rows, and for a list column the items of the list
/// that is still open.
pub struct LeafView {
    pub kind: LeafKind,
    pub cells: Seq<Cell>,
    pub open: Seq<i32>,
}

/// A column: a leaf, or a nested table.
pub enum ColumnView {
    Leaf(LeafView),
    Nested(TreeView),
}

/// A column with its name and nullability.
pub struct SlotView {
    pub name: Seq<char>,
    pub nullable: bool,
    pub column: ColumnView,
}

/// A table. `marks` holds one entry per row of the struct column that
/// encloses this table (`true` for a present row, `false` for a null one);
/// the root table has none.
pub struct TreeView {
    pub marks: Option<Seq<bool>>,
    pub slots: Seq<SlotView>,
}

/// The least element of `s`, or 0 where `s` is empty.
pub open spec fn least(s: Seq<nat>) -> nat
    decreases s.len(),
{
    if s.len() == 0 {
        0
    } else if s.len() == 1 {
        s[0]
    } else {
        let m = least(s.drop_last());
        if s.last() < m {
            s.last()
        } else {
            m
        }
    }
}

/// The greatest element of `s`, or 0 where `s` is empty.
pub open spec fn greatest(s: Seq<nat>) -> nat
    decreases s.len(),
{
    if s.len() == 0 {
        0
    } else if s.len() == 1 {
        s[0]
    } else {
        let m = greatest(s.drop_last());
        if s.last() > m {
            s.last()
        } else {
            m
        }
    }
}

/// `marks` with one more entry, where there are marks at all.
pub open spec fn mark_pushed(marks: Option<Seq<bool>>, present: bool) -> Option<Seq<bool>> {
    match marks {
        Some(m) => Some(m.push(present)),
        None => None,
    }
}

/// The lengths of the first `k` columns of `slots`, nested columns included.
pub open spec fn slots_lengths(slots: Seq<SlotView>, k: nat) -> Seq<nat>
    decreases slots, k,
{
    if k == 0 || k > slots.len() {
        Seq::empty()
    } else {
        slots_lengths(slots, (k - 1) as nat) + column_lengths(slots[k - 1].column)
    }
}

/// The length of a column and, for a nested table, of every column below
/// it. The length of a nested column is the number of its marks.
pub open spec fn column_lengths(c: ColumnView) -> Seq<nat>
    decreases c,
{
    match c {
        ColumnView::Leaf(l) => seq![l.cells.len()],
        ColumnView::Nested(t) => match t.marks {
            Some(m) => seq![m.len()] + t.lengths(),
            None => t.lengths(),
        },
    }
}

/// The least length of a column: its own or, for a nested table, the
/// least among its marks and the columns below it.
pub open spec fn column_low(c: ColumnView) -> nat {
    least(column_lengths(c))
}

/// The greatest length of a column: its own or, for a nested table, the
/// greatest among its marks and the columns below it.
pub open spec fn column_high(c: ColumnView) -> nat {
    greatest(column_lengths(c))
}

/// Every length of the column lies between `lo` and `hi`.
pub open spec fn column_within(c: ColumnView, lo: nat, hi: nat) -> bool {
    forall|k: int| 0 <= k < column_lengths(c).len() ==> lo <= #[trigger] column_lengths(c)[k] <= hi
}

/// A nested table has marks, and only a list column has an open list.
pub open spec fn column_wf(c: ColumnView) -> bool
    decreases c,
{
    match c {
        ColumnView::Leaf(l) => l.kind != LeafKind::List ==> l.open.len() == 0,
        ColumnView::Nested(t) => t.marks is Some && t.wf(),
    }
}

/// The kind of a column, as a schema states it.
pub open spec fn column_kind(c: ColumnView) -> KindView
    decreases c,
{
    match c {
        ColumnView::Leaf(l) => KindView::Leaf(l.kind),
        ColumnView::Nested(t) => KindView::Nested(t.schema()),
    }
}

/// A leaf column after a null row was appended. An open list is dropped.
pub open spec fn leaf_null_filled(l: LeafView) -> LeafView {
    LeafView { kind: l.kind, cells: l.cells.push(Cell::Null), open: Seq::empty() }
}

/// A leaf column after it was brought up to `n` rows, where it had fewer:
/// an open list is closed and becomes the row; otherwise the row is null.
pub open spec fn leaf_filled(l: LeafView, n: nat) -> LeafView {
    if l.cells.len() >= n {
        l
    } else if l.open.len() > 0 {
        LeafView { kind: l.kind, cells: l.cells.push(Cell::List(l.open)), open: Seq::empty() }
    } else {
        leaf_null_filled(l)
    }
}

/// Whether a leaf column can be brought up to `n` rows: it has them
/// already, or an open list to close, or it admits a null.
pub open spec fn leaf_fillable(l: LeafView, nullable: bool, n: nat) -> bool {
    l.cells.len() >= n || l.open.len() > 0 || nullable
}

/// A column after a null row was appended to it and, for a nested table,
/// to every column below it.
pub open spec fn column_null_filled(c: ColumnView) -> ColumnView
    decreases c,
{
    match c {
        ColumnView::Leaf(l) => ColumnView::Leaf(leaf_null_filled(l)),
        ColumnView::Nested(t) => ColumnView::Nested(t.null_filled()),
    }
}

/// Whether a nested table already has its row `n`: its own column has `n`
/// marks, or one of its columns has reached `n` rows.
pub open spec fn row_started(t: TreeView, n: nat) -> bool {
    (t.marks is Some && t.marks->0.len() >= n) || t.incomplete() >= n
}

/// A column after it was brought up to `n` rows.
///
/// A nested table whose struct column already has `n` marks has its
/// lagging columns filled. One that lacks the mark and has started the
/// row, or whose struct column does not admit nulls, has its lagging
/// columns filled and the row marked present. One that lacks the mark,
/// has not started the row and admits nulls gets a null row throughout.
pub open spec fn column_filled(c: ColumnView, nullable: bool, n: nat) -> ColumnView
    decreases c,
{
    match c {
        ColumnView::Leaf(l) => ColumnView::Leaf(leaf_filled(l, n)),
        ColumnView::Nested(t) => if t.marks is Some && t.marks->0.len() >= n {
            ColumnView::Nested(t.filled(n))
        } else if t.incomplete() >= n || !nullable {
            ColumnView::Nested(TreeView { marks: mark_pushed(t.marks, true), slots: t.filled(n).slots })
        } else {
            ColumnView::Nested(t.null_filled())
        },
    }
}

/// Whether a column can be brought up to `n` rows without a null in a
/// column that does not admit one. A nested table that gets a null row
/// throughout always can: its nulls stand under the null of the struct
/// column.
pub open spec fn column_fillable(c: ColumnView, nullable: bool, n: nat) -> bool
    decreases c,
{
    match c {
        ColumnView::Leaf(l) => leaf_fillable(l, nullable, n),
        ColumnView::Nested(t) => row_started(t, n) || !nullable ==> t.fillable(n),
    }
}

/// The rows of a column as Arrow sees them: the cells of a leaf, and for
/// a nested table one struct cell per mark.
pub open spec fn column_rows(c: ColumnView) -> Seq<Cell>
    decreases c,
{
    match c {
        ColumnView::Leaf(l) => l.cells,
        ColumnView::Nested(t) => match t.marks {
            Some(m) => struct_cells(m, t.cells()),
            None => Seq::empty(),
        },
    }
}

/// Whether Arrow accepts every struct column below as one array: the
/// fields of each are aligned with its marks, and no field that forbids
/// nulls has one in a present row.
pub open spec fn column_exportable(c: ColumnView) -> bool
    decreases c,
{
    match c {
        ColumnView::Leaf(l) => true,
        ColumnView::Nested(t) => match t.marks {
            Some(m) => t.exportable_below() && struct_accepted(t.nullables(), t.cells(), m),
            None => false,
        },
    }
}

/// Row `r` of the enclosing struct column is marked absent.
pub open spec fn masked(marks: Option<Seq<bool>>, r: int) -> bool {
    marks is Some && 0 <= r < marks->0.len() && !marks->0[r]
}

/// No null stands where the schema forbids one: a column that does not
/// admit nulls has them only in rows that the enclosing struct column,
/// with the given marks, marks absent; and so for every column below.
pub open spec fn column_sound(c: ColumnView, nullable: bool, marks: Option<Seq<bool>>) -> bool
    decreases c,
{
    match c {
        ColumnView::Leaf(l) => nullable || forall|r: int|
            0 <= r < l.cells.len() && #[trigger] l.cells[r] is Null ==> masked(marks, r),
        ColumnView::Nested(t) => t.sound() && (nullable || match t.marks {
            Some(m) => forall|r: int| 0 <= r < m.len() && !#[trigger] m[r] ==> masked(marks, r),
            None => true,
        }),
    }
}

/// A column after a flush: no rows, no open list.
pub open spec fn column_emptied(c: ColumnView) -> ColumnView
    decreases c,
{
    match c {
        ColumnView::Leaf(l) => ColumnView::Leaf(LeafView { kind: l.kind, cells: Seq::empty(), open: Seq::empty() }),
        ColumnView::Nested(t) => ColumnView::Nested(t.emptied()),
    }
}

/// The rows of a column, as a flush hands them out: open lists are not
/// part of them.
pub open spec fn column_snapshot(c: ColumnView) -> ColumnView
    decreases c,
{
    match c {
        ColumnView::Leaf(l) => ColumnView::Leaf(LeafView { kind: l.kind, cells: l.cells, open: Seq::empty() }),
        ColumnView::Nested(t) => ColumnView::Nested(t.snapshot()),
    }
}

impl TreeView {
    /// Every nested table below has marks, and only list columns have open
    /// lists.
    pub open spec fn wf(self) -> bool
        decreases self,
    {
        forall|i: int| 0 <= i < self.slots.len() ==> column_wf((#[trigger] self.slots[i]).column)
    }

    /// The schema that this table was built for.
    pub open spec fn schema(self) -> Seq<DefView>
        decreases self,
    {
        Seq::new(
            self.slots.len(),
            |i: int|
                if 0 <= i < self.slots.len() {
                    DefView {
                        name: self.slots[i].name,
                        kind: column_kind(self.slots[i].column),
                        nullable: self.slots[i].nullable,
                    }
                } else {
                    arbitrary()
                },
        )
    }

    /// The lengths of all columns of this table, nested columns included,
    /// in schema order. The table's own marks are not among them.
    pub open spec fn lengths(self) -> Seq<nat>
        decreases self,
    {
        slots_lengths(self.slots, self.slots.len())
    }

    /// The number of complete rows: the least column length.
    pub open spec fn complete(self) -> nat {
        least(self.lengths())
    }

    /// The number of rows that were begun: the greatest column length.
    pub open spec fn incomplete(self) -> nat {
        greatest(self.lengths())
    }

    /// Every column length lies between `lo` and `hi`.
    pub open spec fn within(self, lo: nat, hi: nat) -> bool {
        forall|k: int| 0 <= k < self.lengths().len() ==> lo <= #[trigger] self.lengths()[k] <= hi
    }

    /// Every column, nested columns included, has exactly `n` rows.
    pub open spec fn aligned(self, n: nat) -> bool {
        self.within(n, n)
    }

    /// This table after a null row was appended to every column and a null
    /// mark to the enclosing struct column.
    pub open spec fn null_filled(self) -> TreeView
        decreases self,
    {
        TreeView {
            marks: mark_pushed(self.marks, false),
            slots: Seq::new(
                self.slots.len(),
                |i: int|
                    if 0 <= i < self.slots.len() {
                        SlotView {
                            name: self.slots[i].name,
                            nullable: self.slots[i].nullable,
                            column: column_null_filled(self.slots[i].column),
                        }
                    } else {
                        arbitrary()
                    },
            ),
        }
    }

    /// This table after every column was brought up to `n` rows. The
    /// table's own marks stay as they are.
    pub open spec fn filled(self, n: nat) -> TreeView
        decreases self,
    {
        TreeView {
            marks: self.marks,
            slots: Seq::new(
                self.slots.len(),
                |i: int|
                    if 0 <= i < self.slots.len() {
                        SlotView {
                            name: self.slots[i].name,
                            nullable: self.slots[i].nullable,
                            column: column_filled(self.slots[i].column, self.slots[i].nullable, n),
                        }
                    } else {
                        arbitrary()
                    },
            ),
        }
    }

    /// Whether every column can be brought up to `n` rows.
    pub open spec fn fillable(self, n: nat) -> bool
        decreases self,
    {
        forall|i: int|
            0 <= i < self.slots.len() ==> column_fillable(
                (#[trigger] self.slots[i]).column,
                self.slots[i].nullable,
                n,
            )
    }

    /// This table after a flush: the same columns, without rows, marks or
    /// open lists.
    pub open spec fn emptied(self) -> TreeView
        decreases self,
    {
        TreeView {
            marks: match self.marks {
                Some(_) => Some(Seq::empty()),
                None => None,
            },
            slots: Seq::new(
                self.slots.len(),
                |i: int|
                    if 0 <= i < self.slots.len() {
                        SlotView {
                            name: self.slots[i].name,
                            nullable: self.slots[i].nullable,
                            column: column_emptied(self.slots[i].column),
                        }
                    } else {
                        arbitrary()
                    },
            ),
        }
    }

    /// The rows of this table, as a flush hands them out.
    pub open spec fn snapshot(self) -> TreeView
        decreases self,
    {
        TreeView {
            marks: self.marks,
            slots: Seq::new(
                self.slots.len(),
                |i: int|
                    if 0 <= i < self.slots.len() {
                        SlotView {
                            name: self.slots[i].name,
                            nullable: self.slots[i].nullable,
                            column: column_snapshot(self.slots[i].column),
                        }
                    } else {
                        arbitrary()
                    },
            ),
        }
    }

    /// The rows of each column of this table, as Arrow sees them.
    pub open spec fn cells(self) -> Seq<Seq<Cell>>
        decreases self,
    {
        Seq::new(
            self.slots.len(),
            |i: int|
                if 0 <= i < self.slots.len() {
                    column_rows(self.slots[i].column)
                } else {
                    arbitrary()
                },
        )
    }

    /// For each column of this table, whether it admits nulls.
    pub open spec fn nullables(self) -> Seq<bool> {
        Seq::new(self.slots.len(), |i: int| self.slots[i].nullable)
    }

    /// Whether Arrow accepts every nested table below this one as a struct
    /// column.
    pub open spec fn exportable_below(self) -> bool
        decreases self,
    {
        forall|i: int| 0 <= i < self.slots.len() ==> column_exportable((#[trigger] self.slots[i]).column)
    }

    /// Whether Arrow accepts this table as a record batch of `rows` rows.
    pub open spec fn exportable(self, rows: nat) -> bool {
        self.exportable_below() && batch_accepted(self.nullables(), self.cells(), rows)
    }

    /// No null stands where the schema forbids one, in this table and in
    /// every table nested in it.
    pub open spec fn sound(self) -> bool
        decreases self,
    {
        forall|i: int|
            0 <= i < self.slots.len() ==> column_sound(
                (#[trigger] self.slots[i]).column,
                self.slots[i].nullable,
                self.marks,
            )
    }

    /// Whether column `i` is a leaf column of kind `kind`.
    pub open spec fn has_leaf(self, i: int, kind: LeafKind) -> bool {
        0 <= i < self.slots.len() && self.slots[i].column == ColumnView::Leaf(self.leaf(i)) && self.leaf(i).kind
            == kind
    }

    /// Column `i`, where it is a leaf.
    pub open spec fn leaf(self, i: int) -> LeafView {
        self.slots[i].column->Leaf_0
    }

    /// This table with column `i` replaced by `c`.
    pub open spec fn with_column(self, i: int, c: ColumnView) -> TreeView {
        TreeView {
            marks: self.marks,
            slots: self.slots.update(
                i,
                SlotView { name: self.slots[i].name, nullable: self.slots[i].nullable, column: c },
            ),
        }
    }

    /// This table after `cell` was appended to the leaf column `i`.
    pub open spec fn appended(self, i: int, cell: Cell) -> TreeView {
        self.with_column(
            i,
            ColumnView::Leaf(
                LeafView { kind: self.leaf(i).kind, cells: self.leaf(i).cells.push(cell), open: self.leaf(i).open },
            ),
        )
    }

    /// This table after `item` was added to the open list of column `i`.
    pub open spec fn item_pushed(self, i: int, item: i32) -> TreeView {
        self.with_column(
            i,
            ColumnView::Leaf(
                LeafView { kind: self.leaf(i).kind, cells: self.leaf(i).cells, open: self.leaf(i).open.push(item) },
            ),
        )
    }

    /// This table after the open list of column `i` was closed and became
    /// a row.
    pub open spec fn list_closed(self, i: int) -> TreeView {
        self.with_column(
            i,
            ColumnView::Leaf(
                LeafView {
                    kind: self.leaf(i).kind,
                    cells: self.leaf(i).cells.push(Cell::List(self.leaf(i).open)),
                    open: Seq::empty(),
                },
            ),
        )
    }

    /// Whether the table can be flushed: all its columns have one length,
    /// and so has the struct column that encloses it.
    pub open spec fn flushable(self) -> bool {
        self.complete() == self.incomplete() && match self.marks {
            Some(m) => self.lengths().len() > 0 ==> m.len() == self.complete(),
            None => true,
        }
    }

    /// The number of rows of a table that can be flushed.
    pub open spec fn rows(self) -> nat {
        match self.marks {
            Some(m) => m.len(),
            None => self.complete(),
        }
    }
}

/// Where a table stands between two rows.
#[derive(Clone, Copy, Debug, PartialEq, Eq, Structural)]
pub enum RowState {
    /// Every column has the same number of rows.
    Aligned,
    /// Some columns are exactly one row ahead of the others.
    OneRowPending,
    /// Some columns are more than one row ahead of others. Only misuse of
    /// the append operations leads here; nothing repairs it.
    Diverged,
}

/// The state of a table, by its two row counts.
pub open spec fn row_state_of(t: TreeView) -> RowState {
    if t.complete() == t.incomplete() {
        RowState::Aligned
    } else if t.complete() + 1 == t.incomplete() {
        RowState::OneRowPending
    } else {
        RowState::Diverged
    }
}

/// What autocomplete answers for a table: which failure, or success.
pub open spec fn autocomplete_result(t: TreeView) -> Result<(), TableError> {
    if t.complete() == t.incomplete() {
        Err(TableError::NoIncompleteRow)
    } else if t.complete() + 1 != t.incomplete() {
        Err(
            TableError::MultipleIncompleteRows {
                complete: t.complete() as usize,
                incomplete: t.incomplete() as usize,
            },
        )
    } else if !t.fillable(t.incomplete()) {
        Err(TableError::NonNullableColumnIncomplete)
    } else {
        Ok(())
    }
}

/// A column of the given kind that holds no rows.
pub open spec fn fresh_column(k: KindView) -> ColumnView
    decreases k,
{
    match k {
        KindView::Leaf(kind) => ColumnView::Leaf(LeafView { kind, cells: Seq::empty(), open: Seq::empty() }),
        KindView::Nested(defs) => ColumnView::Nested(fresh_tree(defs, true)),
    }
}

/// The table that a schema describes, without rows. A nested table
/// (`enclosed`) has an empty sequence of marks; the root has none.
pub open spec fn fresh_tree(defs: Seq<DefView>, enclosed: bool) -> TreeView
    decreases defs,
{
    TreeView {
        marks: if enclosed {
            Some(Seq::empty())
        } else {
            None
        },
        slots: Seq::new(
            defs.len(),
            |i: int|
                if 0 <= i < defs.len() {
                    SlotView { name: defs[i].name, nullable: defs[i].nullable, column: fresh_column(defs[i].kind) }
                } else {
                    arbitrary()
                },
        ),
    }
}

/// The least and the greatest element bound every element, and both occur.
pub proof fn lemma_least_greatest(s: Seq<nat>)
    requires
        s.len() > 0,
    ensures
        forall|k: int| 0 <= k < s.len() ==> least(s) <= #[trigger] s[k] <= greatest(s),
        exists|k: int| 0 <= k < s.len() && s[k] == least(s),
        exists|k: int| 0 <= k < s.len() && s[k] == greatest(s),
    decreases s.len(),
{
    if s.len() == 1 {
        assert(s[0] == least(s));
        assert(s[0] == greatest(s));
    } else {
        let t = s.drop_last();
        lemma_least_greatest(t);
        let a = choose|k: int| 0 <= k < t.len() && t[k] == least(t);
        let b = choose|k: int| 0 <= k < t.len() && t[k] == greatest(t);
        assert(s[a] == t[a] && s[b] == t[b]);
        assert(s[s.len() - 1] == s.last());
        assert forall|k: int| 0 <= k < s.len() implies least(s) <= #[trigger] s[k] <= greatest(s) by {
            if k < t.len() {
                assert(s[k] == t[k]);
            }
        }
        if s.last() < least(t) {
            assert(s[s.len() - 1] == least(s));
        } else {
            assert(s[a] == least(s));
        }
        if s.last() > greatest(t) {
            assert(s[s.len() - 1] == greatest(s));
        } else {
            assert(s[b] == greatest(s));
        }
    }
}

/// The least and the greatest element of two sequences joined.
pub proof fn lemma_least_greatest_concat(a: Seq<nat>, b: Seq<nat>)
    requires
        a.len() > 0,
        b.len() > 0,
    ensures
        least(a + b) == if least(b) < least(a) { least(b) } else { least(a) },
        greatest(a + b) == if greatest(b) > greatest(a) { greatest(b) } else { greatest(a) },
    decreases b.len(),
{
    let s = a + b;
    assert(s.last() == b.last());
    if b.len() == 1 {
        assert(s.drop_last() =~= a);
    } else {
        assert(s.drop_last() =~= a + b.drop_last());
        lemma_least_greatest_concat(a, b.drop_last());
    }
}

/// The lengths of the first `k` columns lie in a range exactly when the
/// lengths of each of those columns do.
pub proof fn lemma_prefix_within(slots: Seq<SlotView>, k: nat, lo: nat, hi: nat)
    requires
        k <= slots.len(),
    ensures
        (forall|x: int| 0 <= x < slots_lengths(slots, k).len() ==> lo <= #[trigger] slots_lengths(slots, k)[x] <= hi)
            <==> (forall|j: int| 0 <= j < k ==> column_within((#[trigger] slots[j]).column, lo, hi)),
    decreases k,
{
    if k > 0 {
        let p = slots_lengths(slots, (k - 1) as nat);
        let c = column_lengths(slots[k - 1].column);
        let s = slots_lengths(slots, k);
        assert(s == p + c);
        lemma_prefix_within(slots, (k - 1) as nat, lo, hi);
        if forall|x: int| 0 <= x < s.len() ==> lo <= #[trigger] s[x] <= hi {
            assert forall|x: int| 0 <= x < p.len() implies lo <= #[trigger] p[x] <= hi by {
                assert(p[x] == s[x]);
            }
            assert forall|x: int| 0 <= x < c.len() implies lo <= #[trigger] c[x] <= hi by {
                assert(c[x] == s[p.len() + x]);
            }
        }
        if forall|j: int| 0 <= j < k ==> column_within((#[trigger] slots[j]).column, lo, hi) {
            assert(column_within(slots[k - 1].column, lo, hi));
            assert forall|x: int| 0 <= x < s.len() implies lo <= #[trigger] s[x] <= hi by {
                if x < p.len() {
                    assert(s[x] == p[x]);
                } else {
                    assert(s[x] == c[x - p.len()]);
                }
            }
        }
    }
}

/// The lengths of a table lie in a range exactly when the lengths of each
/// of its columns do.
pub proof fn lemma_within_slots(t: TreeView, lo: nat, hi: nat)
    ensures
        t.within(lo, hi) <==> (forall|j: int|
            0 <= j < t.slots.len() ==> column_within((#[trigger] t.slots[j]).column, lo, hi)),
{
    assert(t.lengths() == slots_lengths(t.slots, t.slots.len()));
    lemma_prefix_within(t.slots, t.slots.len(), lo, hi);
}

/// The lengths of a column lie in a range exactly when its own length does
/// and, for a nested table, the lengths of the table do.
pub proof fn lemma_column_within(c: ColumnView, lo: nat, hi: nat)
    ensures
        column_within(c, lo, hi) <==> match c {
            ColumnView::Leaf(l) => lo <= l.cells.len() <= hi,
            ColumnView::Nested(t) => t.within(lo, hi) && match t.marks {
                Some(m) => lo <= m.len() <= hi,
                None => true,
            },
        },
{
    let s = column_lengths(c);
    match c {
        ColumnView::Leaf(l) => {
            assert(s.len() == 1 && s[0] == l.cells.len());
        },
        ColumnView::Nested(t) => {
            match t.marks {
                Some(m) => {
                    let r = t.lengths();
                    assert(s == seq![m.len()] + r);
                    assert(s[0] == m.len());
                    if column_within(c, lo, hi) {
                        assert forall|k: int| 0 <= k < r.len() implies lo <= #[trigger] r[k] <= hi by {
                            assert(r[k] == s[k + 1]);
                        }
                    }
                    if t.within(lo, hi) && lo <= m.len() <= hi {
                        assert forall|k: int| 0 <= k < s.len() implies lo <= #[trigger] s[k] <= hi by {
                            if k > 0 {
                                assert(s[k] == r[k - 1]);
                            }
                        }
                    }
                },
                None => {
                    assert(s == t.lengths());
                },
            }
        },
    }
}

} // verus!
