//! What holds of the model: how appending, filling, null rows and flushing
//! change the lengths of the columns of a table, keep its schema, and keep
//! nulls out of the columns that forbid them.

use crate::arrays::{batch_accepted, nulls_masked, struct_accepted, Cell};
use crate::model::{
    column_emptied, column_exportable, column_fillable, column_filled, column_kind,
    column_lengths, column_null_filled, column_rows, column_snapshot, column_sound, column_wf,
    column_within, fresh_tree, leaf_filled, lemma_column_within, lemma_least_greatest,
    lemma_within_slots, mark_pushed, masked, slots_lengths, ColumnView, LeafView, TreeView,
};
use crate::schema::{DefView, KindView, LeafKind};
use vstd::prelude::*;

verus! {

/// The row counts of a table bound the length of every column.
pub proof fn lemma_counts_bound(t: TreeView)
    ensures
        t.within(t.complete(), t.incomplete()),
        t.complete() <= t.incomplete(),
{
    if t.lengths().len() > 0 {
        lemma_least_greatest(t.lengths());
    }
}

/// Where the lengths of all columns lie between `lo` and `hi` and there is
/// a column at all, so do both row counts.
pub proof fn lemma_within_counts(t: TreeView, lo: nat, hi: nat)
    requires
        t.within(lo, hi),
        t.lengths().len() > 0,
    ensures
        lo <= t.complete() <= t.incomplete() <= hi,
{
    lemma_least_greatest(t.lengths());
}

/// A table whose two row counts agree is aligned at that count.
pub proof fn lemma_equal_counts_aligned(t: TreeView)
    requires
        t.complete() == t.incomplete(),
    ensures
        t.aligned(t.complete()),
{
    lemma_counts_bound(t);
}

/// Single pending row: where no column is more than one row ahead of
/// another, the row counts are `(n, n)`, `(n, n + 1)` or `(n + 1, n + 1)`:
/// the table is aligned, or exactly one row is incomplete.
pub proof fn lemma_single_pending_row(t: TreeView, n: nat)
    requires
        t.within(n, n + 1),
        t.lengths().len() > 0,
    ensures
        t.complete() == t.incomplete() || t.incomplete() == t.complete() + 1,
        n <= t.complete(),
        t.incomplete() <= n + 1,
{
    lemma_within_counts(t, n, n + 1);
}

/// A null row throughout adds one to the length of every column, and
/// keeps the table well-formed.
pub proof fn lemma_null_filled_within(t: TreeView, lo: nat, hi: nat)
    requires
        t.wf(),
        t.within(lo, hi),
    ensures
        t.null_filled().wf(),
        t.null_filled().within(lo + 1, hi + 1),
    decreases t,
{
    let r = t.null_filled();
    lemma_within_slots(t, lo, hi);
    assert forall|j: int| 0 <= j < r.slots.len() implies column_wf((#[trigger] r.slots[j]).column) && column_within(
        r.slots[j].column,
        lo + 1,
        hi + 1,
    ) by {
        let c = t.slots[j].column;
        assert(column_wf(c));
        assert(column_within(c, lo, hi));
        lemma_column_within(c, lo, hi);
        lemma_column_within(column_null_filled(c), lo + 1, hi + 1);
        match c {
            ColumnView::Leaf(l) => {},
            ColumnView::Nested(s) => {
                lemma_null_filled_within(s, lo, hi);
            },
        }
    }
    lemma_within_slots(r, lo + 1, hi + 1);
}

/// Alignment after autocomplete: where every column has `n - 1` or `n`
/// rows, filling up to `n` leaves every column, nested columns included,
/// with exactly `n` rows.
pub proof fn lemma_filled_aligned(t: TreeView, n: nat)
    requires
        t.wf(),
        n >= 1,
        t.within((n - 1) as nat, n),
    ensures
        t.filled(n).wf(),
        t.filled(n).aligned(n),
    decreases t,
{
    let r = t.filled(n);
    let lo = (n - 1) as nat;
    lemma_within_slots(t, lo, n);
    assert forall|j: int| 0 <= j < r.slots.len() implies column_wf((#[trigger] r.slots[j]).column) && column_within(
        r.slots[j].column,
        n,
        n,
    ) by {
        let c = t.slots[j].column;
        assert(column_wf(c));
        assert(column_within(c, lo, n));
        lemma_column_within(c, lo, n);
        lemma_column_within(column_filled(c, t.slots[j].nullable, n), n, n);
        match c {
            ColumnView::Leaf(l) => {},
            ColumnView::Nested(s) => {
                if s.marks->0.len() >= n {
                    lemma_filled_aligned(s, n);
                } else if s.incomplete() >= n || !t.slots[j].nullable {
                    lemma_filled_aligned(s, n);
                    let f = s.filled(n);
                    let g = TreeView { marks: mark_pushed(s.marks, true), slots: f.slots };
                    assert(column_filled(c, t.slots[j].nullable, n) == ColumnView::Nested(g));
                    assert(g.lengths() == f.lengths());
                    assert(g.wf() == f.wf());
                    assert(g.within(n, n));
                } else {
                    lemma_counts_bound(s);
                    assert(s.within(lo, lo)) by {
                        assert forall|k: int| 0 <= k < s.lengths().len() implies lo <= #[trigger] s.lengths()[k]
                            <= lo by {
                            assert(s.lengths()[k] <= s.incomplete());
                        }
                    }
                    lemma_null_filled_within(s, lo, lo);
                }
            },
        }
    }
    lemma_within_slots(r, n, n);
}

/// A null row throughout leaves the schema as it is.
pub proof fn lemma_null_filled_schema(t: TreeView)
    ensures
        t.null_filled().schema() == t.schema(),
    decreases t,
{
    let r = t.null_filled();
    assert forall|j: int| 0 <= j < t.slots.len() implies column_kind(r.slots[j].column) == column_kind(
        t.slots[j].column,
    ) by {
        match t.slots[j].column {
            ColumnView::Leaf(l) => {},
            ColumnView::Nested(s) => {
                lemma_null_filled_schema(s);
            },
        }
    }
    assert(r.schema() =~= t.schema());
}

/// Filling leaves the schema as it is.
pub proof fn lemma_filled_schema(t: TreeView, n: nat)
    ensures
        t.filled(n).schema() == t.schema(),
    decreases t,
{
    let r = t.filled(n);
    assert forall|j: int| 0 <= j < t.slots.len() implies column_kind(r.slots[j].column) == column_kind(
        t.slots[j].column,
    ) by {
        match t.slots[j].column {
            ColumnView::Leaf(l) => {},
            ColumnView::Nested(s) => {
                lemma_filled_schema(s, n);
                lemma_null_filled_schema(s);
                let g = TreeView { marks: mark_pushed(s.marks, true), slots: s.filled(n).slots };
                assert(g.schema() =~= s.filled(n).schema());
            },
        }
    }
    assert(r.schema() =~= t.schema());
}

/// The batch that a flush hands out has the schema of the table.
pub proof fn lemma_snapshot_schema(t: TreeView)
    ensures
        t.snapshot().schema() == t.schema(),
    decreases t,
{
    let b = t.snapshot();
    assert forall|j: int| 0 <= j < t.slots.len() implies column_kind(b.slots[j].column) == column_kind(
        t.slots[j].column,
    ) by {
        match t.slots[j].column {
            ColumnView::Leaf(l) => {},
            ColumnView::Nested(s) => {
                lemma_snapshot_schema(s);
            },
        }
    }
    assert(b.schema() =~= t.schema());
}

/// A flush leaves well-formed builders with the same schema, in which
/// every column is empty.
pub proof fn lemma_flushed(t: TreeView)
    requires
        t.wf(),
    ensures
        t.emptied().schema() == t.schema(),
        t.emptied().wf(),
        t.emptied().aligned(0),
        t.emptied().emptied() == t.emptied(),
    decreases t,
{
    let e = t.emptied();
    assert forall|j: int| 0 <= j < t.slots.len() implies column_kind((#[trigger] e.slots[j]).column) == column_kind(
        t.slots[j].column,
    ) && column_wf(e.slots[j].column) && column_within(e.slots[j].column, 0, 0) && column_emptied(
        e.slots[j].column,
    ) == e.slots[j].column by {
        let c = t.slots[j].column;
        assert(column_wf(c));
        lemma_column_within(column_emptied(c), 0, 0);
        match c {
            ColumnView::Leaf(l) => {},
            ColumnView::Nested(s) => {
                lemma_flushed(s);
            },
        }
    }
    assert(e.schema() =~= t.schema());
    lemma_within_slots(e, 0, 0);
    assert(e.emptied().slots =~= e.slots);
}

/// The rows that a flush hands out have the lengths of the columns they
/// were taken from.
pub proof fn lemma_snapshot_lengths(t: TreeView)
    ensures
        t.snapshot().lengths() == t.lengths(),
    decreases t,
{
    lemma_snapshot_prefix(t, t.slots.len());
}

proof fn lemma_snapshot_prefix(t: TreeView, k: nat)
    requires
        k <= t.slots.len(),
    ensures
        slots_lengths(t.snapshot().slots, k) == slots_lengths(t.slots, k),
    decreases t, k,
{
    if k > 0 {
        lemma_snapshot_prefix(t, (k - 1) as nat);
        match t.slots[k - 1].column {
            ColumnView::Leaf(l) => {},
            ColumnView::Nested(s) => {
                lemma_snapshot_lengths(s);
            },
        }
        assert(column_lengths(t.snapshot().slots[k - 1].column) == column_lengths(t.slots[k - 1].column));
    }
}

/// Idempotent flush: an aligned table without rows can be flushed, and the
/// batch has no rows. So a second flush right after a first succeeds and
/// gives an empty batch.
pub proof fn lemma_flush_empty(t: TreeView)
    requires
        t.wf(),
        t.aligned(0),
        t.marks is Some ==> t.marks->0.len() == 0,
    ensures
        t.flushable(),
        t.rows() == 0,
        t.snapshot().aligned(0),
{
    if t.lengths().len() > 0 {
        lemma_within_counts(t, 0, 0);
    }
    lemma_snapshot_lengths(t);
}

/// After a flush the builders can be flushed again at once.
pub proof fn lemma_flush_twice(t: TreeView)
    requires
        t.wf(),
    ensures
        t.emptied().wf(),
        t.emptied().flushable(),
        t.emptied().rows() == 0,
        t.emptied().snapshot().aligned(0),
{
    lemma_flushed(t);
    lemma_flush_empty(t.emptied());
}

/// The table that a schema describes is well-formed, has that schema and
/// no rows.
pub proof fn lemma_fresh_tree(defs: Seq<DefView>, enclosed: bool)
    ensures
        fresh_tree(defs, enclosed).wf(),
        fresh_tree(defs, enclosed).schema() == defs,
        fresh_tree(defs, enclosed).aligned(0),
        fresh_tree(defs, enclosed).emptied() == fresh_tree(defs, enclosed),
    decreases defs,
{
    let t = fresh_tree(defs, enclosed);
    assert forall|j: int| 0 <= j < defs.len() implies column_wf((#[trigger] t.slots[j]).column) && column_kind(
        t.slots[j].column,
    ) == defs[j].kind && column_within(t.slots[j].column, 0, 0) && column_emptied(t.slots[j].column)
        == t.slots[j].column by {
        lemma_column_within(t.slots[j].column, 0, 0);
        match defs[j].kind {
            KindView::Leaf(k) => {},
            KindView::Nested(d) => {
                lemma_fresh_tree(d, true);
            },
        }
    }
    assert(t.schema() =~= defs);
    lemma_within_slots(t, 0, 0);
    assert(t.emptied().slots =~= t.slots);
}

/// A null row throughout keeps a table well-formed.
pub proof fn lemma_null_filled_wf(t: TreeView)
    requires
        t.wf(),
    ensures
        t.null_filled().wf(),
    decreases t,
{
    let r = t.null_filled();
    assert forall|j: int| 0 <= j < r.slots.len() implies column_wf((#[trigger] r.slots[j]).column) by {
        let c = t.slots[j].column;
        assert(column_wf(c));
        match c {
            ColumnView::Leaf(l) => {},
            ColumnView::Nested(s) => {
                lemma_null_filled_wf(s);
            },
        }
    }
}

/// Filling keeps a table well-formed, whatever the lengths of its columns.
pub proof fn lemma_filled_wf(t: TreeView, n: nat)
    requires
        t.wf(),
    ensures
        t.filled(n).wf(),
    decreases t,
{
    let r = t.filled(n);
    assert forall|j: int| 0 <= j < r.slots.len() implies column_wf((#[trigger] r.slots[j]).column) by {
        let c = t.slots[j].column;
        assert(column_wf(c));
        match c {
            ColumnView::Leaf(l) => {},
            ColumnView::Nested(s) => {
                lemma_filled_wf(s, n);
                lemma_null_filled_wf(s);
                let g = TreeView { marks: mark_pushed(s.marks, true), slots: s.filled(n).slots };
                assert(g.wf() == s.filled(n).wf());
            },
        }
    }
}

/// Replacing a column by a well-formed column keeps the table
/// well-formed.
pub proof fn lemma_with_column_wf(t: TreeView, i: int, c: ColumnView)
    requires
        t.wf(),
        0 <= i < t.slots.len(),
        column_wf(c),
    ensures
        t.with_column(i, c).wf(),
{
    let r = t.with_column(i, c);
    assert forall|j: int| 0 <= j < r.slots.len() implies column_wf((#[trigger] r.slots[j]).column) by {
        assert(column_wf(t.slots[j].column));
    }
}

/// Replacing a column by a column of the same kind leaves the schema as
/// it is.
pub proof fn lemma_with_column_schema(t: TreeView, i: int, c: ColumnView)
    requires
        0 <= i < t.slots.len(),
        column_kind(c) == column_kind(t.slots[i].column),
    ensures
        t.with_column(i, c).schema() == t.schema(),
{
    assert(t.with_column(i, c).schema() =~= t.schema());
}

/// Replacing a column by one whose lengths lie in a range keeps the
/// lengths of the table in that range. So a table that is aligned at `n`
/// has, after one value was appended to one column, no column below `n`
/// rows and none above `n + 1`: one row is pending.
pub proof fn lemma_with_column_within(t: TreeView, i: int, c: ColumnView, lo: nat, hi: nat)
    requires
        0 <= i < t.slots.len(),
        t.within(lo, lo) || t.within(lo, hi),
        lo <= hi,
        column_within(c, lo, hi),
    ensures
        t.with_column(i, c).within(lo, hi),
{
    let r = t.with_column(i, c);
    lemma_within_slots(t, lo, lo);
    lemma_within_slots(t, lo, hi);
    assert forall|j: int| 0 <= j < r.slots.len() implies column_within((#[trigger] r.slots[j]).column, lo, hi) by {
        assert(column_within(t.slots[j].column, lo, lo) || column_within(t.slots[j].column, lo, hi));
    }
    lemma_within_slots(r, lo, hi);
}

/// Nested recursion: where a nested table has a value for the pending row
/// `n - 1` but the struct column that encloses it has no mark for it,
/// filling up to `n` marks the row present and leaves the nested table
/// aligned at `n`: both advance by exactly one row.
pub proof fn lemma_nested_row_advances(s: TreeView, nullable: bool, n: nat)
    requires
        s.wf(),
        n >= 1,
        s.marks is Some,
        s.marks->0.len() == n - 1,
        s.within((n - 1) as nat, n),
        s.incomplete() == n,
    ensures
        column_filled(ColumnView::Nested(s), nullable, n) is Nested,
        column_filled(ColumnView::Nested(s), nullable, n)->Nested_0.marks == Some(s.marks->0.push(true)),
        column_filled(ColumnView::Nested(s), nullable, n)->Nested_0.aligned(n),
{
    lemma_filled_aligned(s, n);
    let g = TreeView { marks: mark_pushed(s.marks, true), slots: s.filled(n).slots };
    assert(g.lengths() == s.filled(n).lengths());
}

/// A table without rows has no open list: what a flush hands out of it is
/// the table itself.
pub proof fn lemma_fresh_snapshot(defs: Seq<DefView>, enclosed: bool)
    ensures
        fresh_tree(defs, enclosed).snapshot() == fresh_tree(defs, enclosed),
    decreases defs,
{
    let t = fresh_tree(defs, enclosed);
    assert forall|i: int| 0 <= i < defs.len() implies column_snapshot((#[trigger] t.slots[i]).column)
        == t.slots[i].column by {
        match defs[i].kind {
            KindView::Leaf(k) => {},
            KindView::Nested(d) => {
                lemma_fresh_snapshot(d, true);
            },
        }
    }
    assert(t.snapshot().slots =~= t.slots);
}

/// Arrow accepts the empty batch of every schema: a table without rows
/// has, in every column and below every nested table, no row and so no
/// null.
pub proof fn lemma_fresh_exportable(defs: Seq<DefView>, enclosed: bool)
    ensures
        fresh_tree(defs, enclosed).exportable_below(),
        forall|i: int| 0 <= i < defs.len() ==> (#[trigger] fresh_tree(defs, enclosed).cells()[i]).len() == 0,
        fresh_tree(defs, enclosed).exportable(0),
    decreases defs,
{
    let t = fresh_tree(defs, enclosed);
    assert forall|i: int| 0 <= i < defs.len() implies column_exportable((#[trigger] t.slots[i]).column)
        && column_rows(t.slots[i].column).len() == 0 by {
        match defs[i].kind {
            KindView::Leaf(k) => {},
            KindView::Nested(d) => {
                lemma_fresh_exportable(d, true);
                let s = fresh_tree(d, true);
                assert(t.slots[i].column == ColumnView::Nested(s));
                assert(struct_accepted(s.nullables(), s.cells(), Seq::<bool>::empty()));
            },
        }
    }
    assert forall|i: int| 0 <= i < defs.len() implies (#[trigger] t.cells()[i]).len() == 0 by {
        assert(column_rows(t.slots[i].column).len() == 0);
    }
    assert(batch_accepted(t.nullables(), t.cells(), 0));
}

/// A null row keeps a column well-formed and of its kind.
pub proof fn lemma_column_null_filled(c: ColumnView)
    requires
        column_wf(c),
    ensures
        column_wf(column_null_filled(c)),
        column_kind(column_null_filled(c)) == column_kind(c),
{
    match c {
        ColumnView::Leaf(l) => {},
        ColumnView::Nested(s) => {
            lemma_null_filled_wf(s);
            lemma_null_filled_schema(s);
        },
    }
}

impl TreeView {
    /// Replacing a leaf column by a leaf of the same kind, with an open
    /// list only where the kind is a list, keeps the table well-formed and
    /// leaves the schema as it is.
    pub proof fn lemma_leaf_replaced(self, i: int, l: LeafView)
        requires
            0 <= i < self.slots.len(),
            self.slots[i].column is Leaf,
            l.kind == self.leaf(i).kind,
            l.kind != LeafKind::List ==> l.open.len() == 0,
        ensures
            self.wf() ==> self.with_column(i, ColumnView::Leaf(l)).wf(),
            self.with_column(i, ColumnView::Leaf(l)).schema() == self.schema(),
    {
        lemma_with_column_schema(self, i, ColumnView::Leaf(l));
        if self.wf() {
            lemma_with_column_wf(self, i, ColumnView::Leaf(l));
        }
    }
}

/// One more mark leaves every absent row absent.
pub proof fn lemma_column_sound_pushed(c: ColumnView, nullable: bool, marks: Option<Seq<bool>>, present: bool)
    requires
        column_sound(c, nullable, marks),
    ensures
        column_sound(c, nullable, mark_pushed(marks, present)),
{
    let after = mark_pushed(marks, present);
    assert forall|r: int| masked(marks, r) implies masked(after, r) by {
        assert(after->0[r] == marks->0[r]);
    }
}

/// Replacing a column by one without forbidden nulls leaves the table
/// without forbidden nulls. So appending a value that is not null to a
/// column does so.
pub proof fn lemma_with_column_sound(t: TreeView, i: int, c: ColumnView)
    requires
        t.sound(),
        0 <= i < t.slots.len(),
        column_sound(c, t.slots[i].nullable, t.marks),
    ensures
        t.with_column(i, c).sound(),
{
    let r = t.with_column(i, c);
    assert forall|j: int| 0 <= j < r.slots.len() implies column_sound(
        (#[trigger] r.slots[j]).column,
        r.slots[j].nullable,
        r.marks,
    ) by {
        assert(column_sound(t.slots[j].column, t.slots[j].nullable, t.marks));
    }
}

/// A null row throughout an aligned nested table puts every new null
/// under the new absent mark.
pub proof fn lemma_null_filled_sound(t: TreeView, k: nat)
    requires
        t.wf(),
        t.sound(),
        t.aligned(k),
        t.marks is Some,
        t.marks->0.len() == k,
    ensures
        t.null_filled().sound(),
    decreases t,
{
    let r = t.null_filled();
    lemma_within_slots(t, k, k);
    assert forall|j: int| 0 <= j < r.slots.len() implies column_sound(
        (#[trigger] r.slots[j]).column,
        r.slots[j].nullable,
        r.marks,
    ) by {
        let c = t.slots[j].column;
        let nullable = t.slots[j].nullable;
        assert(column_wf(c));
        assert(column_within(c, k, k));
        assert(column_sound(c, nullable, t.marks));
        lemma_column_within(c, k, k);
        lemma_column_sound_pushed(c, nullable, t.marks, false);
        assert(masked(r.marks, k as int));
        match c {
            ColumnView::Leaf(l) => {
                let cells = l.cells.push(Cell::Null);
                assert forall|x: int| 0 <= x < cells.len() && #[trigger] cells[x] is Null && !nullable implies masked(
                    r.marks,
                    x,
                ) by {
                    if x < k {
                        assert(l.cells[x] is Null);
                    }
                }
            },
            ColumnView::Nested(s) => {
                lemma_null_filled_sound(s, k);
                let m = s.marks->0;
                let after = m.push(false);
                assert forall|x: int| 0 <= x < after.len() && !#[trigger] after[x] && !nullable implies masked(
                    r.marks,
                    x,
                ) by {
                    if x < k {
                        assert(!m[x]);
                    }
                }
            },
        }
    }
}

/// Filling puts no null where the schema forbids one: where every column
/// has `n - 1` or `n` rows and can be filled, a table without forbidden
/// nulls is still without them after it was filled up to `n`.
pub proof fn lemma_filled_sound(t: TreeView, n: nat)
    requires
        t.wf(),
        t.sound(),
        n >= 1,
        t.within((n - 1) as nat, n),
        t.fillable(n),
    ensures
        t.filled(n).sound(),
    decreases t,
{
    let r = t.filled(n);
    let lo = (n - 1) as nat;
    lemma_within_slots(t, lo, n);
    assert forall|j: int| 0 <= j < r.slots.len() implies column_sound(
        (#[trigger] r.slots[j]).column,
        r.slots[j].nullable,
        r.marks,
    ) by {
        let c = t.slots[j].column;
        let nullable = t.slots[j].nullable;
        assert(column_wf(c));
        assert(column_within(c, lo, n));
        assert(column_sound(c, nullable, t.marks));
        assert(column_fillable(c, nullable, n));
        lemma_column_within(c, lo, n);
        match c {
            ColumnView::Leaf(l) => {
                let after = leaf_filled(l, n);
                assert forall|x: int| 0 <= x < after.cells.len() && #[trigger] after.cells[x] is Null
                    && !nullable implies masked(t.marks, x) by {
                    if x < l.cells.len() {
                        assert(l.cells[x] is Null);
                    }
                }
            },
            ColumnView::Nested(s) => {
                let m = s.marks->0;
                if m.len() >= n {
                    lemma_filled_sound(s, n);
                } else if s.incomplete() >= n || !nullable {
                    lemma_filled_sound(s, n);
                    let f = s.filled(n);
                    let g = TreeView { marks: mark_pushed(s.marks, true), slots: f.slots };
                    assert forall|i: int| 0 <= i < g.slots.len() implies column_sound(
                        (#[trigger] g.slots[i]).column,
                        g.slots[i].nullable,
                        g.marks,
                    ) by {
                        assert(column_sound(f.slots[i].column, f.slots[i].nullable, f.marks));
                        lemma_column_sound_pushed(f.slots[i].column, f.slots[i].nullable, s.marks, true);
                    }
                    let after = m.push(true);
                    assert forall|x: int| 0 <= x < after.len() && !#[trigger] after[x] && !nullable implies masked(
                        t.marks,
                        x,
                    ) by {
                        assert(!m[x]);
                    }
                } else {
                    lemma_counts_bound(s);
                    assert(s.within(lo, lo)) by {
                        assert forall|k: int| 0 <= k < s.lengths().len() implies lo <= #[trigger] s.lengths()[k]
                            <= lo by {
                            assert(s.lengths()[k] <= s.incomplete());
                        }
                    }
                    lemma_null_filled_sound(s, lo);
                }
            },
        }
    }
}

/// What a flush hands out has the rows, the nullability and the standing
/// with Arrow of the table it was taken from.
pub proof fn lemma_snapshot_export(t: TreeView)
    ensures
        t.snapshot().cells() == t.cells(),
        t.snapshot().nullables() == t.nullables(),
        t.snapshot().exportable_below() == t.exportable_below(),
    decreases t,
{
    let b = t.snapshot();
    assert forall|j: int| 0 <= j < t.slots.len() implies column_rows((#[trigger] b.slots[j]).column) == column_rows(
        t.slots[j].column,
    ) && column_exportable(b.slots[j].column) == column_exportable(t.slots[j].column) by {
        match t.slots[j].column {
            ColumnView::Leaf(l) => {},
            ColumnView::Nested(s) => {
                lemma_snapshot_export(s);
            },
        }
    }
    assert(b.cells() =~= t.cells());
    assert(b.nullables() =~= t.nullables());
    if t.exportable_below() {
        assert forall|j: int| 0 <= j < b.slots.len() implies column_exportable((#[trigger] b.slots[j]).column) by {
            assert(column_exportable(t.slots[j].column));
        }
    }
    if b.exportable_below() {
        assert forall|j: int| 0 <= j < t.slots.len() implies column_exportable((#[trigger] t.slots[j]).column) by {
            assert(column_exportable(b.slots[j].column));
        }
    }
}

/// An aligned table without forbidden nulls is what Arrow asks for: every
/// column has the same number of rows, and no column or field that forbids
/// nulls has one that is not under an absent row.
pub proof fn lemma_sound_accepted(t: TreeView, n: nat)
    requires
        t.wf(),
        t.sound(),
        t.aligned(n),
        t.marks is Some ==> t.marks->0.len() == n,
    ensures
        t.exportable_below(),
        forall|i: int| 0 <= i < t.slots.len() ==> (#[trigger] t.cells()[i]).len() == n,
        t.marks is Some ==> struct_accepted(t.nullables(), t.cells(), t.marks->0),
        t.marks is None ==> batch_accepted(t.nullables(), t.cells(), n),
    decreases t,
{
    lemma_within_slots(t, n, n);
    assert forall|i: int| 0 <= i < t.slots.len() implies column_exportable((#[trigger] t.slots[i]).column)
        && column_rows(t.slots[i].column).len() == n by {
        let c = t.slots[i].column;
        assert(column_wf(c));
        assert(column_within(c, n, n));
        lemma_column_within(c, n, n);
        match c {
            ColumnView::Leaf(l) => {},
            ColumnView::Nested(s) => {
                lemma_sound_accepted(s, n);
            },
        }
    }
    assert forall|i: int| 0 <= i < t.slots.len() implies (#[trigger] t.cells()[i]).len() == n by {
        assert(column_rows(t.slots[i].column).len() == n);
    }
    assert forall|i: int| 0 <= i < t.slots.len() && !t.nullables()[i] implies (t.marks is Some ==> nulls_masked(
        #[trigger] t.cells()[i],
        t.marks->0,
    )) && (t.marks is None ==> !t.cells()[i].contains(Cell::Null)) by {
        let c = t.slots[i].column;
        let rows = t.cells()[i];
        assert(rows == column_rows(c));
        assert(column_sound(c, t.slots[i].nullable, t.marks));
        assert(column_wf(c));
        assert forall|r: int| 0 <= r < rows.len() && rows[r] is Null implies masked(t.marks, r) by {
            match c {
                ColumnView::Leaf(l) => {
                    assert(l.cells[r] is Null);
                },
                ColumnView::Nested(s) => {
                    assert(!s.marks->0[r]);
                },
            }
        }
        if t.marks is None {
            if rows.contains(Cell::Null) {
                let r = choose|r: int| 0 <= r < rows.len() && rows[r] == Cell::Null;
                assert(masked(t.marks, r));
            }
        }
    }
}

/// A root table that is aligned and has no forbidden null flushes into a
/// batch that Arrow accepts.
pub proof fn lemma_flush_accepted(t: TreeView)
    requires
        t.wf(),
        t.sound(),
        t.marks is None,
        t.flushable(),
    ensures
        t.snapshot().exportable(t.rows()),
{
    lemma_equal_counts_aligned(t);
    lemma_sound_accepted(t, t.complete());
    lemma_snapshot_export(t);
}

/// A table without rows has no forbidden null, and a flush leaves none.
pub proof fn lemma_empty_sound(t: TreeView)
    requires
        t.wf(),
    ensures
        t.emptied().sound(),
    decreases t,
{
    let e = t.emptied();
    assert forall|j: int| 0 <= j < e.slots.len() implies column_sound(
        (#[trigger] e.slots[j]).column,
        e.slots[j].nullable,
        e.marks,
    ) by {
        let c = t.slots[j].column;
        assert(column_wf(c));
        match c {
            ColumnView::Leaf(l) => {},
            ColumnView::Nested(s) => {
                lemma_empty_sound(s);
            },
        }
    }
}

/// Appending a value that is not null to a leaf column, adding an item to
/// an open list and closing a list put no null anywhere.
pub proof fn lemma_appended_sound(t: TreeView, i: int, cell: Cell, item: i32)
    requires
        t.sound(),
        0 <= i < t.slots.len(),
        t.slots[i].column is Leaf,
        !(cell is Null),
    ensures
        t.appended(i, cell).sound(),
        t.item_pushed(i, item).sound(),
        t.list_closed(i).sound(),
{
    let l = t.leaf(i);
    let nullable = t.slots[i].nullable;
    assert(column_sound(t.slots[i].column, nullable, t.marks));
    let grown = l.cells.push(cell);
    assert forall|r: int| 0 <= r < grown.len() && #[trigger] grown[r] is Null && !nullable implies masked(
        t.marks,
        r,
    ) by {
        assert(l.cells[r] is Null);
    }
    let closed = l.cells.push(Cell::List(l.open));
    assert forall|r: int| 0 <= r < closed.len() && #[trigger] closed[r] is Null && !nullable implies masked(
        t.marks,
        r,
    ) by {
        assert(l.cells[r] is Null);
    }
    lemma_with_column_sound(t, i, ColumnView::Leaf(LeafView { kind: l.kind, cells: grown, open: l.open }));
    lemma_with_column_sound(t, i, ColumnView::Leaf(LeafView { kind: l.kind, cells: l.cells, open: l.open.push(item) }));
    lemma_with_column_sound(t, i, ColumnView::Leaf(LeafView { kind: l.kind, cells: closed, open: Seq::empty() }));
}

/// The table that a schema describes has no forbidden null.
pub proof fn lemma_fresh_sound(defs: Seq<DefView>, enclosed: bool)
    ensures
        fresh_tree(defs, enclosed).sound(),
    decreases defs,
{
    let t = fresh_tree(defs, enclosed);
    assert forall|j: int| 0 <= j < t.slots.len() implies column_sound(
        (#[trigger] t.slots[j]).column,
        t.slots[j].nullable,
        t.marks,
    ) by {
        match defs[j].kind {
            KindView::Leaf(k) => {},
            KindView::Nested(d) => {
                lemma_fresh_sound(d, true);
            },
        }
    }
}

} // verus!
