//! The interfaces of a table type and of its builder, and the operations
//! that work on any builder.

use crate::batch::RowBatch;
use crate::error::TableError;
use crate::laws::{lemma_counts_bound, lemma_filled_aligned, lemma_filled_sound};
use crate::model::{
    autocomplete_result, column_high, column_lengths, column_low, column_wf, column_within,
    fresh_tree, lemma_within_slots, TreeView,
};
use crate::schema::{DefView, SchemaDescriptor};
use crate::text::{count_line, count_line_string, join_lines, joined};
use crate::tree::ColumnTree;
use vstd::prelude::*;

verus! {

/// A type whose values are the rows of a table.
pub trait ArrowTable {
    /// The columns of the table.
    spec fn schema_spec() -> Seq<DefView>;

    /// The schema of the table: its columns in order, nested tables
    /// included.
    fn table_schema() -> (s: SchemaDescriptor)
        ensures
            s@ == Self::schema_spec(),
    ;

    /// Empty builders for the columns of the table.
    ///
    /// `cap` is the number of rows to reserve room for; `list_items`,
    /// `string_len` and `binary_len` are the expected number of list items,
    /// string bytes and binary bytes per row.
    fn builders(cap: usize, list_items: usize, string_len: usize, binary_len: usize) -> (t: ColumnTree)
        ensures
            t@ == fresh_tree(Self::schema_spec(), false),
    ;
}

/// A builder of row batches for one table.
pub trait TableBuilder: Sized {
    /// The table that the builder holds.
    spec fn tree(&self) -> TreeView;

    /// What the builder keeps true of itself between calls.
    spec fn inv(&self) -> bool;

    /// A builder in good order holds a well-formed table.
    proof fn lemma_inv(&self)
        requires
            self.inv(),
        ensures
            self.tree().wf(),
    ;

    /// A builder for the root table, without rows. The arguments size the
    /// first allocation, as for [`ArrowTable::builders`].
    fn new(cap: usize, list_items: usize, string_len: usize, binary_len: usize) -> (r: Self)
        ensures
            r.inv(),
            r.tree() == fresh_tree(r.tree().schema(), false),
    ;

    /// Hands out all rows as a batch and leaves the builder empty and
    /// reusable. Refused while a row is incomplete.
    fn flush(&mut self) -> (r: Result<RowBatch, TableError>)
        requires
            old(self).inv(),
        ensures
            final(self).inv(),
            r is Ok <==> old(self).tree().flushable(),
            r is Ok ==> (r->Ok_0)@ == old(self).tree().snapshot() && (r->Ok_0).row_total() == old(
                self,
            ).tree().rows() && final(self).tree() == old(self).tree().emptied(),
            r is Err ==> r->Err_0 == TableError::FlushWithPendingRow && final(self).tree() == old(self).tree(),
    ;

    /// The length of column `index`: the number of its rows or, for a
    /// nested table, of its marks. `None` where there is no such column.
    fn column_len(&self, index: usize) -> (r: Option<usize>)
        requires
            self.inv(),
        ensures
            r is Some <==> index < self.tree().slots.len(),
            r is Some ==> r->0 == column_lengths(self.tree().slots[index as int].column)[0],
    ;

    /// Appends a null row to every column, nested columns included, and a
    /// null mark to the enclosing struct column. The root table has no
    /// null row: this is for nested tables only.
    fn append_null(&mut self)
        requires
            old(self).inv(),
            old(self).tree().marks is Some,
        ensures
            final(self).inv(),
            final(self).tree() == old(self).tree().null_filled(),
    ;

    /// Whether this is the builder of the root table, which no struct
    /// column encloses.
    fn is_root(&self) -> (r: bool)
        ensures
            r == (self.tree().marks is None),
    ;

    /// Fills row `n - 1` in every column that has fewer than `n` rows, or
    /// changes nothing. Also see [`autocomplete_row`].
    ///
    /// A leaf column gets a null, and the call fails where the column does
    /// not admit one. A list column with an open list gets that list.
    /// Nested tables are filled in turn.
    fn autocomplete_row(&mut self, n: usize) -> (r: Result<(), TableError>)
        requires
            old(self).inv(),
        ensures
            final(self).inv(),
            r is Ok <==> old(self).tree().fillable(n as nat),
            r is Ok ==> final(self).tree() == old(self).tree().filled(n as nat),
            r is Err ==> r->Err_0 == TableError::NonNullableColumnIncomplete && final(self).tree() == old(
                self,
            ).tree(),
    ;

    /// The number of columns, not counting the columns of nested tables.
    fn column_count(&self) -> (n: usize)
        ensures
            n == self.tree().slots.len(),
    ;

    /// The number of complete rows and the number of rows that were begun.
    /// A row is complete when it has a value in every column.
    fn row_count(&self) -> (r: (usize, usize))
        requires
            self.inv(),
        ensures
            r.0 == self.tree().complete(),
            r.1 == self.tree().incomplete(),
    ;

    /// For each column, in order: its name, its least and its greatest
    /// length.
    fn debug_row_counts(&self) -> (r: Vec<(String, usize, usize)>)
        requires
            self.inv(),
        ensures
            r@.len() == self.tree().slots.len(),
            forall|i: int|
                0 <= i < r@.len() ==> (#[trigger] r@[i]).0@ == self.tree().slots[i].name && r@[i].1 == column_low(
                    self.tree().slots[i].column,
                ) && r@[i].2 == column_high(self.tree().slots[i].column),
    ;
}

/// Completes the one incomplete row of a table.
///
/// Finds the number of complete rows and of rows begun. With no row
/// begun beyond the complete ones there is nothing to do, and with more
/// than one the producer has written out of order: both are refused. With
/// exactly one, every column that lacks the row is filled. On success
/// every column, nested columns included, has the same number of rows; on
/// failure the table is as it was.
pub fn autocomplete_row<T: TableBuilder>(table_builder: &mut T) -> (r: Result<(), TableError>)
    requires
        old(table_builder).inv(),
    ensures
        final(table_builder).inv(),
        r == autocomplete_result(old(table_builder).tree()),
        r is Ok ==> final(table_builder).tree() == old(table_builder).tree().filled(
            old(table_builder).tree().incomplete(),
        ),
        r is Ok ==> final(table_builder).tree().aligned(old(table_builder).tree().incomplete()),
        r is Err ==> final(table_builder).tree() == old(table_builder).tree(),
        old(table_builder).tree().sound() ==> final(table_builder).tree().sound(),
{
    let (complete, incomplete) = table_builder.row_count();
    if complete == incomplete {
        return Err(TableError::NoIncompleteRow);
    }
    if incomplete == 0 || complete != incomplete - 1 {
        proof {
            lemma_counts_bound(table_builder.tree());
        }
        return Err(TableError::MultipleIncompleteRows { complete, incomplete });
    }
    proof {
        table_builder.lemma_inv();
        lemma_counts_bound(table_builder.tree());
        lemma_filled_aligned(table_builder.tree(), incomplete as nat);
        if table_builder.tree().sound() && table_builder.tree().fillable(incomplete as nat) {
            lemma_filled_sound(table_builder.tree(), incomplete as nat);
        }
    }
    match table_builder.autocomplete_row(incomplete) {
        Ok(()) => Ok(()),
        Err(_) => Err(TableError::NonNullableColumnIncomplete),
    }
}

/// Checks at run time what [`autocomplete_row`] leaves behind: every
/// column has as many rows as were begun, and no row is incomplete.
pub fn debug_assert_row_counts<T: TableBuilder>(table_builder: &mut T) -> (ok: bool)
    requires
        old(table_builder).inv(),
    ensures
        final(table_builder).inv(),
        final(table_builder).tree() == old(table_builder).tree(),
        ok == (old(table_builder).tree().complete() == old(table_builder).tree().incomplete()),
{
    let (lo, hi) = table_builder.row_count();
    let n: usize = table_builder.column_count();
    proof {
        table_builder.lemma_inv();
        lemma_counts_bound(table_builder.tree());
        lemma_within_slots(table_builder.tree(), lo as nat, hi as nat);
    }
    let mut i: usize = 0;
    while i < n
        invariant
            0 <= i <= n,
            n == table_builder.tree().slots.len(),
            table_builder.inv(),
            table_builder.tree() == old(table_builder).tree(),
            table_builder.tree().wf(),
            lo == table_builder.tree().complete(),
            hi == table_builder.tree().incomplete(),
            forall|j: int|
                0 <= j < n ==> column_within(
                    (#[trigger] table_builder.tree().slots[j]).column,
                    lo as nat,
                    hi as nat,
                ),
        decreases n - i,
    {
        let len = table_builder.column_len(i);
        let ghost own = column_lengths(table_builder.tree().slots[i as int].column);
        assert(column_within(table_builder.tree().slots[i as int].column, lo as nat, hi as nat));
        match len {
            Some(k) => {
                if k != hi {
                    assert(column_wf(table_builder.tree().slots[i as int].column));
                    assert(own.len() > 0);
                    assert(lo <= own[0] <= hi);
                    return false;
                }
            },
            None => {},
        }
        i += 1;
    }
    lo == hi
}

/// The report of the row counts of every column of a table: one line per
/// column, in order.
pub open spec fn dump_text(t: TreeView) -> Seq<char> {
    joined(
        Seq::new(
            t.slots.len(),
            |i: int| count_line(t.slots[i].name, column_low(t.slots[i].column), column_high(t.slots[i].column)),
        ),
    )
}

/// A readable report of which column has how many rows: one line per
/// column with its name, its least and its greatest length. This is for
/// diagnostics, when one value out of many was not set.
pub fn debug_dump_column_row_counts<T: TableBuilder>(table_builder: &mut T) -> (s: String)
    requires
        old(table_builder).inv(),
    ensures
        final(table_builder).inv(),
        final(table_builder).tree() == old(table_builder).tree(),
        s@ == dump_text(old(table_builder).tree()),
{
    let counts = table_builder.debug_row_counts();
    let n: usize = counts.len();
    let mut lines: Vec<String> = Vec::new();
    let mut i: usize = 0;
    while i < n
        invariant
            0 <= i <= n,
            n == counts@.len(),
            lines@.len() == i,
            forall|j: int|
                0 <= j < i ==> (#[trigger] lines@[j])@ == count_line(
                    counts@[j].0@,
                    counts@[j].1 as nat,
                    counts@[j].2 as nat,
                ),
        decreases n - i,
    {
        lines.push(count_line_string(counts[i].0.as_str(), counts[i].1, counts[i].2));
        i += 1;
    }
    let out = join_lines(&lines);
    assert(Seq::new(lines@.len(), |i: int| lines@[i]@) =~= Seq::new(
        table_builder.tree().slots.len(),
        |i: int|
            count_line(
                table_builder.tree().slots[i].name,
                column_low(table_builder.tree().slots[i].column),
                column_high(table_builder.tree().slots[i].column),
            ),
    ));
    out
}

} // verus!
