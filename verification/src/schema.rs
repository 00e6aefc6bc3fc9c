//! Schema descriptors: the ordered columns of a table, nested tables
//! included.

use vstd::prelude::*;

verus! {

/// The kinds of column that hold values themselves.
#[derive(Clone, Copy, Debug, PartialEq, Eq, Structural)]
pub enum LeafKind {
    /// 32-bit signed integers.
    Int32,
    /// Text.
    Utf8,
    /// Byte strings.
    Binary,
    /// Lists of 32-bit signed integers.
    List,
}

/// What a column holds: values of a leaf kind, or the rows of a nested
/// table.
pub enum ColumnKind {
    Leaf(LeafKind),
    Nested(SchemaDescriptor),
}

/// One column of a table: its name, its kind and whether it admits nulls.
pub struct ColumnDef {
    pub name: String,
    pub kind: ColumnKind,
    pub nullable: bool,
}

/// The columns of a table, in the order that fixes their indices.
pub struct SchemaDescriptor {
    pub columns: Vec<ColumnDef>,
}

/// The mathematical value of a [`ColumnKind`].
pub enum KindView {
    Leaf(LeafKind),
    Nested(Seq<DefView>),
}

/// The mathematical value of a [`ColumnDef`].
pub struct DefView {
    pub name: Seq<char>,
    pub kind: KindView,
    pub nullable: bool,
}

impl ColumnKind {
    pub open spec fn view(&self) -> KindView
        decreases self,
    {
        match self {
            ColumnKind::Leaf(k) => KindView::Leaf(*k),
            ColumnKind::Nested(s) => KindView::Nested(s.view()),
        }
    }
}

impl ColumnDef {
    pub open spec fn view(&self) -> DefView
        decreases self,
    {
        DefView { name: self.name@, kind: self.kind.view(), nullable: self.nullable }
    }
}

impl SchemaDescriptor {
    /// The column definitions, in order.
    pub open spec fn view(&self) -> Seq<DefView>
        decreases self,
    {
        Seq::new(
            self.columns@.len(),
            |i: int|
                if 0 <= i < self.columns@.len() {
                    self.columns@[i].view()
                } else {
                    arbitrary()
                },
        )
    }

    /// A table without columns.
    pub fn new() -> (r: SchemaDescriptor)
        ensures
            r@ == Seq::<DefView>::empty(),
    {
        let r = SchemaDescriptor { columns: Vec::new() };
        assert(r@ =~= Seq::<DefView>::empty());
        r
    }

    /// This table with one more leaf column at its end.
    pub fn with_column(self, name: &str, kind: LeafKind, nullable: bool) -> (r: SchemaDescriptor)
        ensures
            r@ == self@.push(DefView { name: name@, kind: KindView::Leaf(kind), nullable }),
    {
        let mut columns = self.columns;
        columns.push(ColumnDef { name: String::from_str(name), kind: ColumnKind::Leaf(kind), nullable });
        let r = SchemaDescriptor { columns };
        assert(r@ =~= self@.push(DefView { name: name@, kind: KindView::Leaf(kind), nullable }));
        r
    }

    /// This table with one more column at its end, which holds the rows of
    /// the nested table `table`.
    pub fn with_table(self, name: &str, table: SchemaDescriptor, nullable: bool) -> (r: SchemaDescriptor)
        ensures
            r@ == self@.push(DefView { name: name@, kind: KindView::Nested(table@), nullable }),
    {
        let ghost nested = table@;
        let mut columns = self.columns;
        columns.push(ColumnDef { name: String::from_str(name), kind: ColumnKind::Nested(table), nullable });
        let r = SchemaDescriptor { columns };
        assert(r@ =~= self@.push(DefView { name: name@, kind: KindView::Nested(nested), nullable }));
        r
    }

    /// The number of columns of this table, not counting the columns of
    /// nested tables.
    pub fn column_count(&self) -> (n: usize)
        ensures
            n == self@.len(),
    {
        self.columns.len()
    }

    /// Whether two descriptors describe the same table: the same columns
    /// in the same order, with the same names, kinds and nullability, and
    /// so for every nested table.
    pub fn is_compatible(&self, other: &SchemaDescriptor) -> (r: bool)
        ensures
            r == (self@ == other@),
        decreases self,
    {
        let n: usize = self.columns.len();
        if other.columns.len() != n {
            return false;
        }
        let mut i: usize = 0;
        while i < n
            invariant
                0 <= i <= n,
                self.columns@.len() == n,
                other.columns@.len() == n,
                forall|j: int| 0 <= j < i ==> self@[j] == other@[j],
            decreases n - i,
        {
            let a = &self.columns[i];
            let b = &other.columns[i];
            assert(self@[i as int] == a.view());
            assert(other@[i as int] == b.view());
            let same_kind: bool = match (&a.kind, &b.kind) {
                (ColumnKind::Leaf(x), ColumnKind::Leaf(y)) => *x == *y,
                (ColumnKind::Nested(x), ColumnKind::Nested(y)) => x.is_compatible(y),
                _ => false,
            };
            if !same_kind || a.nullable != b.nullable || a.name != b.name {
                return false;
            }
            i += 1;
        }
        assert(self@ =~= other@);
        true
    }
}

} // verus!
