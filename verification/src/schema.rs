//! Table schemas and the predicates that classify them.

use vstd::prelude::*;
use crate::text::{pretty, pretty_text};

verus! {

/// The declared type of a column.
#[derive(Debug, Clone, Copy, PartialEq, Eq, Hash, Structural)]
pub enum ColumnType {
    Bool,
    Int,
    Float,
    String,
}

/// A reference from a column to a column of another table.
#[derive(Debug, Clone)]
pub struct TableColumnForeignKey {
    pub table: String,
    pub column: String,
}

/// One column of a table schema.
#[derive(Debug, Clone)]
pub struct TableColumn {
    pub name: String,
    pub ty: ColumnType,
    pub optional: bool,
    pub primary_key: bool,
    pub foreign_keys: Vec<TableColumnForeignKey>,
    pub mapper: Option<String>,
}

/// A table schema: display name, stable identifier, optional polymorphic
/// marker column, and the columns in declaration order.
#[derive(Debug, Clone)]
pub struct Table {
    pub name: String,
    pub table: String,
    pub polymorphic: Option<String>,
    pub columns: Vec<TableColumn>,
}

/// Mathematical model of a foreign-key reference.
pub struct KeyModel {
    pub table: Seq<char>,
    pub column: Seq<char>,
}

/// Mathematical model of a column.
pub struct ColumnModel {
    pub name: Seq<char>,
    pub ty: ColumnType,
    pub optional: bool,
    pub primary_key: bool,
    pub foreign_keys: Seq<KeyModel>,
    pub mapper: Option<Seq<char>>,
}

/// Mathematical model of a table schema.
pub struct TableModel {
    pub name: Seq<char>,
    pub table: Seq<char>,
    pub polymorphic: Option<Seq<char>>,
    pub columns: Seq<ColumnModel>,
}

impl View for TableColumnForeignKey {
    type V = KeyModel;

    open spec fn view(&self) -> KeyModel {
        KeyModel { table: self.table@, column: self.column@ }
    }
}

impl View for TableColumn {
    type V = ColumnModel;

    open spec fn view(&self) -> ColumnModel {
        ColumnModel {
            name: self.name@,
            ty: self.ty,
            optional: self.optional,
            primary_key: self.primary_key,
            foreign_keys: Seq::new(self.foreign_keys@.len(), |k: int| self.foreign_keys@[k]@),
            mapper: match self.mapper {
                Some(m) => Some(m@),
                None => None,
            },
        }
    }
}

impl View for Table {
    type V = TableModel;

    open spec fn view(&self) -> TableModel {
        TableModel {
            name: self.name@,
            table: self.table@,
            polymorphic: match self.polymorphic {
                Some(p) => Some(p@),
                None => None,
            },
            columns: Seq::new(self.columns@.len(), |i: int| self.columns@[i]@),
        }
    }
}

impl ColumnModel {
    /// Some foreign key of this column references the table `parent`.
    pub open spec fn references(self, parent: Seq<char>) -> bool {
        exists|k: int| 0 <= k < self.foreign_keys.len() && #[trigger] self.foreign_keys[k].table == parent
    }
}

impl TableModel {
    /// `i` is the position of the first column marked as primary key.
    pub open spec fn is_identity_index(self, i: int) -> bool {
        &&& 0 <= i < self.columns.len()
        &&& self.columns[i].primary_key
        &&& forall|j: int| 0 <= j < i ==> !(#[trigger] self.columns[j]).primary_key
    }

    /// Some column is marked as primary key.
    pub open spec fn has_identity(self) -> bool {
        exists|i: int| 0 <= i < self.columns.len() && (#[trigger] self.columns[i]).primary_key
    }

    /// The identity column: the first column marked as primary key, if any.
    pub open spec fn identity_column(self) -> Option<ColumnModel> {
        if exists|i: int| self.is_identity_index(i) {
            Some(self.columns[choose|i: int| self.is_identity_index(i)])
        } else {
            None
        }
    }

    /// A root table has no identity column, or one without foreign keys.
    pub open spec fn is_root(self) -> bool {
        match self.identity_column() {
            None => true,
            Some(c) => c.foreign_keys.len() == 0,
        }
    }

    /// The identity column of this table references the table `parent`.
    pub open spec fn extends(self, parent: Seq<char>) -> bool {
        match self.identity_column() {
            None => false,
            Some(c) => c.references(parent),
        }
    }
}

/// A table is a root exactly if it has no column marked as primary key,
/// or the first such column has no foreign keys.
pub proof fn lemma_root_classification(t: TableModel)
    ensures
        !t.has_identity() ==> t.is_root(),
        t.has_identity() <==> exists|i: int| t.is_identity_index(i),
        forall|i: int|
            t.is_identity_index(i) ==> (t.is_root() <==> (#[trigger] t.columns[i]).foreign_keys.len()
                == 0),
{
    if t.has_identity() {
        let k = choose|k: int| 0 <= k < t.columns.len() && (#[trigger] t.columns[k]).primary_key;
        lemma_first_key(t, k);
    }
    assert forall|i: int| t.is_identity_index(i) implies (t.is_root() <==> (
    #[trigger] t.columns[i]).foreign_keys.len() == 0) by {
        let j = choose|j: int| t.is_identity_index(j);
        if j < i {
            assert(!t.columns[j].primary_key);
        } else if i < j {
            assert(!t.columns[i].primary_key);
        }
    }
}

proof fn lemma_first_key(t: TableModel, k: int)
    requires
        0 <= k < t.columns.len(),
        t.columns[k].primary_key,
    ensures
        exists|i: int| t.is_identity_index(i),
    decreases k,
{
    if exists|j: int| 0 <= j < k && (#[trigger] t.columns[j]).primary_key {
        let j = choose|j: int| 0 <= j < k && (#[trigger] t.columns[j]).primary_key;
        lemma_first_key(t, j);
    } else {
        assert(t.is_identity_index(k));
    }
}

/// A root table extends nothing.
pub proof fn lemma_root_extends_nothing(t: TableModel, parent: Seq<char>)
    requires
        t.is_root(),
    ensures
        !t.extends(parent),
{
}

impl TableColumn {
    /// Whether some foreign key of this column references the table `parent`.
    pub fn references(&self, parent: &String) -> (b: bool)
        ensures
            b == self@.references(parent@),
    {
        let mut k: usize = 0;
        while k < self.foreign_keys.len()
            invariant
                k <= self.foreign_keys.len(),
                forall|j: int| 0 <= j < k ==> (#[trigger] self@.foreign_keys[j]).table != parent@,
            decreases self.foreign_keys.len() - k,
        {
            if self.foreign_keys[k].table == *parent {
                assert(self@.foreign_keys[k as int].table == parent@);
                return true;
            }
            k += 1;
        }
        false
    }
}

/// Selects the columns that are not the polymorphic marker of a table.
pub open spec fn unmarked(polymorphic: Option<String>) -> spec_fn(TableColumn) -> bool {
    |column: TableColumn|
        match polymorphic {
            Some(marker) => column.name@ != marker@,
            None => true,
        }
}

impl Table {
    /// The columns to show, in order: all but the polymorphic marker.
    pub fn shown_columns(&self) -> (columns: Vec<&TableColumn>)
        ensures
            columns@.len() == self.columns@.filter(unmarked(self.polymorphic)).len(),
            forall|i: int|
                0 <= i < columns@.len() ==> *(#[trigger] columns@[i]) == self.columns@.filter(
                    unmarked(self.polymorphic),
                )[i],
    {
        let ghost keep = unmarked(self.polymorphic);
        let mut columns: Vec<&TableColumn> = Vec::new();
        let mut i: usize = 0;
        proof {
            reveal(Seq::filter);
        }
        while i < self.columns.len()
            invariant
                i <= self.columns@.len(),
                keep == unmarked(self.polymorphic),
                columns@.len() == self.columns@.take(i as int).filter(keep).len(),
                forall|k: int|
                    0 <= k < columns@.len() ==> *(#[trigger] columns@[k]) == self.columns@.take(
                        i as int,
                    ).filter(keep)[k],
            decreases self.columns.len() - i,
        {
            let column = &self.columns[i];
            let shown = match &self.polymorphic {
                Some(marker) => !(column.name == *marker),
                None => true,
            };
            proof {
                reveal(Seq::filter);
                let next = self.columns@.take(i + 1);
                assert(next.drop_last() =~= self.columns@.take(i as int));
            }
            if shown {
                columns.push(column);
            }
            i += 1;
        }
        proof {
            assert(self.columns@.take(i as int) =~= self.columns@);
        }
        columns
    }

    /// The display form of the table identifier: underscores become
    /// spaces, and the first character is put in upper case.
    pub fn pretty_name(&self) -> (name: String)
        ensures
            name@ == pretty(self.table@),
    {
        pretty_text(self.table.as_str())
    }

    /// The identity column: the first column marked as primary key.
    pub fn identity_column(&self) -> (r: Option<&TableColumn>)
        ensures
            match r {
                Some(c) => self@.identity_column() == Some(c@),
                None => self@.identity_column().is_none(),
            },
    {
        let mut i: usize = 0;
        while i < self.columns.len()
            invariant
                i <= self.columns.len(),
                forall|j: int| 0 <= j < i ==> !(#[trigger] self@.columns[j]).primary_key,
            decreases self.columns.len() - i,
        {
            if self.columns[i].primary_key {
                assert(self@.is_identity_index(i as int));
                return Some(&self.columns[i]);
            }
            i += 1;
        }
        None
    }

    /// Whether this table is a root: it has no identity column, or its
    /// identity column has no foreign keys.
    pub fn is_root(&self) -> (b: bool)
        ensures
            b == self@.is_root(),
    {
        match self.identity_column() {
            None => true,
            Some(c) => c.foreign_keys.len() == 0,
        }
    }

    /// Whether the identity column of this table references `parent`.
    pub fn extends(&self, parent: &String) -> (b: bool)
        ensures
            b == self@.extends(parent@),
    {
        match self.identity_column() {
            None => false,
            Some(c) => c.references(parent),
        }
    }
}

} // verus!
