//! Two-level table definitions: a single table, or a base table with the
//! leaf tables that extend it.

use vstd::prelude::*;
use crate::hierarchy::{forest, forest_view, lemma_node_view, TableNode, Tree};
use crate::schema::Table;

verus! {

/// A single table, or a family: a base table and its leaf tables.
#[derive(Debug, Clone)]
pub enum TableDefinition {
    Single(Table),
    Family { base: Table, leaves: Vec<Table> },
}

/// Why a collection of tables does not resolve into definitions.
#[derive(Debug, Clone)]
pub enum SchemaError {
    /// These tables are no roots and no root reaches them: they extend a
    /// table that is not there, or each other in a circle.
    Orphaned(Vec<Table>),
}

/// Mathematical model of a `TableDefinition`.
pub enum DefinitionModel {
    Single(Table),
    Family { base: Table, leaves: Seq<Table> },
}

impl View for TableDefinition {
    type V = DefinitionModel;

    open spec fn view(&self) -> DefinitionModel {
        match *self {
            TableDefinition::Single(table) => DefinitionModel::Single(table),
            TableDefinition::Family { base, leaves } => DefinitionModel::Family {
                base,
                leaves: leaves@,
            },
        }
    }
}

impl DefinitionModel {
    /// The single table, or the base of the family.
    pub open spec fn base(self) -> Table {
        match self {
            DefinitionModel::Single(table) => table,
            DefinitionModel::Family { base, leaves } => base,
        }
    }

    /// The leaves of a family; a single table has none.
    pub open spec fn leaves(self) -> Seq<Table> {
        match self {
            DefinitionModel::Single(table) => Seq::empty(),
            DefinitionModel::Family { base, leaves } => leaves,
        }
    }

    /// `i` is the position of the first leaf whose identifier is `id`.
    pub open spec fn is_first_leaf(self, id: Seq<char>, i: int) -> bool {
        &&& 0 <= i < self.leaves().len()
        &&& self.leaves()[i].table@ == id
        &&& forall|j: int| 0 <= j < i ==> (#[trigger] self.leaves()[j]).table@ != id
    }

    /// The table with identifier `id`: the base if it has that identifier,
    /// else the first leaf that has it, else nothing.
    pub open spec fn lookup(self, id: Seq<char>) -> Option<Table> {
        if self.base().table@ == id {
            Some(self.base())
        } else if exists|i: int| self.is_first_leaf(id, i) {
            Some(self.leaves()[choose|i: int| self.is_first_leaf(id, i)])
        } else {
            None
        }
    }
}

impl Tree {
    /// The definition that a tree collapses into: a single table where the
    /// tree has no children, else a family of its table and its outer leaves.
    pub open spec fn definition(self) -> DefinitionModel {
        if self.is_terminal() {
            DefinitionModel::Single(self.node)
        } else {
            DefinitionModel::Family { base: self.node, leaves: self.outer_leaves() }
        }
    }
}

/// The definitions of a collection of tables: one for each tree of its
/// forest, in order.
pub open spec fn definitions(tables: Seq<Table>) -> Seq<DefinitionModel> {
    Seq::new(forest(tables).0.len(), |i: int| forest(tables).0[i].definition())
}

/// The models of a sequence of definitions.
pub open spec fn definitions_view(defs: Seq<TableDefinition>) -> Seq<DefinitionModel> {
    Seq::new(defs.len(), |i: int| defs[i]@)
}

impl TableDefinition {
    /// Resolves a collection of tables into definitions, one for each root
    /// table. Tables that no root reaches are left out.
    pub fn from_vec(tables: Vec<Table>) -> (defs: Vec<Self>)
        ensures
            definitions_view(defs@) == definitions(tables@),
    {
        let (trees, _) = TableNode::into_trees(tables);
        let defs = Self::collapse(trees);
        defs
    }

    /// Resolves a collection of tables into definitions, one for each root
    /// table, and fails with the orphans where a table is in no definition.
    pub fn try_from_vec(tables: Vec<Table>) -> (r: Result<Vec<Self>, SchemaError>)
        ensures
            match r {
                Ok(defs) => forest(tables@).1.len() == 0 && definitions_view(defs@) == definitions(
                    tables@,
                ),
                Err(SchemaError::Orphaned(orphans)) => orphans@.len() > 0 && orphans@ == forest(
                    tables@,
                ).1,
            },
    {
        let (trees, orphans) = TableNode::into_trees(tables);
        if orphans.len() > 0 {
            return Err(SchemaError::Orphaned(orphans));
        }
        let defs = Self::collapse(trees);
        Ok(defs)
    }

    /// Collapses each tree into its definition.
    fn collapse(trees: Vec<TableNode>) -> (defs: Vec<Self>)
        ensures
            defs@.len() == trees@.len(),
            forall|i: int| 0 <= i < defs@.len() ==> (#[trigger] defs@[i])@ == trees@[i]@.definition(),
    {
        let ghost all = forest_view(trees@);
        let ghost mut seen: int = 0;
        let mut pending = trees;
        let mut defs: Vec<TableDefinition> = Vec::new();
        while pending.len() > 0
            invariant
                all == forest_view(trees@),
                0 <= seen <= all.len(),
                pending@.len() == all.len() - seen,
                forall|i: int| 0 <= i < pending@.len() ==> (#[trigger] pending@[i])@ == all[seen + i],
                defs@.len() == seen,
                forall|i: int| 0 <= i < seen ==> (#[trigger] defs@[i])@ == all[i].definition(),
            decreases pending.len(),
        {
            let mut tree = pending.remove(0);
            let def = match tree.pop_outer_leaves() {
                Some(leaves) => TableDefinition::Family { base: tree.node, leaves },
                None => TableDefinition::Single(tree.node),
            };
            proof {
                seen = seen + 1;
            }
            defs.push(def);
        }
        defs
    }

    /// The single table, or the base of the family.
    pub fn get_base(&self) -> (base: &Table)
        ensures
            *base == self@.base(),
    {
        match self {
            TableDefinition::Single(table) => table,
            TableDefinition::Family { base, leaves: _ } => base,
        }
    }

    /// The leaves of a family, or `None` for a single table.
    pub fn get_leaves(&self) -> (leaves: Option<&Vec<Table>>)
        ensures
            match leaves {
                Some(v) => self@ == (DefinitionModel::Family { base: self@.base(), leaves: v@ }),
                None => self@ is Single,
            },
    {
        match self {
            TableDefinition::Single(_) => None,
            TableDefinition::Family { base: _, leaves } => Some(leaves),
        }
    }

    /// Resolves a table identifier within this definition: the base if it
    /// has that identifier, else the first leaf that has it.
    pub fn get(&self, table_name: &str) -> (found: Option<&Table>)
        ensures
            match found {
                Some(table) => self@.lookup(table_name@) == Some(*table),
                None => self@.lookup(table_name@).is_none(),
            },
    {
        let name = table_name.to_owned();
        let base = self.get_base();
        if base.table == name {
            return Some(base);
        }
        match self.get_leaves() {
            None => None,
            Some(leaves) => {
                let mut i: usize = 0;
                while i < leaves.len()
                    invariant
                        i <= leaves.len(),
                        leaves@ == self@.leaves(),
                        name@ == table_name@,
                        self@.base().table@ != name@,
                        forall|j: int| 0 <= j < i ==> (#[trigger] leaves@[j]).table@ != name@,
                    decreases leaves.len() - i,
                {
                    if leaves[i].table == name {
                        proof {
                            assert(self@.is_first_leaf(name@, i as int));
                            let k = choose|k: int| self@.is_first_leaf(name@, k);
                            if k < i {
                                assert(leaves@[k].table@ != name@);
                            } else if k > i {
                                assert(self@.leaves()[i as int].table@ == name@);
                            }
                        }
                        return Some(&leaves[i]);
                    }
                    i += 1;
                }
                None
            },
        }
    }
}

/// `i` is the position of the first definition that holds a table with the
/// identifier `id`.
pub open spec fn is_first_holder(definitions: Seq<TableDefinition>, id: Seq<char>, i: int) -> bool {
    &&& 0 <= i < definitions.len()
    &&& definitions[i]@.lookup(id) is Some
    &&& forall|j: int| 0 <= j < i ==> (#[trigger] definitions[j])@.lookup(id) is None
}

/// The table with the identifier `id` in the first definition that holds
/// one.
pub open spec fn found_table(definitions: Seq<TableDefinition>, id: Seq<char>) -> Option<Table> {
    if exists|i: int| is_first_holder(definitions, id, i) {
        definitions[choose|i: int| is_first_holder(definitions, id, i)]@.lookup(id)
    } else {
        None
    }
}

/// Resolves a table identifier within a sequence of definitions: the
/// first definition that holds a table with the identifier gives it.
pub fn find_table<'a>(definitions: &'a Vec<TableDefinition>, table_name: &str) -> (found: Option<
    &'a Table,
>)
    ensures
        match found {
            Some(table) => found_table(definitions@, table_name@) == Some(*table),
            None => found_table(definitions@, table_name@).is_none(),
        },
{
    let mut i: usize = 0;
    while i < definitions.len()
        invariant
            i <= definitions@.len(),
            forall|j: int| 0 <= j < i ==> (#[trigger] definitions@[j])@.lookup(table_name@) is None,
        decreases definitions.len() - i,
    {
        if let Some(table) = definitions[i].get(table_name) {
            proof {
                assert(is_first_holder(definitions@, table_name@, i as int));
                let k = choose|k: int| is_first_holder(definitions@, table_name@, k);
                if k < i {
                    assert(definitions@[k]@.lookup(table_name@) is None);
                } else if k > i {
                    assert(definitions@[i as int]@.lookup(table_name@) is Some);
                }
            }
            return Some(table);
        }
        i += 1;
    }
    proof {
        if exists|k: int| is_first_holder(definitions@, table_name@, k) {
            let k = choose|k: int| is_first_holder(definitions@, table_name@, k);
            assert(definitions@[k]@.lookup(table_name@) is None);
        }
    }
    None
}

/// Looking up the identifier of the base gives the base.
pub proof fn lemma_lookup_base(d: DefinitionModel)
    ensures
        d.lookup(d.base().table@) == Some(d.base()),
{
}

/// Looking up the identifier of a leaf gives a table with that identifier:
/// the base or a leaf.
pub proof fn lemma_lookup_leaf(d: DefinitionModel, i: int)
    requires
        0 <= i < d.leaves().len(),
    ensures
        d.lookup(d.leaves()[i].table@) is Some,
        d.lookup(d.leaves()[i].table@).unwrap().table@ == d.leaves()[i].table@,
        d.lookup(d.leaves()[i].table@).unwrap() == d.base() || d.leaves().contains(
            d.lookup(d.leaves()[i].table@).unwrap(),
        ),
{
    let id = d.leaves()[i].table@;
    if d.base().table@ != id {
        lemma_first_leaf_exists(d, id, i);
    }
}

/// Where no other leaf and not the base has the identifier of a leaf,
/// looking it up gives that leaf.
pub proof fn lemma_lookup_own_leaf(d: DefinitionModel, i: int)
    requires
        0 <= i < d.leaves().len(),
        d.base().table@ != d.leaves()[i].table@,
        forall|j: int|
            0 <= j < d.leaves().len() && j != i ==> (#[trigger] d.leaves()[j]).table@
                != d.leaves()[i].table@,
    ensures
        d.lookup(d.leaves()[i].table@) == Some(d.leaves()[i]),
{
    let id = d.leaves()[i].table@;
    assert(d.is_first_leaf(id, i));
    let k = choose|k: int| d.is_first_leaf(id, k);
    if k != i {
        assert(d.leaves()[k].table@ != id);
    }
}

/// Looking up an identifier that neither the base nor a leaf has gives
/// nothing.
pub proof fn lemma_lookup_unrelated(d: DefinitionModel, id: Seq<char>)
    requires
        d.base().table@ != id,
        forall|i: int| 0 <= i < d.leaves().len() ==> (#[trigger] d.leaves()[i]).table@ != id,
    ensures
        d.lookup(id).is_none(),
{
}

proof fn lemma_first_leaf_exists(d: DefinitionModel, id: Seq<char>, i: int)
    requires
        0 <= i < d.leaves().len(),
        d.leaves()[i].table@ == id,
    ensures
        exists|k: int| d.is_first_leaf(id, k),
    decreases i,
{
    if exists|j: int| 0 <= j < i && (#[trigger] d.leaves()[j]).table@ == id {
        let j = choose|j: int| 0 <= j < i && (#[trigger] d.leaves()[j]).table@ == id;
        lemma_first_leaf_exists(d, id, j);
    } else {
        assert(d.is_first_leaf(id, i));
    }
}

} // verus!
