//! The forest that primary keys used as foreign keys imply, and its
//! collapse into two-level table definitions.

use vstd::prelude::*;
use crate::schema::Table;

verus! {

/// A table with the tables that extend it.
#[derive(Debug)]
pub struct TableNode {
    pub node: Table,
    pub leaves: Vec<TableNode>,
}

/// Mathematical model of a `TableNode`.
pub struct Tree {
    pub node: Table,
    pub children: Seq<Tree>,
}

impl TableNode {
    /// The model of this node: its table, and the models of its children.
    pub open spec fn model(self) -> Tree
        decreases self,
    {
        Tree {
            node: self.node,
            children: Seq::new(
                self.leaves@.len(),
                |i: int|
                    if 0 <= i < self.leaves@.len() {
                        self.leaves@[i].model()
                    } else {
                        arbitrary()
                    },
            ),
        }
    }
}

impl View for TableNode {
    type V = Tree;

    open spec fn view(&self) -> Tree {
        self.model()
    }
}

/// The models of a sequence of nodes.
pub open spec fn forest_view(nodes: Seq<TableNode>) -> Seq<Tree> {
    Seq::new(nodes.len(), |i: int| nodes[i]@)
}

/// The model of a node holds its table and the models of its children.
pub proof fn lemma_node_view(n: TableNode)
    ensures
        n@.node == n.node,
        n@.children == forest_view(n.leaves@),
{
}

impl Tree {
    /// A terminal tree has no children.
    pub open spec fn is_terminal(self) -> bool {
        self.children.len() == 0
    }

    /// The deepest descendants of this tree: what its children with
    /// children of their own contribute, in order, followed by its terminal
    /// children, in order.
    pub open spec fn outer_leaves(self) -> Seq<Table>
        decreases self,
    {
        inner_leaves(self.children) + terminal_nodes(self.children)
    }

    /// What is left of this tree once its outer leaves are popped: the
    /// children with children of their own, each popped in turn.
    pub open spec fn pruned(self) -> Tree
        decreases self,
    {
        Tree { node: self.node, children: pruned_children(self.children) }
    }
}

/// The outer leaves of those of `children` that have children themselves,
/// in order.
pub open spec fn inner_leaves(children: Seq<Tree>) -> Seq<Table>
    decreases children,
{
    if children.len() == 0 {
        Seq::empty()
    } else if children.last().is_terminal() {
        inner_leaves(children.drop_last())
    } else {
        inner_leaves(children.drop_last()) + children.last().outer_leaves()
    }
}

/// The tables of those of `children` that are terminal, in order.
pub open spec fn terminal_nodes(children: Seq<Tree>) -> Seq<Table>
    decreases children.len(),
{
    if children.len() == 0 {
        Seq::empty()
    } else if children.last().is_terminal() {
        terminal_nodes(children.drop_last()).push(children.last().node)
    } else {
        terminal_nodes(children.drop_last())
    }
}

/// Those of `children` that have children themselves, each pruned, in order.
pub open spec fn pruned_children(children: Seq<Tree>) -> Seq<Tree>
    decreases children,
{
    if children.len() == 0 {
        Seq::empty()
    } else if children.last().is_terminal() {
        pruned_children(children.drop_last())
    } else {
        pruned_children(children.drop_last()).push(children.last().pruned())
    }
}

/// Selects the root tables.
pub open spec fn root_tables() -> spec_fn(Table) -> bool {
    |t: Table| t@.is_root()
}

/// Selects the tables that are not roots.
pub open spec fn other_tables() -> spec_fn(Table) -> bool {
    |t: Table| !t@.is_root()
}

/// Selects the tables whose identity column references `parent`.
pub open spec fn extending(parent: Seq<char>) -> spec_fn(Table) -> bool {
    |t: Table| t@.extends(parent)
}

/// Selects the tables whose identity column does not reference `parent`.
pub open spec fn not_extending(parent: Seq<char>) -> spec_fn(Table) -> bool {
    |t: Table| !t@.extends(parent)
}

proof fn lemma_filter_push<A>(s: Seq<A>, x: A, p: spec_fn(A) -> bool)
    ensures
        s.push(x).filter(p) == if p(x) {
            s.filter(p).push(x)
        } else {
            s.filter(p)
        },
{
    reveal(Seq::filter);
    assert(s.push(x).drop_last() =~= s);
}

proof fn lemma_filter_split<A>(s: Seq<A>, p: spec_fn(A) -> bool, q: spec_fn(A) -> bool)
    requires
        forall|x: A| #[trigger] q(x) == !p(x),
    ensures
        s.filter(p).len() + s.filter(q).len() == s.len(),
    decreases s.len(),
{
    reveal(Seq::filter);
    if s.len() > 0 {
        lemma_filter_split(s.drop_last(), p, q);
    }
}

/// The trees grown from `heads`, in order, and the tables that are left.
///
/// Each head claims the tables of `rest` that extend it, each of those claims
/// what extends it among the tables still left, and so on; the next head sees
/// only what the earlier ones left. The remainder never grows (see
/// `lemma_remainder_shrinks`), so the guard on its length always holds.
pub open spec fn grow(heads: Seq<Table>, rest: Seq<Table>) -> (Seq<Tree>, Seq<Table>)
    decreases rest.len(), 1int, heads.len(),
{
    if heads.len() == 0 {
        (Seq::empty(), rest)
    } else {
        let below = descend(heads[0].table@, rest);
        if below.1.len() <= rest.len() {
            let after = grow(heads.skip(1), below.1);
            (seq![Tree { node: heads[0], children: below.0 }] + after.0, after.1)
        } else {
            (Seq::empty(), rest)
        }
    }
}

/// The trees below the table `parent`, built from `tables`, and the tables
/// that are left: the tables that extend `parent` are taken out and grown
/// against the others.
pub open spec fn descend(parent: Seq<char>, tables: Seq<Table>) -> (Seq<Tree>, Seq<Table>)
    decreases tables.len(), 0int, 0int,
    via descend_terminates
{
    let found = tables.filter(extending(parent));
    let others = tables.filter(not_extending(parent));
    if found.len() == 0 {
        (Seq::empty(), others)
    } else {
        grow(found, others)
    }
}

#[via_fn]
proof fn descend_terminates(parent: Seq<char>, tables: Seq<Table>) {
    lemma_filter_split(tables, extending(parent), not_extending(parent));
}

/// The forest of a collection of tables, and its orphans: the roots are
/// taken out, in order, and grown against the other tables.
pub open spec fn forest(tables: Seq<Table>) -> (Seq<Tree>, Seq<Table>) {
    grow(tables.filter(root_tables()), tables.filter(other_tables()))
}

/// The tables that extend a table and those that do not part a collection.
pub proof fn lemma_partition_sizes(tables: Seq<Table>, parent: Seq<char>)
    ensures
        tables.filter(extending(parent)).len() + tables.filter(not_extending(parent)).len()
            == tables.len(),
{
    lemma_filter_split(tables, extending(parent), not_extending(parent));
}

/// Building trees never adds to the tables that are left.
pub proof fn lemma_remainder_shrinks(heads: Seq<Table>, rest: Seq<Table>)
    ensures
        grow(heads, rest).1.len() <= rest.len(),
        grow(heads, rest).0.len() == heads.len(),
    decreases rest.len(), 1int, heads.len(),
{
    if heads.len() > 0 {
        lemma_descend_shrinks(heads[0].table@, rest);
        lemma_remainder_shrinks(heads.skip(1), descend(heads[0].table@, rest).1);
    }
}

/// Descending below a table never adds to the tables that are left.
pub proof fn lemma_descend_shrinks(parent: Seq<char>, tables: Seq<Table>)
    ensures
        descend(parent, tables).1.len() <= tables.len(),
    decreases tables.len(), 0int, 0int,
{
    let found = tables.filter(extending(parent));
    let others = tables.filter(not_extending(parent));
    lemma_filter_split(tables, extending(parent), not_extending(parent));
    if found.len() > 0 {
        lemma_remainder_shrinks(found, others);
    }
}

/// Moves the root tables out of `tables`, keeping the order on both sides.
fn take_roots(tables: &mut Vec<Table>) -> (roots: Vec<Table>)
    ensures
        roots@ == old(tables)@.filter(root_tables()),
        final(tables)@ == old(tables)@.filter(other_tables()),
{
    let ghost all = tables@;
    let ghost mut seen: int = 0;
    let mut roots: Vec<Table> = Vec::new();
    let mut rest: Vec<Table> = Vec::new();
    proof {
        reveal(Seq::filter);
    }
    while tables.len() > 0
        invariant
            0 <= seen <= all.len(),
            tables@ == all.skip(seen),
            roots@ == all.take(seen).filter(root_tables()),
            rest@ == all.take(seen).filter(other_tables()),
        decreases tables.len(),
    {
        let table = tables.remove(0);
        proof {
            assert(all.take(seen + 1) =~= all.take(seen).push(table));
            lemma_filter_push(all.take(seen), table, root_tables());
            lemma_filter_push(all.take(seen), table, other_tables());
            seen = seen + 1;
        }
        if table.is_root() {
            roots.push(table);
        } else {
            rest.push(table);
        }
    }
    proof {
        assert(all.take(seen) =~= all);
    }
    *tables = rest;
    roots
}

/// Moves the tables that extend `parent` out of `tables`, keeping the order
/// on both sides.
fn take_extending(parent: &String, tables: &mut Vec<Table>) -> (found: Vec<Table>)
    ensures
        found@ == old(tables)@.filter(extending(parent@)),
        final(tables)@ == old(tables)@.filter(not_extending(parent@)),
{
    let ghost all = tables@;
    let ghost mut seen: int = 0;
    let mut found: Vec<Table> = Vec::new();
    let mut rest: Vec<Table> = Vec::new();
    proof {
        reveal(Seq::filter);
    }
    while tables.len() > 0
        invariant
            0 <= seen <= all.len(),
            tables@ == all.skip(seen),
            found@ == all.take(seen).filter(extending(parent@)),
            rest@ == all.take(seen).filter(not_extending(parent@)),
        decreases tables.len(),
    {
        let table = tables.remove(0);
        proof {
            assert(all.take(seen + 1) =~= all.take(seen).push(table));
            lemma_filter_push(all.take(seen), table, extending(parent@));
            lemma_filter_push(all.take(seen), table, not_extending(parent@));
            seen = seen + 1;
        }
        if table.extends(parent) {
            found.push(table);
        } else {
            rest.push(table);
        }
    }
    proof {
        assert(all.take(seen) =~= all);
    }
    *tables = rest;
    found
}

impl TableNode {
    /// Builds the trees below `node` from `tables`: the tables that extend
    /// `node` leave `tables` and become its children, each with the trees
    /// below it built the same way from what is still left.
    pub fn construct_leaves(node: &Table, tables: &mut Vec<Table>) -> (leaves: Vec<TableNode>)
        ensures
            forest_view(leaves@) == descend(node.table@, old(tables)@).0,
            final(tables)@ == descend(node.table@, old(tables)@).1,
            final(tables)@.len() <= old(tables)@.len(),
        decreases old(tables)@.len(), 0int, 0int,
    {
        let ghost before = tables@;
        let found = take_extending(&node.table, tables);
        proof {
            lemma_filter_split(before, extending(node.table@), not_extending(node.table@));
        }
        if found.len() == 0 {
            let leaves: Vec<TableNode> = Vec::new();
            return leaves;
        }
        Self::attach(found, tables)
    }

    /// Makes each of `heads` a node, in order, with the trees below it built
    /// from what the earlier heads left of `tables`.
    fn attach(heads: Vec<Table>, tables: &mut Vec<Table>) -> (trees: Vec<TableNode>)
        ensures
            forest_view(trees@) == grow(heads@, old(tables)@).0,
            final(tables)@ == grow(heads@, old(tables)@).1,
            final(tables)@.len() <= old(tables)@.len(),
        decreases old(tables)@.len(), 1int, heads@.len(),
    {
        let ghost all_heads = heads@;
        let ghost all_tables = tables@;
        let mut pending = heads;
        let mut trees: Vec<TableNode> = Vec::new();
        while pending.len() > 0
            invariant
                all_tables == old(tables)@,
                tables@.len() <= all_tables.len(),
                grow(all_heads, all_tables).0 == forest_view(trees@) + grow(pending@, tables@).0,
                grow(all_heads, all_tables).1 == grow(pending@, tables@).1,
            decreases pending.len(),
        {
            let ghost trees_before = trees@;
            let head = pending.remove(0);
            let leaves = Self::construct_leaves(&head, tables);
            let node = TableNode { node: head, leaves };
            proof {
                lemma_node_view(node);
                let step = seq![node@];
                assert((forest_view(trees_before) + step) + grow(pending@, tables@).0 =~= forest_view(
                    trees_before,
                ) + (step + grow(pending@, tables@).0));
            }
            trees.push(node);
        }
        trees
    }

    /// Splits `tables` into the forest of its root tables and the orphans:
    /// the tables that are neither a root nor reached from one.
    pub fn into_trees(tables: Vec<Table>) -> (r: (Vec<TableNode>, Vec<Table>))
        ensures
            forest_view(r.0@) == forest(tables@).0,
            r.1@ == forest(tables@).1,
    {
        let mut tables = tables;
        let roots = take_roots(&mut tables);
        let trees = Self::attach(roots, &mut tables);
        (trees, tables)
    }

    /// Pops the deepest descendants of this node. A node without children
    /// gives `None` and stays as it is. Otherwise each child with children
    /// of its own is popped in turn and stays, each terminal child leaves,
    /// and the result holds what the popped children gave, followed by the
    /// tables of the terminal children.
    pub fn pop_outer_leaves(&mut self) -> (popped: Option<Vec<Table>>)
        ensures
            old(self)@.is_terminal() ==> popped.is_none() && *final(self) == *old(self),
            !old(self)@.is_terminal() ==> popped.is_some() && popped.unwrap()@ == old(
                self,
            )@.outer_leaves() && final(self)@ == old(self)@.pruned(),
        decreases old(self)@,
    {
        if self.leaves.len() == 0 {
            return None;
        }
        let ghost before = self@;
        let ghost children = forest_view(self.leaves@);
        let ghost mut seen: int = 0;
        let mut pending: Vec<TableNode> = Vec::new();
        std::mem::swap(&mut self.leaves, &mut pending);
        let mut kept: Vec<TableNode> = Vec::new();
        let mut inner: Vec<Table> = Vec::new();
        let mut terminal: Vec<Table> = Vec::new();
        while pending.len() > 0
            invariant
                before == old(self)@,
                children == before.children,
                0 <= seen <= children.len(),
                forest_view(pending@) == children.skip(seen),
                inner@ == inner_leaves(children.take(seen)),
                terminal@ == terminal_nodes(children.take(seen)),
                forest_view(kept@) == pruned_children(children.take(seen)),
            decreases pending.len(),
        {
            let ghost pending_before = pending@;
            let mut child = pending.remove(0);
            proof {
                assert(forest_view(pending_before).len() == pending_before.len());
                assert(children.skip(seen)[0] == children[seen]);
                assert(children.take(seen + 1).drop_last() =~= children.take(seen));
                assert forall|i: int| 0 <= i < pending@.len() implies forest_view(pending@)[i]
                    == children.skip(seen + 1)[i] by {
                    assert(forest_view(pending_before)[i + 1] == children.skip(seen)[i + 1]);
                }
            }
            match child.pop_outer_leaves() {
                Some(mut leaves) => {
                    inner.append(&mut leaves);
                    kept.push(child);
                },
                None => {
                    terminal.push(child.node);
                },
            }
            proof {
                seen = seen + 1;
            }
        }
        proof {
            assert(children.take(seen) =~= children);
        }
        inner.append(&mut terminal);
        self.leaves = kept;
        proof {
            lemma_node_view(*self);
        }
        Some(inner)
    }
}

} // verus!
