//! What holds of the definitions that a collection of tables resolves into.

use vstd::prelude::*;
use vstd::multiset::Multiset;
use vstd::seq_lib::lemma_multiset_commutative;
use crate::definition::definitions;
use crate::forest_laws::{forest_tables, lemma_forest_conserves, lemma_forest_roots};
use crate::hierarchy::{forest, inner_leaves, terminal_nodes, Tree};
use crate::schema::Table;

verus! {

/// The tables of the terminal trees in and below the trees of a forest.
pub open spec fn terminal_tables(trees: Seq<Tree>) -> Multiset<Table>
    decreases trees,
{
    if trees.len() == 0 {
        Multiset::empty()
    } else if trees.last().is_terminal() {
        terminal_tables(trees.drop_last()).insert(trees.last().node)
    } else {
        terminal_tables(trees.drop_last()).add(terminal_tables(trees.last().children))
    }
}

/// No two tables of the collection share an identifier.
pub open spec fn distinct_ids(tables: Seq<Table>) -> bool {
    forall|i: int, j: int|
        0 <= i < j < tables.len() ==> (#[trigger] tables[i]).table@ != (#[trigger] tables[j]).table@
}

/// The outer leaves of a tree are the tables of the terminal trees below
/// it, each as often as it occurs; a tree with children has some.
pub proof fn lemma_outer_leaves(t: Tree)
    ensures
        t.outer_leaves().to_multiset() == terminal_tables(t.children),
        !t.is_terminal() ==> t.outer_leaves().len() > 0,
    decreases t,
{
    lemma_leaves_of_children(t.children);
    lemma_multiset_commutative(inner_leaves(t.children), terminal_nodes(t.children));
}

/// What the children of a tree give to its outer leaves are the tables of
/// the terminal trees in and below them.
pub proof fn lemma_leaves_of_children(children: Seq<Tree>)
    ensures
        inner_leaves(children).to_multiset().add(terminal_nodes(children).to_multiset())
            == terminal_tables(children),
        children.len() > 0 ==> inner_leaves(children).len() + terminal_nodes(children).len() > 0,
    decreases children,
{
    broadcast use vstd::seq_lib::group_to_multiset_ensures;

    if children.len() == 0 {
        assert(inner_leaves(children).to_multiset().add(terminal_nodes(children).to_multiset())
            =~= terminal_tables(children));
    } else {
        let front = children.drop_last();
        let last = children.last();
        lemma_leaves_of_children(front);
        if last.is_terminal() {
            assert(inner_leaves(children).to_multiset().add(
                terminal_nodes(children).to_multiset(),
            ) =~= terminal_tables(children));
        } else {
            lemma_outer_leaves(last);
            lemma_multiset_commutative(inner_leaves(front), last.outer_leaves());
            assert(inner_leaves(children).to_multiset().add(
                terminal_nodes(children).to_multiset(),
            ) =~= terminal_tables(children));
        }
    }
}

/// The tables of a forest are those of its last tree and those of the
/// trees before it.
pub proof fn lemma_forest_tables_last(trees: Seq<Tree>)
    requires
        trees.len() > 0,
    ensures
        forest_tables(trees) == forest_tables(trees.drop_last()).add(trees.last().tables()),
    decreases trees.len(),
{
    if trees.len() == 1 {
        assert(trees.skip(1) =~= trees.drop_last());
        assert(forest_tables(trees) =~= forest_tables(trees.drop_last()).add(
            trees.last().tables(),
        ));
    } else {
        let rest = trees.skip(1);
        lemma_forest_tables_last(rest);
        assert(trees.drop_last().skip(1) =~= rest.drop_last());
        assert(forest_tables(trees) =~= forest_tables(trees.drop_last()).add(
            trees.last().tables(),
        ));
    }
}

/// The terminal tables of a forest are among its tables.
pub proof fn lemma_terminal_within(trees: Seq<Tree>)
    ensures
        terminal_tables(trees).subset_of(forest_tables(trees)),
    decreases trees,
{
    if trees.len() > 0 {
        let front = trees.drop_last();
        let last = trees.last();
        lemma_terminal_within(front);
        lemma_forest_tables_last(trees);
        if !last.is_terminal() {
            lemma_terminal_within(last.children);
        }
        assert forall|x: Table| terminal_tables(trees).count(x) <= forest_tables(trees).count(x) by {
            if !last.is_terminal() {
                assert(terminal_tables(last.children).count(x) <= forest_tables(
                    last.children,
                ).count(x));
            }
        }
    }
}

/// Each tree of a forest holds no more than the forest does.
pub proof fn lemma_tree_within(trees: Seq<Tree>, i: int)
    requires
        0 <= i < trees.len(),
    ensures
        trees[i].tables().subset_of(forest_tables(trees)),
    decreases trees.len(),
{
    if i > 0 {
        lemma_tree_within(trees.skip(1), i - 1);
    }
}

/// The base of each definition is a root table of the collection, and a
/// definition is a single table exactly where nothing extends its base in
/// the forest.
pub proof fn lemma_base_is_root(tables: Seq<Table>, i: int)
    requires
        0 <= i < definitions(tables).len(),
    ensures
        definitions(tables)[i].base()@.is_root(),
        tables.contains(definitions(tables)[i].base()),
        definitions(tables)[i] is Single <==> forest(tables).0[i].is_terminal(),
        definitions(tables)[i] is Family ==> definitions(tables)[i].leaves().len() > 0,
{
    lemma_forest_roots(tables);
    lemma_outer_leaves(forest(tables).0[i]);
}

/// Where no two tables of the collection share an identifier, each leaf of
/// a definition is a table of the collection, and its identifier is that of
/// no other leaf and not that of the base.
pub proof fn lemma_leaves_distinct(tables: Seq<Table>, i: int)
    requires
        distinct_ids(tables),
        0 <= i < definitions(tables).len(),
    ensures
        forall|a: int|
            0 <= a < definitions(tables)[i].leaves().len() ==> {
                &&& tables.contains(#[trigger] definitions(tables)[i].leaves()[a])
                &&& definitions(tables)[i].leaves()[a].table@ != definitions(
                    tables,
                )[i].base().table@
            },
        forall|a: int, b: int|
            0 <= a < b < definitions(tables)[i].leaves().len() ==> (#[trigger] definitions(
                tables,
            )[i].leaves()[a]).table@ != (#[trigger] definitions(tables)[i].leaves()[b]).table@,
{
    broadcast use vstd::seq_lib::group_to_multiset_ensures;

    let tree = forest(tables).0[i];
    let leaves = definitions(tables)[i].leaves();
    let all = tables.to_multiset();
    assert(tables.no_duplicates());
    tables.lemma_multiset_has_no_duplicates();
    lemma_forest_conserves(tables);
    lemma_tree_within(forest(tables).0, i);
    if !tree.is_terminal() {
        lemma_outer_leaves(tree);
        lemma_terminal_within(tree.children);
        assert forall|x: Table| leaves.to_multiset().count(x) + Multiset::singleton(
            tree.node,
        ).count(x) <= all.count(x) by {
            assert(forest_tables(forest(tables).0).add(forest(tables).1.to_multiset()).count(x)
                == all.count(x));
        }
        assert forall|x: Table| leaves.to_multiset().contains(x) implies leaves.to_multiset().count(
            x,
        ) == 1 by {
            assert(leaves.to_multiset().count(x) + Multiset::singleton(tree.node).count(x)
                <= all.count(x));
        }
        leaves.lemma_multiset_has_no_duplicates_conv();
        assert forall|a: int| 0 <= a < leaves.len() implies {
            &&& tables.contains(#[trigger] leaves[a])
            &&& leaves[a].table@ != tree.node.table@
        } by {
            let x = leaves[a];
            assert(leaves.to_multiset().count(x) + Multiset::singleton(tree.node).count(x)
                <= all.count(x));
            let y = tree.node;
            assert(leaves.to_multiset().count(y) + Multiset::singleton(tree.node).count(y)
                <= all.count(y));
        }
    }
}

} // verus!
