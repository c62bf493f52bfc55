//! What holds of every forest that the tables of a collection grow into.

use vstd::prelude::*;
use vstd::multiset::Multiset;
use vstd::seq_lib::lemma_multiset_commutative;
use crate::hierarchy::{
    descend, extending, forest, grow, lemma_remainder_shrinks, not_extending, other_tables,
    root_tables, Tree,
};
use crate::schema::Table;

verus! {

impl Tree {
    /// Each child extends its parent, here and in every tree below.
    pub open spec fn linked(self) -> bool
        decreases self,
    {
        forall|i: int|
            0 <= i < self.children.len() ==> {
                &&& (#[trigger] self.children[i]).node@.extends(self.node.table@)
                &&& self.children[i].linked()
            }
    }

    /// The tables of the tree: its own and those of the trees below.
    pub open spec fn tables(self) -> Multiset<Table>
        decreases self,
    {
        Multiset::singleton(self.node).add(forest_tables(self.children))
    }
}

/// The tables of the trees of a forest.
pub open spec fn forest_tables(trees: Seq<Tree>) -> Multiset<Table>
    decreases trees,
{
    if trees.len() == 0 {
        Multiset::empty()
    } else {
        trees[0].tables().add(forest_tables(trees.skip(1)))
    }
}

/// The trees grown from `heads` stand on the heads, in order, and in each
/// of them every child extends its parent. What is left was in `rest`.
pub proof fn lemma_grow_linked(heads: Seq<Table>, rest: Seq<Table>)
    ensures
        grow(heads, rest).0.len() == heads.len(),
        forall|i: int|
            0 <= i < heads.len() ==> (#[trigger] grow(heads, rest).0[i]).node == heads[i] && grow(
                heads,
                rest,
            ).0[i].linked(),
        forall|x: Table| #[trigger] grow(heads, rest).1.contains(x) ==> rest.contains(x),
    decreases rest.len(), 1int, heads.len(),
{
    if heads.len() > 0 {
        let below = descend(heads[0].table@, rest);
        lemma_descend_linked(heads[0].table@, rest);
        crate::hierarchy::lemma_descend_shrinks(heads[0].table@, rest);
        lemma_grow_linked(heads.skip(1), below.1);
    }
}

/// The trees below a table stand on tables that extend it, and in each of
/// them every child extends its parent. What is left was in `tables` and
/// does not extend the table.
pub proof fn lemma_descend_linked(parent: Seq<char>, tables: Seq<Table>)
    ensures
        forall|i: int|
            0 <= i < descend(parent, tables).0.len() ==> (#[trigger] descend(
                parent,
                tables,
            ).0[i]).node@.extends(parent) && descend(parent, tables).0[i].linked(),
        forall|x: Table| #[trigger]
            descend(parent, tables).1.contains(x) ==> tables.contains(x) && !x@.extends(parent),
    decreases tables.len(), 0int, 0int,
{
    let found = tables.filter(extending(parent));
    let others = tables.filter(not_extending(parent));
    lemma_filter_members(tables, not_extending(parent));
    crate::hierarchy::lemma_partition_sizes(tables, parent);
    if found.len() > 0 {
        lemma_grow_linked(found, others);
    }
}

/// What a filter keeps are the members that meet the condition.
pub proof fn lemma_filter_members<A>(s: Seq<A>, p: spec_fn(A) -> bool)
    ensures
        forall|x: A| s.filter(p).contains(x) <==> s.contains(x) && p(x),
{
    assert forall|x: A| s.filter(p).contains(x) <==> s.contains(x) && p(x) by {
        if s.filter(p).contains(x) {
            let i = choose|i: int| 0 <= i < s.filter(p).len() && s.filter(p)[i] == x;
            s.lemma_filter_pred(p, i);
            s.lemma_filter_contains_rev(p, x);
        }
        if s.contains(x) && p(x) {
            let j = choose|j: int| 0 <= j < s.len() && s[j] == x;
            s.lemma_filter_contains(p, j);
        }
    }
}

/// The trees of a forest stand on the root tables of the collection, in
/// the order of the collection; in each tree every child extends its
/// parent; and each orphan is a table of the collection that is no root.
pub proof fn lemma_forest_roots(tables: Seq<Table>)
    ensures
        forest(tables).0.len() == tables.filter(root_tables()).len(),
        forall|i: int|
            0 <= i < forest(tables).0.len() ==> {
                &&& (#[trigger] forest(tables).0[i]).node == tables.filter(root_tables())[i]
                &&& forest(tables).0[i].node@.is_root()
                &&& tables.contains(forest(tables).0[i].node)
                &&& forest(tables).0[i].linked()
            },
        forall|x: Table| #[trigger]
            forest(tables).1.contains(x) ==> tables.contains(x) && !x@.is_root(),
{
    let roots = tables.filter(root_tables());
    let others = tables.filter(other_tables());
    lemma_grow_linked(roots, others);
    lemma_filter_members(tables, root_tables());
    lemma_filter_members(tables, other_tables());
}

/// The members that meet a condition and those that do not, taken
/// together, are the members.
pub proof fn lemma_filter_conserves<A>(s: Seq<A>, p: spec_fn(A) -> bool, q: spec_fn(A) -> bool)
    requires
        forall|x: A| #[trigger] q(x) == !p(x),
    ensures
        s.filter(p).to_multiset().add(s.filter(q).to_multiset()) == s.to_multiset(),
    decreases s.len(),
{
    broadcast use vstd::seq_lib::group_to_multiset_ensures;

    reveal(Seq::filter);
    if s.len() > 0 {
        let front = s.drop_last();
        lemma_filter_conserves(front, p, q);
        assert(front.push(s.last()) =~= s);
    }
}

/// The tables of a sequence that starts with `first` are `first` and the
/// tables of what follows.
proof fn lemma_multiset_first(s: Seq<Table>)
    requires
        s.len() > 0,
    ensures
        s.to_multiset() == Multiset::singleton(s[0]).add(s.skip(1).to_multiset()),
{
    broadcast use vstd::seq_lib::group_to_multiset_ensures;

    let head = Seq::<Table>::empty().push(s[0]);
    assert(head + s.skip(1) =~= s);
    lemma_multiset_commutative(head, s.skip(1));
}

/// Growing trees loses no table and makes none: the tables of the trees
/// and the tables left are the heads and the tables given.
pub proof fn lemma_grow_conserves(heads: Seq<Table>, rest: Seq<Table>)
    ensures
        forest_tables(grow(heads, rest).0).add(grow(heads, rest).1.to_multiset())
            == heads.to_multiset().add(rest.to_multiset()),
    decreases rest.len(), 1int, heads.len(),
{
    broadcast use vstd::seq_lib::group_to_multiset_ensures;

    if heads.len() == 0 {
        assert(forest_tables(grow(heads, rest).0).add(grow(heads, rest).1.to_multiset())
            =~= heads.to_multiset().add(rest.to_multiset()));
    } else {
        let below = descend(heads[0].table@, rest);
        crate::hierarchy::lemma_descend_shrinks(heads[0].table@, rest);
        lemma_descend_conserves(heads[0].table@, rest);
        lemma_grow_conserves(heads.skip(1), below.1);
        let after = grow(heads.skip(1), below.1);
        let first = Tree { node: heads[0], children: below.0 };
        let trees = seq![first] + after.0;
        assert(trees.skip(1) =~= after.0);
        lemma_multiset_first(heads);
        let head = Multiset::singleton(heads[0]);
        assert(first.tables() == head.add(forest_tables(below.0)));
        assert(forest_tables(after.0).add(after.1.to_multiset()) == heads.skip(1).to_multiset().add(
            below.1.to_multiset(),
        ));
        assert forall|t: Table|
            forest_tables(trees).add(after.1.to_multiset()).count(t) == heads.to_multiset().add(
                rest.to_multiset(),
            ).count(t) by {
            assert(forest_tables(below.0).add(below.1.to_multiset()).count(t)
                == rest.to_multiset().count(t));
            assert(forest_tables(after.0).add(after.1.to_multiset()).count(t)
                == heads.skip(1).to_multiset().add(below.1.to_multiset()).count(t));
        }
        assert(forest_tables(trees).add(after.1.to_multiset()) =~= heads.to_multiset().add(
            rest.to_multiset(),
        ));
    }
}

/// Descending below a table loses no table and makes none.
pub proof fn lemma_descend_conserves(parent: Seq<char>, tables: Seq<Table>)
    ensures
        forest_tables(descend(parent, tables).0).add(descend(parent, tables).1.to_multiset())
            == tables.to_multiset(),
    decreases tables.len(), 0int, 0int,
{
    let found = tables.filter(extending(parent));
    let others = tables.filter(not_extending(parent));
    lemma_filter_conserves(tables, extending(parent), not_extending(parent));
    crate::hierarchy::lemma_partition_sizes(tables, parent);
    if found.len() == 0 {
        broadcast use vstd::seq_lib::group_to_multiset_ensures;

        assert(forest_tables(descend(parent, tables).0).add(
            descend(parent, tables).1.to_multiset(),
        ) =~= tables.to_multiset());
    } else {
        lemma_grow_conserves(found, others);
    }
}

/// A forest loses no table and makes none: the tables of its trees and its
/// orphans are the tables of the collection, each as often as it occurs.
pub proof fn lemma_forest_conserves(tables: Seq<Table>)
    ensures
        forest_tables(forest(tables).0).add(forest(tables).1.to_multiset()) == tables.to_multiset(),
{
    lemma_filter_conserves(tables, root_tables(), other_tables());
    lemma_grow_conserves(tables.filter(root_tables()), tables.filter(other_tables()));
}

/// No table that is left once trees are grown extends a table of the trees.
pub proof fn lemma_grow_complete(heads: Seq<Table>, rest: Seq<Table>)
    ensures
        forall|n: Table, x: Table|
            #![trigger forest_tables(grow(heads, rest).0).contains(n), grow(heads, rest).1.contains(x)]
            forest_tables(grow(heads, rest).0).contains(n) && grow(heads, rest).1.contains(x)
                ==> !x@.extends(n.table@),
    decreases rest.len(), 1int, heads.len(),
{
    if heads.len() > 0 {
        let below = descend(heads[0].table@, rest);
        crate::hierarchy::lemma_descend_shrinks(heads[0].table@, rest);
        lemma_descend_complete(heads[0].table@, rest);
        lemma_descend_linked(heads[0].table@, rest);
        lemma_grow_complete(heads.skip(1), below.1);
        lemma_grow_linked(heads.skip(1), below.1);
        let after = grow(heads.skip(1), below.1);
        let first = Tree { node: heads[0], children: below.0 };
        let trees = seq![first] + after.0;
        assert(grow(heads, rest).0 == trees);
        assert(trees[0] == first);
        assert(trees.skip(1) =~= after.0);
        assert(forest_tables(trees) == first.tables().add(forest_tables(after.0)));
        assert forall|n: Table, x: Table|
            forest_tables(trees).contains(n) && after.1.contains(x) implies !x@.extends(
            n.table@,
        ) by {
            assert(below.1.contains(x));
            if forest_tables(after.0).contains(n) {
            } else if forest_tables(below.0).contains(n) {
            } else {
                assert(n == heads[0]);
            }
        }
    }
}

/// No table that is left once the trees below a table are built extends
/// that table or a table of those trees.
pub proof fn lemma_descend_complete(parent: Seq<char>, tables: Seq<Table>)
    ensures
        forall|x: Table| #[trigger] descend(parent, tables).1.contains(x) ==> !x@.extends(parent),
        forall|n: Table, x: Table|
            #![trigger forest_tables(descend(parent, tables).0).contains(n), descend(parent, tables).1.contains(x)]
            forest_tables(descend(parent, tables).0).contains(n) && descend(
                parent,
                tables,
            ).1.contains(x) ==> !x@.extends(n.table@),
    decreases tables.len(), 0int, 0int,
{
    let found = tables.filter(extending(parent));
    let others = tables.filter(not_extending(parent));
    lemma_descend_linked(parent, tables);
    crate::hierarchy::lemma_partition_sizes(tables, parent);
    if found.len() > 0 {
        lemma_grow_complete(found, others);
        assert forall|n: Table, x: Table|
            forest_tables(descend(parent, tables).0).contains(n) && descend(
                parent,
                tables,
            ).1.contains(x) implies !x@.extends(n.table@) by {
            assert(grow(found, others).1.contains(x));
        }
    }
}

/// No orphan of a forest extends a table of its trees.
pub proof fn lemma_forest_complete(tables: Seq<Table>)
    ensures
        forall|n: Table, x: Table|
            #![trigger forest_tables(forest(tables).0).contains(n), forest(tables).1.contains(x)]
            forest_tables(forest(tables).0).contains(n) && forest(tables).1.contains(x)
                ==> !x@.extends(n.table@),
{
    lemma_grow_complete(tables.filter(root_tables()), tables.filter(other_tables()));
}

} // verus!
