use gameshopui::definition::SchemaError;
use gameshopui::{ColumnType, Table, TableColumn, TableColumnForeignKey, TableDefinition, TableNode};

fn key_column(references: &[&str]) -> TableColumn {
    TableColumn {
        name: "id".to_owned(),
        ty: ColumnType::Int,
        optional: false,
        primary_key: true,
        foreign_keys: references
            .iter()
            .map(|table| TableColumnForeignKey { table: (*table).to_owned(), column: "id".to_owned() })
            .collect(),
        mapper: None,
    }
}

fn plain_column(name: &str, references: &[&str]) -> TableColumn {
    TableColumn {
        name: name.to_owned(),
        ty: ColumnType::String,
        optional: true,
        primary_key: false,
        foreign_keys: references
            .iter()
            .map(|table| TableColumnForeignKey { table: (*table).to_owned(), column: "id".to_owned() })
            .collect(),
        mapper: None,
    }
}

fn table(id: &str, references: &[&str]) -> Table {
    Table {
        name: id.to_uppercase(),
        table: id.to_owned(),
        polymorphic: None,
        columns: vec![plain_column("label", &[]), key_column(references)],
    }
}

fn ids(tables: &[Table]) -> Vec<String> {
    tables.iter().map(|t| t.table.clone()).collect()
}

fn names(list: &[&str]) -> Vec<String> {
    list.iter().map(|s| (*s).to_owned()).collect()
}

#[test]
fn table_without_primary_key_is_root() {
    let t = Table {
        name: "Log".to_owned(),
        table: "log".to_owned(),
        polymorphic: None,
        columns: vec![plain_column("line", &["other"])],
    };
    assert!(t.identity_column().is_none());
    assert!(t.is_root());
    assert!(!t.extends(&"other".to_owned()));
}

#[test]
fn table_without_columns_is_root() {
    let t = Table { name: "E".to_owned(), table: "e".to_owned(), polymorphic: None, columns: vec![] };
    assert!(t.is_root());
}

#[test]
fn primary_key_without_foreign_keys_is_root() {
    let t = table("a", &[]);
    assert_eq!(t.identity_column().map(|c| c.name.as_str()), Some("id"));
    assert!(t.is_root());
}

#[test]
fn primary_key_with_foreign_key_is_no_root() {
    let t = table("b", &["a"]);
    assert!(!t.is_root());
    assert!(t.extends(&"a".to_owned()));
    assert!(!t.extends(&"b".to_owned()));
}

#[test]
fn only_the_first_primary_key_column_counts() {
    let mut second = key_column(&["a"]);
    second.name = "other_id".to_owned();
    let t = Table {
        name: "T".to_owned(),
        table: "t".to_owned(),
        polymorphic: None,
        columns: vec![key_column(&[]), second],
    };
    assert!(t.is_root());
    assert!(!t.extends(&"a".to_owned()));
}

#[test]
fn column_references_any_of_its_foreign_keys() {
    let c = key_column(&["x", "y"]);
    assert!(c.references(&"x".to_owned()));
    assert!(c.references(&"y".to_owned()));
    assert!(!c.references(&"z".to_owned()));
}

#[test]
fn chain_builds_one_tree() {
    let tables = vec![table("c", &["b"]), table("b", &["a"]), table("a", &[])];
    let (trees, orphans) = TableNode::into_trees(tables);
    assert!(orphans.is_empty());
    assert_eq!(trees.len(), 1);
    assert_eq!(trees[0].node.table, "a");
    assert_eq!(trees[0].leaves.len(), 1);
    assert_eq!(trees[0].leaves[0].node.table, "b");
    assert_eq!(trees[0].leaves[0].leaves.len(), 1);
    assert_eq!(trees[0].leaves[0].leaves[0].node.table, "c");
    assert!(trees[0].leaves[0].leaves[0].leaves.is_empty());
}

#[test]
fn roots_keep_the_order_of_the_collection() {
    let tables = vec![table("x", &[]), table("k", &["y"]), table("y", &[]), table("z", &[])];
    let (trees, orphans) = TableNode::into_trees(tables);
    assert!(orphans.is_empty());
    let roots: Vec<String> = trees.iter().map(|t| t.node.table.clone()).collect();
    assert_eq!(roots, names(&["x", "y", "z"]));
    assert!(trees[0].leaves.is_empty());
    assert_eq!(trees[1].leaves.len(), 1);
    assert_eq!(trees[1].leaves[0].node.table, "k");
}

#[test]
fn table_with_missing_parent_is_an_orphan() {
    let tables = vec![table("a", &[]), table("lost", &["nowhere"])];
    let (trees, orphans) = TableNode::into_trees(tables);
    assert_eq!(trees.len(), 1);
    assert_eq!(ids(&orphans), names(&["lost"]));
}

#[test]
fn cycle_is_left_as_orphans() {
    let tables = vec![table("p", &["q"]), table("q", &["p"]), table("a", &[])];
    let (trees, orphans) = TableNode::into_trees(tables);
    assert_eq!(trees.len(), 1);
    assert!(trees[0].leaves.is_empty());
    assert_eq!(ids(&orphans), names(&["p", "q"]));
}

#[test]
fn table_with_two_parents_goes_to_the_first_root() {
    let tables = vec![table("a", &[]), table("b", &[]), table("both", &["b", "a"])];
    let (trees, orphans) = TableNode::into_trees(tables);
    assert!(orphans.is_empty());
    assert_eq!(trees[0].leaves.len(), 1);
    assert_eq!(trees[0].leaves[0].node.table, "both");
    assert!(trees[1].leaves.is_empty());
}

#[test]
fn no_table_is_lost_or_made() {
    let tables = vec![
        table("c", &["b"]),
        table("lost", &["nowhere"]),
        table("a", &[]),
        table("b", &["a"]),
        table("d", &["a"]),
        table("r", &[]),
    ];
    let (trees, orphans) = TableNode::into_trees(tables);
    fn collect(node: &TableNode, out: &mut Vec<String>) {
        out.push(node.node.table.clone());
        for leaf in &node.leaves {
            collect(leaf, out);
        }
    }
    let mut all: Vec<String> = Vec::new();
    for tree in &trees {
        collect(tree, &mut all);
    }
    all.extend(ids(&orphans));
    all.sort();
    assert_eq!(all, names(&["a", "b", "c", "d", "lost", "r"]));
}

#[test]
fn construct_leaves_takes_what_extends_the_node() {
    let a = table("a", &[]);
    let mut rest = vec![table("x", &["z"]), table("b", &["a"]), table("c", &["b"])];
    let leaves = TableNode::construct_leaves(&a, &mut rest);
    assert_eq!(leaves.len(), 1);
    assert_eq!(leaves[0].node.table, "b");
    assert_eq!(leaves[0].leaves[0].node.table, "c");
    assert_eq!(ids(&rest), names(&["x"]));
}

#[test]
fn construct_leaves_leaves_the_rest_untouched() {
    let a = table("a", &[]);
    let mut rest = vec![table("x", &["z"]), table("y", &["x"])];
    let leaves = TableNode::construct_leaves(&a, &mut rest);
    assert!(leaves.is_empty());
    assert_eq!(ids(&rest), names(&["x", "y"]));
}

#[test]
fn pop_outer_leaves_of_terminal_node_is_none() {
    let mut node = TableNode { node: table("a", &[]), leaves: vec![] };
    assert!(node.pop_outer_leaves().is_none());
    assert_eq!(node.node.table, "a");
    assert!(node.leaves.is_empty());
}

#[test]
fn pop_outer_leaves_keeps_popped_children() {
    let c = TableNode { node: table("c", &["b"]), leaves: vec![] };
    let b = TableNode { node: table("b", &["a"]), leaves: vec![c] };
    let d = TableNode { node: table("d", &["a"]), leaves: vec![] };
    let mut a = TableNode { node: table("a", &[]), leaves: vec![d, b] };
    let popped = a.pop_outer_leaves().expect("a has children");
    assert_eq!(ids(&popped), names(&["c", "d"]));
    assert_eq!(a.leaves.len(), 1);
    assert_eq!(a.leaves[0].node.table, "b");
    assert!(a.leaves[0].leaves.is_empty());
}

#[test]
fn chain_collapses_to_base_and_deepest_leaf() {
    let tables = vec![table("a", &[]), table("b", &["a"]), table("c", &["b"])];
    let defs = TableDefinition::from_vec(tables);
    assert_eq!(defs.len(), 1);
    match &defs[0] {
        TableDefinition::Family { base, leaves } => {
            assert_eq!(base.table, "a");
            assert_eq!(ids(leaves), names(&["c"]));
        }
        TableDefinition::Single(_) => panic!("a chain is a family"),
    }
    assert!(defs[0].get("b").is_none());
}

#[test]
fn two_siblings_are_both_leaves() {
    let tables = vec![table("b", &["a"]), table("a", &[]), table("d", &["a"])];
    let defs = TableDefinition::from_vec(tables);
    assert_eq!(defs.len(), 1);
    let mut leaves = ids(defs[0].get_leaves().expect("a family"));
    leaves.sort();
    assert_eq!(leaves, names(&["b", "d"]));
    assert_eq!(defs[0].get_base().table, "a");
}

#[test]
fn table_without_children_is_single() {
    let defs = TableDefinition::from_vec(vec![table("a", &[])]);
    assert_eq!(defs.len(), 1);
    assert!(matches!(&defs[0], TableDefinition::Single(t) if t.table == "a"));
    assert!(defs[0].get_leaves().is_none());
}

#[test]
fn deep_and_shallow_branches_flatten_inner_leaves_first() {
    let tables = vec![
        table("a", &[]),
        table("t", &["a"]),
        table("m", &["a"]),
        table("x", &["m"]),
        table("y", &["m"]),
    ];
    let defs = TableDefinition::from_vec(tables);
    assert_eq!(defs.len(), 1);
    assert_eq!(ids(defs[0].get_leaves().expect("a family")), names(&["x", "y", "t"]));
}

#[test]
fn orphans_are_in_no_definition() {
    let tables = vec![table("lost", &["nowhere"]), table("a", &[]), table("b", &["a"])];
    let defs = TableDefinition::from_vec(tables);
    assert_eq!(defs.len(), 1);
    assert!(defs[0].get("lost").is_none());
    assert!(defs[0].get("a").is_some());
    assert!(defs[0].get("b").is_some());
}

#[test]
fn try_from_vec_reports_the_orphans() {
    let tables = vec![table("lost", &["nowhere"]), table("a", &[]), table("b", &["a"])];
    match TableDefinition::try_from_vec(tables) {
        Err(SchemaError::Orphaned(orphans)) => assert_eq!(ids(&orphans), names(&["lost"])),
        Ok(_) => panic!("an orphan was passed over"),
    }
    let tables = vec![table("a", &[]), table("b", &["a"])];
    let defs = TableDefinition::try_from_vec(tables).expect("no orphans");
    assert_eq!(defs.len(), 1);
    assert_eq!(ids(defs[0].get_leaves().expect("a family")), names(&["b"]));
}

#[test]
fn empty_collection_has_no_definition() {
    assert!(TableDefinition::from_vec(Vec::new()).is_empty());
    let (trees, orphans) = TableNode::into_trees(Vec::new());
    assert!(trees.is_empty());
    assert!(orphans.is_empty());
}

#[test]
fn get_finds_base_leaf_and_nothing_else() {
    let def = TableDefinition::Family {
        base: table("a", &[]),
        leaves: vec![table("b", &["a"]), table("d", &["a"])],
    };
    assert_eq!(def.get("a").map(|t| t.table.as_str()), Some("a"));
    assert_eq!(def.get("b").map(|t| t.table.as_str()), Some("b"));
    assert_eq!(def.get("d").map(|t| t.table.as_str()), Some("d"));
    assert!(def.get("z").is_none());
    assert!(def.get("").is_none());
}

#[test]
fn get_on_single_finds_only_the_table() {
    let def = TableDefinition::Single(table("a", &[]));
    assert_eq!(def.get("a").map(|t| t.table.as_str()), Some("a"));
    assert!(def.get("b").is_none());
    assert_eq!(def.get_base().table, "a");
}

#[test]
fn get_prefers_the_base_and_then_the_first_leaf() {
    let mut first = table("dup", &["a"]);
    first.name = "first".to_owned();
    let mut second = table("dup", &["a"]);
    second.name = "second".to_owned();
    let mut shadow = table("a", &["a"]);
    shadow.name = "shadow".to_owned();
    let def = TableDefinition::Family { base: table("a", &[]), leaves: vec![shadow, first, second] };
    assert_eq!(def.get("a").map(|t| t.name.as_str()), Some("A"));
    assert_eq!(def.get("dup").map(|t| t.name.as_str()), Some("first"));
}

#[test]
fn pretty_name_spaces_and_capitalizes() {
    assert_eq!(table("game_shop_item", &[]).pretty_name(), "Game shop item");
    assert_eq!(table("a", &[]).pretty_name(), "A");
    assert_eq!(table("", &[]).pretty_name(), "");
    assert_eq!(table("_x", &[]).pretty_name(), " x");
    assert_eq!(table("Already", &[]).pretty_name(), "Already");
    assert_eq!(table("9lives", &[]).pretty_name(), "9lives");
}

#[test]
fn pretty_name_upper_case_may_be_longer() {
    assert_eq!(table("\u{df}x_y", &[]).pretty_name(), "SSx y");
    assert_eq!(table("\u{e9}t\u{e9}", &[]).pretty_name(), "\u{c9}t\u{e9}");
}
