use mib_browser::tree::{MibInfo, MibNode, TreeItem};
use mib_browser::visible::{get_visible_items, TreeState};

fn item(name: &str, indent: i32, has_children: bool, is_expanded: bool) -> TreeItem {
    let mut info = MibInfo::default();
    info.name = format!("info of {}", name);
    TreeItem {
        name: name.to_string(),
        oid: format!(".1.{}", name.len()),
        indent,
        has_children,
        is_expanded,
        info,
    }
}

/// a ( b ( c d ) e ) f
fn tree(a: bool, b: bool) -> Vec<TreeItem> {
    vec![
        item("a", 0, true, a),
        item("b", 1, true, b),
        item("c", 2, false, false),
        item("d", 2, false, false),
        item("e", 1, false, true),
        item("f", 0, false, false),
    ]
}

fn names(nodes: &[MibNode]) -> String {
    nodes.iter().map(|node| node.name.as_str()).collect()
}

fn shown(items: Vec<TreeItem>) -> (String, Vec<usize>) {
    let (nodes, indices) = get_visible_items(&items);
    (names(&nodes), indices)
}

#[test]
fn collapsed_rows_hide_what_is_below() {
    assert_eq!(shown(tree(true, true)), ("abcdef".to_string(), vec![0, 1, 2, 3, 4, 5]));
    assert_eq!(shown(tree(true, false)), ("abef".to_string(), vec![0, 1, 4, 5]));
    assert_eq!(shown(tree(false, true)), ("af".to_string(), vec![0, 5]));
    assert_eq!(shown(tree(false, false)), ("af".to_string(), vec![0, 5]));
    assert_eq!(shown(Vec::new()), (String::new(), Vec::new()));
}

#[test]
fn rows_without_children_hide_nothing() {
    let items = vec![item("a", 0, false, false), item("b", 1, false, false)];
    assert_eq!(shown(items).1, vec![0, 1]);
}

#[test]
fn a_collapsed_row_ends_at_its_own_level() {
    let items = vec![
        item("a", 2, true, false),
        item("b", 3, true, false),
        item("c", 2, true, false),
        item("d", 1, false, false),
        item("e", 3, false, false),
    ];
    assert_eq!(shown(items).1, vec![0, 2, 3, 4]);
}

#[test]
fn shown_rows_carry_their_fields() {
    let (nodes, _) = get_visible_items(&tree(false, true));
    assert_eq!(nodes[0].tree_name, "a (1)");
    assert_eq!(nodes[0].oid, ".1.1");
    assert_eq!(nodes[0].indent, 0);
    assert!(nodes[0].has_children && !nodes[0].is_expanded);
}

#[test]
fn click_gives_the_properties_of_a_shown_row() {
    let (state, _) = TreeState::new(tree(true, false));
    assert_eq!(state.click(2).unwrap().name, "info of e");
    assert_eq!(state.click(0).unwrap().name, "info of a");
    assert!(state.click(4).is_none());
    assert!(state.click(-1).is_none());
    assert!(state.click(i32::MIN).is_none());
}

#[test]
fn toggle_expands_and_collapses() {
    let (mut state, nodes) = TreeState::new(tree(true, false));
    assert_eq!(names(&nodes), "abef");
    assert_eq!(names(&state.toggle(1).unwrap()), "abcdef");
    assert_eq!(state.click(3).unwrap().name, "info of d");
    assert_eq!(names(&state.toggle(0).unwrap()), "af");
    assert_eq!(state.click(1).unwrap().name, "info of f");
    assert_eq!(names(&state.toggle(0).unwrap()), "abcdef");
}

#[test]
fn toggle_of_a_leaf_changes_nothing() {
    let (mut state, _) = TreeState::new(tree(true, false));
    let nodes = state.toggle(3).unwrap();
    assert_eq!(names(&nodes), "abef");
    assert!(!nodes[3].is_expanded);
}

#[test]
fn toggle_outside_the_list_changes_nothing() {
    let (mut state, _) = TreeState::new(tree(true, false));
    assert!(state.toggle(4).is_none());
    assert!(state.toggle(-1).is_none());
    assert_eq!(state.click(2).unwrap().name, "info of e");
}

#[test]
fn toggle_twice_changes_nothing() {
    let (mut state, before) = TreeState::new(tree(true, true));
    state.toggle(1);
    let after = state.toggle(1).unwrap();
    assert_eq!(names(&after), names(&before));
    assert!(after[1].is_expanded);
}

#[test]
fn toggled_row_keeps_its_place() {
    let (mut state, before) = TreeState::new(tree(true, true));
    let after = state.toggle(1).unwrap();
    assert_eq!(names(&after[..2]), names(&before[..2]));
    assert_eq!(names(&after), "abef");
}

#[test]
fn four_levels_of_a_new_tree_are_shown() {
    let mut items: Vec<TreeItem> = Vec::new();
    for depth in 0..6 {
        items.push(item(&"n".repeat(depth as usize + 1), depth, depth < 5, depth < 3));
    }
    assert_eq!(shown(items).1, vec![0, 1, 2, 3]);
}

#[test]
fn rows_below_hidden_rows_are_hidden() {
    let mut items = tree(false, true);
    items.insert(3, item("x", 3, false, false));
    let (_, indices) = shown(items);
    assert_eq!(indices, vec![0, 6]);
}

#[test]
fn top_rows_are_shown_whatever_is_collapsed() {
    for (a, b) in [(true, true), (true, false), (false, true), (false, false)] {
        let (_, indices) = shown(tree(a, b));
        assert!(indices.contains(&0) && indices.contains(&5));
    }
}

#[test]
fn expanding_shows_the_rows_directly_below() {
    let (mut state, nodes) = TreeState::new(tree(false, false));
    assert_eq!(names(&nodes), "af");
    assert_eq!(names(&state.toggle(0).unwrap()), "abef");
}

#[test]
fn toggling_keeps_the_rows_in_place() {
    let (mut state, _) = TreeState::new(tree(false, false));
    state.toggle(0);
    let nodes = state.toggle(1).unwrap();
    let indents: Vec<i32> = nodes.iter().map(|node| node.indent).collect();
    assert_eq!(indents, [0, 1, 2, 2, 1, 0]);
    let children: Vec<bool> = nodes.iter().map(|node| node.has_children).collect();
    assert_eq!(children, [true, true, false, false, false, false]);
}
