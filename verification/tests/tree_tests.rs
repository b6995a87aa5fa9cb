use js::json::JsonValue;
use js::tree::{close_container, JsonTree, NodeKind, TreeNode, TreeSeed};

fn s(v: &str) -> String {
    v.to_string()
}

/// {"name": "Alice", "age": 30, "tags": ["a", "b"], "nested": {"flag": true, "none": null}}
fn sample() -> JsonTree {
    let mut nodes: Vec<TreeNode> = Vec::new();
    let root = TreeSeed::new(None, 0, false).open_container(&mut nodes, false);
    let mut kids = Vec::new();
    kids.push(TreeSeed::member(0, s("name")).push_leaf(&mut nodes, NodeKind::String(s("Alice"))));
    kids.push(TreeSeed::member(0, s("age")).push_leaf(&mut nodes, NodeKind::Number(s("30"))));
    let tags = TreeSeed::member(0, s("tags")).open_container(&mut nodes, true);
    let a = TreeSeed::element(1, 0).push_leaf(&mut nodes, NodeKind::String(s("a")));
    let b = TreeSeed::element(1, 1).push_leaf(&mut nodes, NodeKind::String(s("b")));
    close_container(&mut nodes, tags, vec![a, b], true);
    kids.push(tags);
    let nested = TreeSeed::member(0, s("nested")).open_container(&mut nodes, false);
    let flag = TreeSeed::member(1, s("flag")).push_leaf(&mut nodes, NodeKind::Bool(true));
    let none = TreeSeed::member(1, s("none")).push_leaf(&mut nodes, NodeKind::Null);
    close_container(&mut nodes, nested, vec![flag, none], false);
    kids.push(nested);
    close_container(&mut nodes, root, kids, false);
    JsonTree { nodes, root }
}

#[test]
fn builder_lays_out_nodes_in_document_order() {
    let t = sample();
    assert_eq!(t.root, 0);
    assert_eq!(t.nodes.len(), 9);
    assert_eq!(t.nodes[0].children, vec![1, 2, 3, 6]);
    assert!(matches!(t.nodes[0].kind, NodeKind::Object(4)));
    assert!(matches!(t.nodes[3].kind, NodeKind::Array(2)));
    assert_eq!(t.nodes[4].key.as_deref(), Some("0"));
    assert!(t.nodes[4].is_array_element);
    assert_eq!(t.nodes[4].depth, 2);
    assert!(t.nodes[0].expanded);
    assert!(!t.nodes[3].expanded);
    assert!(t.is_well_formed());
}

#[test]
fn element_keys_are_decimal_indices() {
    let seed = TreeSeed::element(3, 1234);
    assert_eq!(seed.key.as_deref(), Some("1234"));
    assert_eq!(seed.depth, 4);
    assert!(seed.is_array_element);
    assert_eq!(js::text::usize_to_string(0), "0");
    assert_eq!(js::text::usize_to_string(907), "907");
}

#[test]
fn ill_formed_trees_are_detected() {
    let mut t = sample();
    t.nodes[3].children.push(1);
    assert!(!t.is_well_formed());
    let mut t = sample();
    t.root = 9;
    assert!(!t.is_well_formed());
}

#[test]
fn visible_lines_follow_open_nodes() {
    let mut t = sample();
    assert_eq!(t.visible_lines(), vec![0, 1, 2, 3, 6]);
    t.toggle(3);
    assert_eq!(t.visible_lines(), vec![0, 1, 2, 3, 4, 5, 6]);
    t.toggle(6);
    assert_eq!(t.visible_lines(), vec![0, 1, 2, 3, 4, 5, 6, 7, 8]);
}

#[test]
fn toggle_ignores_leaves_and_empty_containers() {
    let mut t = sample();
    t.toggle(1);
    assert!(!t.nodes[1].expanded);
    let mut nodes = Vec::new();
    let root = TreeSeed::new(None, 0, false).open_container(&mut nodes, true);
    close_container(&mut nodes, root, vec![], true);
    let mut empty = JsonTree { nodes, root };
    assert!(empty.nodes[0].expanded);
    empty.toggle(0);
    assert!(empty.nodes[0].expanded);
    assert!(!empty.nodes[0].is_expandable());
}

#[test]
fn toggle_twice_restores_the_view() {
    let mut t = sample();
    let before = t.visible_lines();
    t.toggle(3);
    t.toggle(3);
    assert_eq!(t.visible_lines(), before);
}

#[test]
fn expand_all_opens_every_container() {
    let mut t = sample();
    t.expand_all();
    assert_eq!(t.visible_lines(), (0..9).collect::<Vec<usize>>());
    assert!(!t.nodes[1].expanded);
}

#[test]
fn collapse_all_shows_the_top_level() {
    let mut t = sample();
    t.expand_all();
    t.collapse_all();
    assert_eq!(t.visible_lines(), vec![0, 1, 2, 3, 6]);
    assert!(t.nodes[0].expanded);
    assert!(!t.nodes[3].expanded);
}

#[test]
fn expand_to_depth_bounds_the_depth_shown() {
    let mut t = sample();
    t.expand_to_depth(1);
    assert_eq!(t.visible_lines(), vec![0, 1, 2, 3, 6]);
    t.expand_to_depth(2);
    assert_eq!(t.visible_lines(), (0..9).collect::<Vec<usize>>());
    t.expand_to_depth(0);
    assert_eq!(t.visible_lines(), vec![0]);
    for idx in t.visible_lines() {
        assert!(t.nodes[idx].depth <= 0);
    }
}

#[test]
fn paths_name_members_and_indices() {
    let t = sample();
    assert_eq!(t.get_path(0), "$");
    assert_eq!(t.get_path(1), "$.name");
    assert_eq!(t.get_path(5), "$.tags[1]");
    assert_eq!(t.get_path(8), "$.nested.none");
    assert_eq!(t.get_path(42), "$");
}

#[test]
fn matching_ignores_case_except_for_numbers() {
    let mut t = sample();
    assert!(t.node_matches(1, "ALI"));
    assert!(t.node_matches(1, "name"));
    assert!(t.node_matches(2, "3"));
    assert!(t.node_matches(7, "TRU"));
    assert!(t.node_matches(8, "nul"));
    assert!(t.node_matches(3, "TAG"));
    assert!(!t.node_matches(3, "zzz"));
    assert!(!t.node_matches(0, "x"));
    assert!(t.node_matches(1, ""));
    t.nodes[2].kind = NodeKind::Number(s("1E5"));
    t.nodes[2].key = Some(s("num"));
    assert!(t.node_matches(2, "E"));
    assert!(!t.node_matches(2, "e"));
}

#[test]
fn scalar_values_copy_as_they_read() {
    let t = sample();
    assert_eq!(t.node_value_string(1), "Alice");
    assert_eq!(t.node_value_string(2), "30");
    assert_eq!(t.node_value_string(7), "true");
    assert_eq!(t.node_value_string(8), "null");
}

#[test]
fn containers_copy_as_indented_json() {
    let t = sample();
    assert_eq!(t.node_value_string(3), "[\n  \"a\",\n  \"b\"\n]");
    assert_eq!(t.node_value_string(6), "{\n  \"flag\": true,\n  \"none\": null\n}");
    assert_eq!(
        t.node_value_string(0),
        "{\n  \"age\": 30,\n  \"name\": \"Alice\",\n  \"nested\": {\n    \"flag\": true,\n    \"none\": null\n  },\n  \"tags\": [\n    \"a\",\n    \"b\"\n  ]\n}"
    );
}

#[test]
fn number_text_that_is_not_json_stays_a_string() {
    let mut nodes = Vec::new();
    let root = TreeSeed::new(None, 0, false).open_container(&mut nodes, true);
    let x = TreeSeed::element(0, 0).push_leaf(&mut nodes, NodeKind::Number(s("abc")));
    let y = TreeSeed::element(0, 1).push_leaf(&mut nodes, NodeKind::Number(s("1.5")));
    close_container(&mut nodes, root, vec![x, y], true);
    let t = JsonTree { nodes, root };
    assert_eq!(t.node_value_string(0), "[\n  \"abc\",\n  1.5\n]");
}

#[test]
fn node_to_json_keeps_document_order() {
    let t = sample();
    match t.node_to_json(0) {
        JsonValue::Object(members) => {
            let names: Vec<&str> = members.iter().map(|(k, _)| k.as_str()).collect();
            assert_eq!(names, vec!["name", "age", "tags", "nested"]);
            assert!(matches!(&members[1].1, JsonValue::Number(n) if n == "30"));
            assert!(matches!(&members[2].1, JsonValue::Array(items) if items.len() == 2));
        }
        _ => panic!("root is an object"),
    }
}

#[test]
fn is_expandable_needs_members() {
    let t = sample();
    assert!(t.nodes[0].is_expandable());
    assert!(!t.nodes[1].is_expandable());
}

#[test]
fn substring_search_on_text() {
    assert!(js::text::str_contains("hello world", "o w"));
    assert!(!js::text::str_contains("hello", "hello!"));
    assert!(js::text::str_contains("", ""));
    assert!(js::text::str_contains("äbc", "bc"));
}

#[test]
fn values_convert_and_print_through_serde() {
    let v = JsonValue::Object(vec![
        (s("b"), JsonValue::Array(vec![JsonValue::Bool(false), JsonValue::Null])),
        (s("a"), JsonValue::String(s("x\"y"))),
        (s("n"), JsonValue::Number(s("-2"))),
    ]);
    assert_eq!(
        v.to_pretty_string(),
        "{\n  \"a\": \"x\\\"y\",\n  \"b\": [\n    false,\n    null\n  ],\n  \"n\": -2\n}"
    );
    assert_eq!(
        v.to_serde(),
        serde_json::from_str::<serde_json::Value>(r#"{"b":[false,null],"a":"x\"y","n":-2}"#)
            .unwrap()
    );
    assert_eq!(JsonValue::Null.to_pretty_string(), "null");
}

/// {"a": [1, 2], "b": null}
fn small() -> JsonTree {
    let mut nodes: Vec<TreeNode> = Vec::new();
    let root = TreeSeed::new(None, 0, false).open_container(&mut nodes, false);
    let a = TreeSeed::member(0, s("a")).open_container(&mut nodes, true);
    let one = TreeSeed::element(1, 0).push_leaf(&mut nodes, NodeKind::Number(s("1")));
    let two = TreeSeed::element(1, 1).push_leaf(&mut nodes, NodeKind::Number(s("2")));
    close_container(&mut nodes, a, vec![one, two], true);
    let b = TreeSeed::member(0, s("b")).push_leaf(&mut nodes, NodeKind::Null);
    close_container(&mut nodes, root, vec![a, b], false);
    JsonTree { nodes, root }
}

#[test]
fn expand_to_depth_shows_exactly_the_shallow_nodes() {
    let mut t = small();
    t.expand_all();
    t.expand_to_depth(0);
    assert_eq!(t.visible_lines(), vec![0]);
    t.expand_to_depth(1);
    assert_eq!(t.visible_lines(), vec![0, 1, 4]);
    t.expand_to_depth(2);
    assert_eq!(t.visible_lines(), vec![0, 1, 2, 3, 4]);
    t.expand_to_depth(7);
    assert_eq!(t.visible_lines(), vec![0, 1, 2, 3, 4]);
}

#[test]
fn collapse_all_gives_back_the_first_view() {
    let first = small().visible_lines();
    assert_eq!(first, vec![0, 1, 4]);
    let mut t = small();
    t.toggle(1);
    t.expand_all();
    t.toggle(0);
    t.collapse_all();
    assert_eq!(t.visible_lines(), first);
}

#[test]
fn expand_all_twice_is_expand_all_once() {
    let mut t = small();
    t.expand_all();
    let once = t.visible_lines();
    t.expand_all();
    assert_eq!(t.visible_lines(), once);
    assert_eq!(once, vec![0, 1, 2, 3, 4]);
}

#[test]
fn child_paths_extend_their_parent_path() {
    let t = small();
    assert_eq!(t.get_path(1), "$.a");
    assert_eq!(t.get_path(2), format!("{}[0]", t.get_path(1)));
    assert_eq!(t.get_path(3), "$.a[1]");
    assert_eq!(t.get_path(4), format!("{}.b", t.get_path(0)));
}
