use js::app::{App, InputMode, Key, MouseInput};
use js::tree::{close_container, JsonTree, NodeKind, TreeNode, TreeSeed};

fn s(v: &str) -> String {
    v.to_string()
}

/// {"name": "Alice", "age": 30, "tags": ["a", "b"], "nested": {"flag": true, "none": null}}
fn sample() -> JsonTree {
    let mut nodes: Vec<TreeNode> = Vec::new();
    let root = TreeSeed::new(None, 0, false).open_container(&mut nodes, false);
    let mut kids = Vec::new();
    kids.push(TreeSeed::member(0, s("name")).push_leaf(&mut nodes, NodeKind::String(s("Alice"))));
    kids.push(TreeSeed::member(0, s("age")).push_leaf(&mut nodes, NodeKind::Number(s("30"))));
    let tags = TreeSeed::member(0, s("tags")).open_container(&mut nodes, true);
    let a = TreeSeed::element(1, 0).push_leaf(&mut nodes, NodeKind::String(s("a")));
    let b = TreeSeed::element(1, 1).push_leaf(&mut nodes, NodeKind::String(s("b")));
    close_container(&mut nodes, tags, vec![a, b], true);
    kids.push(tags);
    let nested = TreeSeed::member(0, s("nested")).open_container(&mut nodes, false);
    let flag = TreeSeed::member(1, s("flag")).push_leaf(&mut nodes, NodeKind::Bool(true));
    let none = TreeSeed::member(1, s("none")).push_leaf(&mut nodes, NodeKind::Null);
    close_container(&mut nodes, nested, vec![flag, none], false);
    kids.push(nested);
    close_container(&mut nodes, root, kids, false);
    JsonTree { nodes, root }
}

fn app() -> App {
    App::new(sample(), s("doc.json"))
}

fn press(app: &mut App, c: char) {
    assert!(app.handle_normal_key(Key::Char(c), false).is_none());
}

#[test]
fn new_app_starts_at_the_top() {
    let a = app();
    assert_eq!(a.visible, vec![0, 1, 2, 3, 6]);
    assert_eq!(a.cursor, 0);
    assert_eq!(a.scroll_offset, 0);
    assert!(a.input_mode == InputMode::Normal);
    assert_eq!(a.filename, "doc.json");
    assert!(a.status_message.is_empty());
    assert!(!a.should_quit && !a.show_help);
}

#[test]
fn cursor_keys_move_and_stop_at_the_ends() {
    let mut a = app();
    press(&mut a, 'k');
    assert_eq!(a.cursor, 0);
    press(&mut a, 'j');
    assert_eq!(a.cursor, 1);
    a.handle_normal_key(Key::Down, false);
    assert_eq!(a.cursor, 2);
    press(&mut a, 'G');
    assert_eq!(a.cursor, 4);
    press(&mut a, 'j');
    assert_eq!(a.cursor, 4);
    a.handle_normal_key(Key::Home, false);
    assert_eq!(a.cursor, 0);
    a.handle_normal_key(Key::PageDown, false);
    assert_eq!(a.cursor, 4);
    press(&mut a, 'b');
    assert_eq!(a.cursor, 0);
    a.handle_normal_key(Key::End, false);
    assert_eq!(a.cursor, 4);
    a.handle_normal_key(Key::Up, false);
    assert_eq!(a.cursor, 3);
}

#[test]
fn enter_opens_and_left_closes_then_goes_to_parent() {
    let mut a = app();
    a.cursor = 3;
    a.handle_normal_key(Key::Enter, false);
    assert_eq!(a.visible, vec![0, 1, 2, 3, 4, 5, 6]);
    press(&mut a, 'j');
    press(&mut a, 'j');
    assert_eq!(a.cursor, 5);
    press(&mut a, 'h');
    assert_eq!(a.cursor, 3);
    press(&mut a, 'h');
    assert_eq!(a.visible, vec![0, 1, 2, 3, 6]);
    assert_eq!(a.cursor, 3);
    press(&mut a, 'h');
    assert_eq!(a.cursor, 0);
    press(&mut a, 'h');
    assert_eq!(a.visible, vec![0]);
    assert_eq!(a.cursor, 0);
}

#[test]
fn folding_keeps_the_cursor_on_screen() {
    let mut a = app();
    press(&mut a, 'e');
    assert_eq!(a.status_message, "Expanded all nodes");
    a.cursor = 8;
    press(&mut a, 'c');
    assert_eq!(a.status_message, "Collapsed all nodes");
    assert_eq!(a.visible, vec![0, 1, 2, 3, 6]);
    assert_eq!(a.cursor, 4);
}

#[test]
fn digits_expand_to_a_depth() {
    let mut a = app();
    press(&mut a, '2');
    assert_eq!(a.status_message, "Expanded to depth 2");
    assert_eq!(a.visible.len(), 9);
    press(&mut a, '1');
    assert_eq!(a.visible, vec![0, 1, 2, 3, 6]);
    assert_eq!(a.status_message, "Expanded to depth 1");
}

#[test]
fn search_finds_matching_lines_and_cycles() {
    let mut a = app();
    press(&mut a, 'e');
    press(&mut a, '/');
    assert!(a.input_mode == InputMode::Search);
    assert_eq!(a.status_message, "/");
    a.handle_search_key(Key::Char('A'));
    assert_eq!(a.status_message, "/A");
    a.handle_search_key(Key::Char('x'));
    a.handle_search_key(Key::Backspace);
    assert_eq!(a.search_query, "A");
    a.handle_search_key(Key::Enter);
    assert!(a.input_mode == InputMode::Normal);
    // "name", "age", "tags", the element "a" and "flag" hold an "a" (ignoring case).
    assert_eq!(a.search_results, vec![1, 2, 3, 4, 7]);
    assert_eq!(a.search_index, 0);
    assert_eq!(a.cursor, 1);
    assert_eq!(a.status_message, "[1/5] /A");
    press(&mut a, 'n');
    assert_eq!(a.cursor, 2);
    assert_eq!(a.status_message, "[2/5] /A");
    press(&mut a, 'N');
    press(&mut a, 'N');
    assert_eq!(a.search_index, 4);
    assert_eq!(a.cursor, 7);
    assert_eq!(a.status_message, "[5/5] /A");
    press(&mut a, 'n');
    assert_eq!(a.cursor, 1);
}

#[test]
fn search_starts_at_the_cursor() {
    let mut a = app();
    press(&mut a, 'e');
    a.cursor = 5;
    press(&mut a, '/');
    a.handle_search_key(Key::Char('a'));
    a.handle_search_key(Key::Enter);
    assert_eq!(a.search_index, 4);
    assert_eq!(a.cursor, 7);
}

#[test]
fn search_without_hits_reports_it() {
    let mut a = app();
    press(&mut a, '/');
    for c in "zzz".chars() {
        a.handle_search_key(Key::Char(c));
    }
    a.handle_search_key(Key::Enter);
    assert!(a.search_results.is_empty());
    assert_eq!(a.status_message, "Pattern not found: zzz");
    press(&mut a, 'n');
    assert_eq!(a.cursor, 0);
}

#[test]
fn empty_search_and_escape_clear_the_status() {
    let mut a = app();
    press(&mut a, '/');
    a.handle_search_key(Key::Enter);
    assert!(a.status_message.is_empty());
    press(&mut a, '/');
    a.handle_search_key(Key::Char('q'));
    a.handle_search_key(Key::Esc);
    assert!(a.input_mode == InputMode::Normal);
    assert!(a.search_query.is_empty());
    assert!(a.status_message.is_empty());
    assert!(!a.should_quit);
}

#[test]
fn quit_keys() {
    let mut a = app();
    press(&mut a, 'q');
    assert!(a.should_quit);
    let mut a = app();
    a.handle_normal_key(Key::Esc, false);
    assert!(a.should_quit);
    let mut a = app();
    a.handle_normal_key(Key::Char('c'), true);
    assert!(a.should_quit);
}

#[test]
fn help_hides_on_the_next_key() {
    let mut a = app();
    press(&mut a, '?');
    assert!(a.show_help);
    press(&mut a, 'q');
    assert!(!a.show_help);
    assert!(!a.should_quit);
}

#[test]
fn copy_keys_ask_for_the_clipboard() {
    let mut a = app();
    a.cursor = 1;
    let req = a.handle_normal_key(Key::Char('y'), false).unwrap();
    assert_eq!(req.text, "Alice");
    assert_eq!(req.prefix, "Copied");
    let req = a.handle_normal_key(Key::Char('Y'), false).unwrap();
    assert_eq!(req.text, "$.name");
    assert_eq!(req.prefix, "Copied path");
    a.cursor = 99;
    assert!(a.handle_normal_key(Key::Char('y'), false).is_none());
    assert_eq!(a.current_path(), "$");
}

#[test]
fn copy_report_shortens_long_texts() {
    let mut a = app();
    a.report_copy("short", "Copied", true);
    assert_eq!(a.status_message, "Copied: short");
    let long: String = std::iter::repeat('x').take(60).collect();
    a.report_copy(&long, "Copied", true);
    let expected = format!("Copied: {}…", "x".repeat(47));
    assert_eq!(a.status_message, expected);
    let fifty: String = std::iter::repeat('é').take(50).collect();
    a.report_copy(&fifty, "Copied path", true);
    assert_eq!(a.status_message, format!("Copied path: {fifty}"));
    a.report_copy("x", "Copied", false);
    assert_eq!(a.status_message, "Failed to copy to clipboard");
}

#[test]
fn current_path_follows_the_cursor() {
    let mut a = app();
    a.cursor = 3;
    assert_eq!(a.current_path(), "$.tags");
}

#[test]
fn scrolling_keeps_the_cursor_in_the_window() {
    let mut a = app();
    press(&mut a, 'e');
    a.cursor = 8;
    a.adjust_scroll(3);
    assert_eq!(a.scroll_offset, 6);
    a.cursor = 2;
    a.adjust_scroll(3);
    assert_eq!(a.scroll_offset, 2);
    a.adjust_scroll(0);
    assert_eq!(a.scroll_offset, 2);
    a.cursor = 3;
    a.adjust_scroll(3);
    assert_eq!(a.scroll_offset, 2);
}

#[test]
fn mouse_scrolls_and_clicks() {
    let mut a = app();
    a.handle_mouse(MouseInput::ScrollDown);
    assert_eq!(a.cursor, 3);
    a.handle_mouse(MouseInput::ScrollDown);
    assert_eq!(a.cursor, 4);
    a.handle_mouse(MouseInput::ScrollUp);
    assert_eq!(a.cursor, 1);
    a.handle_mouse(MouseInput::LeftDown(4));
    assert_eq!(a.cursor, 3);
    a.handle_mouse(MouseInput::LeftDown(4));
    assert_eq!(a.visible, vec![0, 1, 2, 3, 4, 5, 6]);
    a.handle_mouse(MouseInput::LeftDown(0));
    assert_eq!(a.cursor, 3);
    a.handle_mouse(MouseInput::LeftDown(40));
    assert_eq!(a.cursor, 3);
    a.handle_mouse(MouseInput::Other);
    assert_eq!(a.cursor, 3);
}

#[test]
fn every_key_keeps_the_cursor_on_a_line() {
    let keys = [
        Key::Char('j'), Key::Char('G'), Key::Char('l'), Key::Char('e'), Key::Char('h'),
        Key::Char('c'), Key::Char('3'), Key::PageDown, Key::Left, Key::Enter, Key::Char('1'),
    ];
    let mut a = app();
    for k in keys.iter() {
        a.handle_normal_key(*k, false);
        assert!(a.cursor < a.visible.len());
        assert_eq!(a.visible, a.tree.visible_lines());
    }
}

#[test]
fn next_then_previous_returns_to_the_same_hit() {
    let mut a = app();
    press(&mut a, 'e');
    press(&mut a, '/');
    a.handle_search_key(Key::Char('a'));
    a.handle_search_key(Key::Enter);
    for _ in 0..3 {
        let (index, cursor) = (a.search_index, a.cursor);
        press(&mut a, 'n');
        press(&mut a, 'N');
        assert_eq!((a.search_index, a.cursor), (index, cursor));
        press(&mut a, 'N');
        press(&mut a, 'n');
        assert_eq!((a.search_index, a.cursor), (index, cursor));
        press(&mut a, 'n');
    }
}

#[test]
fn search_hits_are_exactly_the_matching_lines() {
    let mut a = app();
    press(&mut a, 'e');
    press(&mut a, '/');
    a.handle_search_key(Key::Char('e'));
    a.handle_search_key(Key::Enter);
    for line in 0..a.visible.len() {
        let hit = a.search_results.contains(&line);
        assert_eq!(hit, a.tree.node_matches(a.visible[line], "e"));
    }
    assert!(a.search_results.windows(2).all(|w| w[0] < w[1]));
}

#[test]
fn next_then_previous_returns_to_the_hit() {
    let mut a = app();
    press(&mut a, 'e');
    press(&mut a, '/');
    a.handle_search_key(Key::Char('a'));
    a.handle_search_key(Key::Enter);
    assert_eq!(a.search_index, 0);
    a.next_search_result();
    a.prev_search_result();
    assert_eq!(a.search_index, 0);
    assert_eq!(a.cursor, a.search_results[0]);
    a.prev_search_result();
    assert_eq!(a.search_index, a.search_results.len() - 1);
    a.next_search_result();
    assert_eq!(a.search_index, 0);
    assert_eq!(a.cursor, 1);
}
