use js::app::{App, InputMode};
use js::picker::Entry;
use js::tree::{close_container, JsonTree, NodeKind, TreeNode, TreeSeed};
use js::ui::{LineModel, 
    entry_line, help_key_text, help_lines, help_popup_area, path_bar, path_cut_would_fail, picker_status,
    scrollbar_content, window, Highlight, LabelStyle, Marker, StatusKind, ValueStyle,
};

fn s(v: &str) -> String {
    v.to_string()
}

fn sample_app() -> App {
    let mut nodes: Vec<TreeNode> = Vec::new();
    let root = TreeSeed::new(None, 0, false).open_container(&mut nodes, false);
    let long: String = format!("a{}", "é".repeat(70));
    let name = TreeSeed::member(0, s("name")).push_leaf(&mut nodes, NodeKind::String(s("Alice")));
    let text = TreeSeed::member(0, s("text")).push_leaf(&mut nodes, NodeKind::String(long));
    let list = TreeSeed::member(0, s("list")).open_container(&mut nodes, true);
    let one = TreeSeed::element(1, 0).push_leaf(&mut nodes, NodeKind::Number(s("1")));
    close_container(&mut nodes, list, vec![one], true);
    let empty = TreeSeed::member(0, s("empty")).open_container(&mut nodes, false);
    close_container(&mut nodes, empty, vec![], false);
    let flag = TreeSeed::member(0, s("flag")).push_leaf(&mut nodes, NodeKind::Bool(false));
    close_container(&mut nodes, root, vec![name, text, list, empty, flag], false);
    App::new(JsonTree { nodes, root }, s("doc.json"))
}

#[test]
fn lines_show_markers_labels_and_summaries() {
    let mut app = sample_app();
    let root = app.render_node(0, 0);
    assert_eq!(root.indent, "");
    assert!(root.marker == Marker::Open);
    assert!(root.label.is_none());
    assert_eq!(root.value, "{5 fields}");
    assert!(root.value_style == ValueStyle::Summary);
    assert!(root.highlight == Highlight::Selected);

    let name = app.render_node(1, 1);
    assert_eq!(name.indent, "  ");
    assert!(name.marker == Marker::Leaf);
    assert_eq!(name.label.as_deref(), Some("name"));
    assert!(name.label_style == LabelStyle::Member);
    assert_eq!(name.value, "\"Alice\"");
    assert!(name.highlight == Highlight::Plain);

    let list = app.render_node(3, 3);
    assert!(list.marker == Marker::Closed);
    assert_eq!(list.value, "[…1]");
    app.tree.toggle(3);
    assert_eq!(app.render_node(3, 3).value, "[1 item]");
    let one = app.render_node(4, 4);
    assert_eq!(one.indent, "    ");
    assert!(one.label_style == LabelStyle::Index);
    assert_eq!(one.value, "1");
    assert!(one.value_style == ValueStyle::Number);

    let empty = app.render_node(5, 5);
    assert_eq!(empty.value, "{}");
    assert!(empty.value_style == ValueStyle::Bracket);
    assert!(empty.marker == Marker::Leaf);

    let flag = app.render_node(6, 6);
    assert_eq!(flag.value, "false");
    assert!(flag.value_style == ValueStyle::Bool);

    app.search_results = vec![1];
    assert!(app.render_node(1, 1).highlight == Highlight::SearchHit);
}

#[test]
fn long_strings_are_cut_at_117_bytes() {
    let app = sample_app();
    assert!(!app.line_cut_fails(2));
    let text = app.render_node(2, 2);
    assert_eq!(text.value, format!("\"a{}…\"", "é".repeat(58)));
}

#[test]
fn odd_cut_points_are_detected() {
    let mut app = sample_app();
    app.tree.nodes[2].kind = NodeKind::String("é".repeat(70));
    assert!(app.line_cut_fails(2));
    assert!(!app.line_cut_fails(1));
}

#[test]
fn path_bar_fits_the_width() {
    let bar = path_bar("$.name", 7, 40);
    assert_eq!(bar.left, " $.name");
    assert_eq!(bar.right, "7 nodes ");
    assert_eq!(bar.padding, 40 - 6 - 8);
    let bar = path_bar("$.a.b.c.d.e.f", 7, 18);
    assert_eq!(bar.left, " ….c.d.e.f");
    assert_eq!(bar.padding, 0);
    let bar = path_bar("$.a.b.c.d.e.f", 7, 30);
    assert_eq!(bar.left, " $.a.b.c.d.e.f");
    assert_eq!(bar.padding, 30 - 13 - 8);
    assert!(path_cut_would_fail("$.abc", 7, 8));
    assert!(!path_cut_would_fail("$.abc", 7, 40));
}

#[test]
fn status_bar_shows_query_message_or_hints() {
    let mut app = sample_app();
    let bar = app.status_bar(200);
    assert!(bar.kind == StatusKind::Hints);
    assert!(bar.right.is_empty());
    assert_eq!(bar.padding, 200 - 70);
    app.status_message = s("Copied: x");
    let bar = app.status_bar(40);
    assert!(bar.kind == StatusKind::Message);
    assert_eq!(bar.left, " Copied: x");
    assert_eq!(bar.right, " ?:help  q:quit ");
    assert_eq!(bar.padding, 40 - 10 - 16);
    app.input_mode = InputMode::Search;
    app.search_query = s("ab");
    let bar = app.status_bar(20);
    assert!(bar.kind == StatusKind::Search);
    assert_eq!(bar.left, " /ab");
    assert_eq!(bar.right, " Enter:confirm  Esc:cancel ");
    assert_eq!(bar.padding, 0);
}

#[test]
fn help_popup_is_centred_and_bounded() {
    assert_eq!(help_popup_area(100, 40), (26, 9, 48, 22));
    assert_eq!(help_popup_area(30, 10), (2, 2, 26, 6));
    assert_eq!(help_popup_area(2, 2), (1, 1, 0, 0));
    assert_eq!(help_key_text("g"), format!("  g{}", " ".repeat(17)));
    assert_eq!(help_key_text("j / ↓"), format!("  j / ↓{}", " ".repeat(13)));
    assert_eq!(help_key_text("abcdefghijklmnopqrstu"), "  abcdefghijklmnopqrstu");
}

#[test]
fn windows_and_scrollbars() {
    assert_eq!(window(10, 2, 3), (2, 5));
    assert_eq!(window(10, 8, 5), (8, 10));
    assert_eq!(window(3, 5, 2), (3, 3));
    assert_eq!(window(3, usize::MAX, 2), (3, 3));
    assert_eq!(scrollbar_content(10, 4), Some(6));
    assert_eq!(scrollbar_content(4, 4), None);
}

#[test]
fn picker_lines_and_status() {
    let dir = Entry { name: s("src"), is_dir: true, path: std::path::PathBuf::from("src") };
    let l = entry_line(&dir, true);
    assert_eq!(l.mark, "▸ ");
    assert_eq!(l.icon, "📁 ");
    assert_eq!(l.suffix, "/");
    let file = Entry { name: s("a.json"), is_dir: false, path: std::path::PathBuf::from("a.json") };
    let l = entry_line(&file, false);
    assert_eq!(l.mark, "  ");
    assert_eq!(l.icon, "📄 ");
    assert_eq!(l.suffix, "");
    let st = picker_status(4, 200);
    assert_eq!(st.count, "3 items ");
    assert_eq!(st.padding, 200 - st.hint.len() - 8);
    assert_eq!(picker_status(0, 10).count, "0 items ");
    assert_eq!(picker_status(0, 10).padding, 0);
}

fn line_text(m: &LineModel) -> String {
    format!("{}{}{}{}{}", m.indent, m.marker_text, m.label_text, m.separator, m.value)
}

#[test]
fn lines_read_as_the_viewer_shows_them() {
    let mut nodes: Vec<TreeNode> = Vec::new();
    let root = TreeSeed::new(None, 0, false).open_container(&mut nodes, true);
    let obj = TreeSeed::element(0, 0).open_container(&mut nodes, false);
    let k = TreeSeed::member(1, s("k")).push_leaf(&mut nodes, NodeKind::Number(s("1")));
    close_container(&mut nodes, obj, vec![k], false);
    close_container(&mut nodes, root, vec![obj], true);
    let mut app = App::new(JsonTree { nodes, root }, s("f"));
    let first = app.render_node(0, 0);
    assert_eq!(line_text(&first), "▼ [1 item]");
    assert!(first.highlight == Highlight::Selected);
    let second = app.render_node(1, 1);
    assert_eq!(line_text(&second), "  ▶ [0]: {…1}");
    assert!(second.highlight == Highlight::Plain);
    app.tree.toggle(1);
    let third = app.render_node(2, 2);
    assert_eq!(line_text(&third), "      \"k\": 1");
    assert!(third.label_style == LabelStyle::Member);
    assert!(third.value_style == ValueStyle::Number);
}

#[test]
fn status_padding_counts_columns_not_bytes() {
    let mut app = sample_app();
    app.status_message = s("é");
    let bar = app.status_bar(30);
    assert_eq!(bar.left, " é");
    assert_eq!(bar.padding, 30 - 2 - 16);
}

#[test]
fn help_lists_every_key_in_order() {
    let lines = help_lines();
    assert_eq!(lines.len(), 17);
    assert_eq!(lines[0], (format!("  j / ↓{}", " ".repeat(13)), s("Move down")));
    assert_eq!(lines[3], (format!("  l / → / Enter{}", " ".repeat(5)), s("Expand / toggle")));
    assert_eq!(lines[10], (format!("  1-9{}", " ".repeat(15)), s("Expand to depth N")));
    assert_eq!(lines[15], (format!("  q / Esc{}", " ".repeat(11)), s("Quit")));
    assert_eq!(lines[16], (format!("  ?{}", " ".repeat(17)), s("Toggle this help")));
    let keys: Vec<String> = lines.iter().map(|(k, _)| k.trim().to_string()).collect();
    assert_eq!(
        keys,
        vec![
            "j / ↓", "k / ↑", "h / ←", "l / → / Enter", "g", "G", "f / PageDown", "b / PageUp",
            "e", "c", "1-9", "/", "n / N", "y", "Y", "q / Esc", "?"
        ]
    );
}

#[test]
fn tree_title_names_the_document() {
    let app = sample_app();
    assert_eq!(app.title(), " doc.json ");
}
