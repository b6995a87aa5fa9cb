use vstd::prelude::*;
use vstd::string::StringSliceAdditionalSpecFns;
use vstd::utf8::{decode_utf8, encode_utf8, is_char_boundary, encode_utf8_decode_utf8};
use crate::app::{App, min, sat_sub};
use crate::picker::Entry;
use crate::text::{decimal, push_decimal};
use crate::tree::{NodeKind, TreeNode, bool_text};

verus! {

/// The fold marker in front of a node.
#[derive(Debug, Clone, Copy, PartialEq, Eq, Structural)]
pub enum Marker {
    Open,
    Closed,
    Leaf,
}

/// How a node's key is shown: `[i]` for an array element, `"key"` for a member.
#[derive(Debug, Clone, Copy, PartialEq, Eq, Structural)]
pub enum LabelStyle {
    Index,
    Member,
}

/// The colour class of a node's value text.
#[derive(Debug, Clone, Copy, PartialEq, Eq, Structural)]
pub enum ValueStyle {
    Bracket,
    Summary,
    Str,
    Number,
    Bool,
    Null,
}

/// How a line stands out: the cursor's line, a search hit, or neither.
#[derive(Debug, Clone, Copy, PartialEq, Eq, Structural)]
pub enum Highlight {
    Selected,
    SearchHit,
    Plain,
}

/// Everything a tree line shows, before colours are chosen. The line reads `indent`,
/// `marker_text`, `label_text`, `separator` and `value`, in that order.
pub struct LineModel {
    pub indent: String,
    pub marker: Marker,
    pub marker_text: String,
    pub label: Option<String>,
    pub label_style: LabelStyle,
    pub label_text: String,
    pub separator: String,
    pub value: String,
    pub value_style: ValueStyle,
    pub highlight: Highlight,
}

/// `n` copies of `s`.
pub open spec fn repeat(s: Seq<char>, n: nat) -> Seq<char>
    decreases n,
{
    if n == 0 {
        Seq::<char>::empty()
    } else {
        repeat(s, (n - 1) as nat) + s
    }
}

/// `" field"` or `" item"`, with an `s` unless there is exactly one.
pub open spec fn count_text(n: nat, word: Seq<char>) -> Seq<char> {
    decimal(n) + seq![' '] + word + if n == 1 {
        Seq::<char>::empty()
    } else {
        seq!['s']
    }
}

/// The summary of a non-empty container between its brackets: the member count in words
/// when open, an ellipsis and the count when closed.
pub open spec fn summary(n: nat, expanded: bool, word: Seq<char>) -> Seq<char> {
    if expanded {
        count_text(n, word)
    } else {
        seq!['…'] + decimal(n)
    }
}

/// A string value as shown: quoted, and cut to its first 117 bytes with an ellipsis when
/// it is longer than 120 bytes.
pub open spec fn shown_string(s: Seq<char>) -> Seq<char> {
    if encode_utf8(s).len() > 120 {
        seq!['"'] + decode_utf8(encode_utf8(s).subrange(0, 117)) + seq!['…', '"']
    } else {
        seq!['"'] + s + seq!['"']
    }
}

/// The value text of a node.
pub open spec fn value_text(node: TreeNode) -> Seq<char> {
    match node.kind {
        NodeKind::Object(n) => if n == 0 {
            seq!['{', '}']
        } else {
            seq!['{'] + summary(n as nat, node.expanded, "field"@) + seq!['}']
        },
        NodeKind::Array(n) => if n == 0 {
            seq!['[', ']']
        } else {
            seq!['['] + summary(n as nat, node.expanded, "item"@) + seq![']']
        },
        NodeKind::String(s) => shown_string(s@),
        NodeKind::Number(n) => n@,
        NodeKind::Bool(b) => bool_text(b),
        NodeKind::Null => seq!['n', 'u', 'l', 'l'],
    }
}

/// The fold glyph in front of a node: an open or a closed triangle, or two spaces.
pub open spec fn marker_text(node: TreeNode) -> Seq<char> {
    if node.expandable() {
        if node.expanded {
            "▼ "@
        } else {
            "▶ "@
        }
    } else {
        "  "@
    }
}

/// The key of a node as shown: `[i]` for an array element, `"key"` for a member, nothing
/// for the root.
pub open spec fn label_text(node: TreeNode) -> Seq<char> {
    match node.key {
        Some(k) => if node.is_array_element {
            "["@ + k@ + "]"@
        } else {
            "\""@ + k@ + "\""@
        },
        None => Seq::<char>::empty(),
    }
}

/// What stands between a key and its value: `": "` after a key, nothing for the root.
pub open spec fn separator_text(node: TreeNode) -> Seq<char> {
    if node.key is Some {
        ": "@
    } else {
        Seq::<char>::empty()
    }
}

pub open spec fn value_style(node: TreeNode) -> ValueStyle {
    match node.kind {
        NodeKind::Object(n) => if n == 0 {
            ValueStyle::Bracket
        } else {
            ValueStyle::Summary
        },
        NodeKind::Array(n) => if n == 0 {
            ValueStyle::Bracket
        } else {
            ValueStyle::Summary
        },
        NodeKind::String(_) => ValueStyle::Str,
        NodeKind::Number(_) => ValueStyle::Number,
        NodeKind::Bool(_) => ValueStyle::Bool,
        NodeKind::Null => ValueStyle::Null,
    }
}

/// A string node that the line would cut inside a character (which the viewer refuses).
pub open spec fn cuts_inside_char(node: TreeNode) -> bool {
    match node.kind {
        NodeKind::String(s) => encode_utf8(s@).len() > 120 && !is_char_boundary(encode_utf8(s@), 117),
        _ => false,
    }
}

fn push_count(out: &mut String, n: usize, word: &str)
    ensures
        final(out)@ == old(out)@ + count_text(n as nat, word@),
{
    push_decimal(out, n);
    proof {
        reveal_strlit(" ");
        reveal_strlit("s");
    }
    out.append(" ");
    out.append(word);
    if n != 1 {
        out.append("s");
    }
    assert(out@ =~= old(out)@ + count_text(n as nat, word@));
}

fn container_text(n: usize, expanded: bool, open: &str, close: &str, word: &str) -> (r: String)
    requires
        n > 0,
    ensures
        r@ == open@ + summary(n as nat, expanded, word@) + close@,
{
    let mut r = String::from_str(open);
    if expanded {
        push_count(&mut r, n, word);
    } else {
        proof {
            reveal_strlit("…");
        }
        r.append("…");
        push_decimal(&mut r, n);
    }
    r.append(close);
    assert(r@ =~= open@ + summary(n as nat, expanded, word@) + close@);
    r
}

fn string_text(s: &String) -> (r: String)
    requires
        encode_utf8(s@).len() > 120 ==> is_char_boundary(encode_utf8(s@), 117),
    ensures
        r@ == shown_string(s@),
{
    proof {
        reveal_strlit("\"");
        reveal_strlit("…\"");
    }
    assert("\""@ =~= seq!['"']);
    assert("…\""@ =~= seq!['…', '"']);
    let mut r = String::from_str("\"");
    let t = s.as_str();
    assert(t.spec_bytes() == encode_utf8(s@));
    let bytes = t.as_bytes();
    assert(bytes.len() == bytes@.len());
    if t.len() > 120 {
        let (head, _) = t.split_at(117);
        r.append(head);
        r.append("…\"");
        proof {
            encode_utf8_decode_utf8(head@);
            assert(head@ == decode_utf8(encode_utf8(s@).subrange(0, 117)));
            assert(r@ == seq!['"'] + head@ + seq!['…', '"']);
        }
    } else {
        r.append(t);
        r.append("\"");
        assert(r@ == seq!['"'] + s@ + seq!['"']);
    }
    assert(r@ =~= shown_string(s@));
    r
}

/// `2 * n` spaces.
fn indent_text(n: usize) -> (r: String)
    ensures
        r@ == repeat(seq![' ', ' '], n as nat),
{
    let mut r = String::new();
    let mut i: usize = 0;
    proof {
        reveal_strlit("  ");
        assert("  "@ =~= seq![' ', ' ']);
    }
    while i < n
        invariant
            i <= n,
            r@ == repeat(seq![' ', ' '], i as nat),
        decreases n - i,
    {
        proof {
            reveal_strlit("  ");
            assert("  "@ =~= seq![' ', ' ']);
        }
        r.append("  ");
        assert(r@ =~= repeat(seq![' ', ' '], (i + 1) as nat));
        i += 1;
    }
    r
}

impl App {
    /// What line `line_index`, showing node `node_idx`, holds.
    pub fn render_node(&self, line_index: usize, node_idx: usize) -> (m: LineModel)
        requires
            self.wf(),
            node_idx < self.tree.nodes@.len(),
            !cuts_inside_char(self.tree.nodes@[node_idx as int]),
        ensures
            ({
                let node = self.tree.nodes@[node_idx as int];
                &&& m.indent@ == repeat(seq![' ', ' '], node.depth as nat)
                &&& m.marker_text@ == marker_text(node)
                &&& m.label_text@ == label_text(node)
                &&& m.separator@ == separator_text(node)
                &&& m.marker == if node.expandable() {
                    if node.expanded {
                        Marker::Open
                    } else {
                        Marker::Closed
                    }
                } else {
                    Marker::Leaf
                }
                &&& (node.key is None ==> m.label is None)
                &&& (node.key matches Some(k) ==> m.label matches Some(l) && l@ == k@ && m.label_style
                    == if node.is_array_element {
                    LabelStyle::Index
                } else {
                    LabelStyle::Member
                })
                &&& m.value@ == value_text(node)
                &&& m.value_style == value_style(node)
                &&& m.highlight == if line_index == self.cursor {
                    Highlight::Selected
                } else if self.search_results@.contains(line_index) {
                    Highlight::SearchHit
                } else {
                    Highlight::Plain
                }
            }),
    {
        let node = &self.tree.nodes[node_idx];
        let indent = indent_text(node.depth);
        let (marker, marker_text) = if node.is_expandable() {
            if node.expanded {
                (Marker::Open, String::from_str("▼ "))
            } else {
                (Marker::Closed, String::from_str("▶ "))
            }
        } else {
            (Marker::Leaf, String::from_str("  "))
        };
        let label = match &node.key {
            Some(k) => Some(k.clone()),
            None => None,
        };
        let label_style = if node.is_array_element {
            LabelStyle::Index
        } else {
            LabelStyle::Member
        };
        let (label_text, separator) = match &node.key {
            Some(k) => {
                let mut t = if node.is_array_element {
                    String::from_str("[")
                } else {
                    String::from_str("\"")
                };
                t.append(k.as_str());
                if node.is_array_element {
                    t.append("]");
                } else {
                    t.append("\"");
                }
                (t, String::from_str(": "))
            },
            None => (String::new(), String::new()),
        };
        proof {
            reveal_strlit("{}");
            reveal_strlit("[]");
            reveal_strlit("true");
            reveal_strlit("false");
            reveal_strlit("null");
        }
        let (value, value_style) = match &node.kind {
            NodeKind::Object(n) => {
                if *n == 0 {
                    (String::from_str("{}"), ValueStyle::Bracket)
                } else {
                    (container_text(*n, node.expanded, "{", "}", "field"), ValueStyle::Summary)
                }
            },
            NodeKind::Array(n) => {
                if *n == 0 {
                    (String::from_str("[]"), ValueStyle::Bracket)
                } else {
                    (container_text(*n, node.expanded, "[", "]", "item"), ValueStyle::Summary)
                }
            },
            NodeKind::String(s) => (string_text(s), ValueStyle::Str),
            NodeKind::Number(n) => (n.clone(), ValueStyle::Number),
            NodeKind::Bool(b) => {
                if *b {
                    (String::from_str("true"), ValueStyle::Bool)
                } else {
                    (String::from_str("false"), ValueStyle::Bool)
                }
            },
            NodeKind::Null => (String::from_str("null"), ValueStyle::Null),
        };
        proof {
            reveal_strlit("{");
            reveal_strlit("}");
            reveal_strlit("[");
            reveal_strlit("]");
        }
        let highlight = if line_index == self.cursor {
            Highlight::Selected
        } else if contains_line(&self.search_results, line_index) {
            Highlight::SearchHit
        } else {
            Highlight::Plain
        };
        LineModel {
            indent,
            marker,
            marker_text,
            label,
            label_style,
            label_text,
            separator,
            value,
            value_style,
            highlight,
        }
    }
}

impl App {
    /// The title of the tree view: the document's name between two spaces.
    pub fn title(&self) -> (r: String)
        ensures
            r@ == " "@ + self.filename@ + " "@,
    {
        let mut r = String::from_str(" ");
        r.append(self.filename.as_str());
        r.append(" ");
        r
    }
}

impl App {
    /// Whether the line of node `node_idx` would cut a long string inside a character.
    pub fn line_cut_fails(&self, node_idx: usize) -> (r: bool)
        requires
            node_idx < self.tree.nodes@.len(),
        ensures
            r == cuts_inside_char(self.tree.nodes@[node_idx as int]),
    {
        match &self.tree.nodes[node_idx].kind {
            NodeKind::String(s) => {
                let t = s.as_str();
                let bytes = t.as_bytes();
                assert(bytes.len() == bytes@.len());
                t.len() > 120 && !t.is_char_boundary(117)
            },
            _ => false,
        }
    }
}

fn contains_line(v: &Vec<usize>, x: usize) -> (r: bool)
    ensures
        r == v@.contains(x),
{
    let mut i: usize = 0;
    while i < v.len()
        invariant
            i <= v@.len(),
            forall|j: int| 0 <= j < i ==> v@[j] != x,
        decreases v@.len() - i,
    {
        if v[i] == x {
            return true;
        }
        i += 1;
    }
    false
}


/// The path bar: the path on the left (cut from the front to fit), the node count on
/// the right, and the spaces between them.
pub struct PathBar {
    pub left: String,
    pub padding: usize,
    pub right: String,
}

/// `{n} nodes`.
pub open spec fn node_count_text(n: nat) -> Seq<char> {
    decimal(n) + " nodes"@
}

/// The room left for the path, in bytes.
pub open spec fn path_room(width: int, n: nat) -> int {
    sat_sub(width, (encode_utf8(node_count_text(n)).len() + 2) as int)
}

/// The path as shown: whole when it fits, else an ellipsis and its last bytes.
pub open spec fn shown_path(path: Seq<char>, room: int) -> Seq<char> {
    let b = encode_utf8(path);
    if b.len() > room {
        seq!['…'] + decode_utf8(b.subrange(b.len() - room + 1, b.len() as int))
    } else {
        path
    }
}

/// A path the bar would cut inside a character, or past its end (which the viewer refuses).
pub open spec fn path_cut_fails(path: Seq<char>, room: int) -> bool {
    let b = encode_utf8(path);
    b.len() > room && (room < 1 || !is_char_boundary(b, b.len() - room + 1))
}

/// The path bar for `path`, `node_count` lines and a bar `width` columns wide.
pub fn path_bar(path: &str, node_count: usize, width: usize) -> (bar: PathBar)
    requires
        !path_cut_fails(path@, path_room(width as int, node_count as nat)),
    ensures
        bar.left@ == seq![' '] + shown_path(path@, path_room(width as int, node_count as nat)),
        bar.right@ == node_count_text(node_count as nat) + seq![' '],
        bar.padding == sat_sub(
            sat_sub(
                width as int,
                encode_utf8(shown_path(path@, path_room(width as int, node_count as nat))).len() as int,
            ),
            (encode_utf8(node_count_text(node_count as nat)).len() + 1) as int,
        ),
{
    let mut count = String::new();
    push_decimal(&mut count, node_count);
    count.append(" nodes");
    let count_str = count.as_str();
    let count_bytes = count_str.as_bytes();
    assert(count_bytes.len() == count_bytes@.len());
    assert(count@ =~= node_count_text(node_count as nat));
    assert(count_str.spec_bytes() == encode_utf8(node_count_text(node_count as nat)));
    let right_len = count_str.len().saturating_add(1);
    let left_max = width.saturating_sub(right_len.saturating_add(1));
    let path_bytes = path.as_bytes();
    assert(path_bytes.len() == path_bytes@.len());
    let display = if path.len() > left_max {
        let (_, tail) = path.split_at(path.len() - left_max + 1);
        proof {
            reveal_strlit("…");
            encode_utf8_decode_utf8(tail@);
        }
        let mut d = String::from_str("…");
        d.append(tail);
        assert(d@ =~= shown_path(path@, path_room(width as int, node_count as nat)));
        d
    } else {
        String::from_str(path)
    };
    let display_bytes = display.as_str().as_bytes();
    assert(display_bytes.len() == display_bytes@.len());
    let padding = width.saturating_sub(display.as_str().len()).saturating_sub(right_len);
    proof {
        reveal_strlit(" ");
    }
    let mut left = String::from_str(" ");
    left.append(display.as_str());
    let mut right = count;
    right.append(" ");
    assert(left@ =~= seq![' '] + shown_path(path@, path_room(width as int, node_count as nat)));
    assert(right@ =~= node_count_text(node_count as nat) + seq![' ']);
    PathBar { left, padding, right }
}

/// Whether `path_bar` would have to cut the path inside a character or past its end.
pub fn path_cut_would_fail(path: &str, node_count: usize, width: usize) -> (r: bool)
    ensures
        r == path_cut_fails(path@, path_room(width as int, node_count as nat)),
{
    let mut count = String::new();
    push_decimal(&mut count, node_count);
    count.append(" nodes");
    let count_str = count.as_str();
    let count_bytes = count_str.as_bytes();
    assert(count_bytes.len() == count_bytes@.len());
    assert(count@ =~= node_count_text(node_count as nat));
    let right_len = count_str.len().saturating_add(1);
    let left_max = width.saturating_sub(right_len.saturating_add(1));
    let path_bytes = path.as_bytes();
    assert(path_bytes.len() == path_bytes@.len());
    if path.len() > left_max {
        left_max < 1 || !path.is_char_boundary(path.len() - left_max + 1)
    } else {
        false
    }
}

/// The two ends of the status bar, the spaces between them, and which kind of content
/// they hold.
pub struct StatusBar {
    pub left: String,
    pub padding: usize,
    pub right: String,
    pub kind: StatusKind,
}

/// The number of terminal columns that `s` takes, as ratatui measures a span's content
/// (by the Unicode width of its characters).
pub uninterp spec fn text_width(s: Seq<char>) -> nat;

/// Calls ratatui's `Span::width` on a raw span holding `s`.
#[verifier::external_body]
fn display_width(s: &str) -> (r: usize)
    ensures
        r == text_width(s@),
{
    ratatui::text::Span::raw(s).width()
}

/// The spaces between the two ends of a bar `width` columns wide: what is left of the
/// width after both ends, or none.
fn bar_padding(left: &str, right: &str, width: usize) -> (r: usize)
    ensures
        r == sat_sub(width as int, (text_width(left@) + text_width(right@)) as int),
{
    let lw = display_width(left);
    let rw = display_width(right);
    width.saturating_sub(lw.saturating_add(rw))
}

#[derive(Debug, Clone, Copy, PartialEq, Eq, Structural)]
pub enum StatusKind {
    Search,
    Message,
    Hints,
}

impl App {
    /// The status bar on a line `width` columns wide: the query being typed, else the last
    /// message, else the key hints; the spaces between the two ends fill the line.
    pub fn status_bar(&self, width: usize) -> (bar: StatusBar)
        ensures
            bar.padding == sat_sub(width as int, (text_width(bar.left@) + text_width(bar.right@)) as int),
            self.input_mode == crate::app::InputMode::Search ==> bar.kind == StatusKind::Search
                && bar.left@ == " /"@ + self.search_query@ && bar.right@
                == " Enter:confirm  Esc:cancel "@,
            self.input_mode != crate::app::InputMode::Search && self.status_message@.len() > 0
                ==> bar.kind == StatusKind::Message && bar.left@ == " "@ + self.status_message@
                && bar.right@ == " ?:help  q:quit "@,
            self.input_mode != crate::app::InputMode::Search && self.status_message@.len() == 0
                ==> bar.kind == StatusKind::Hints && bar.left@
                == " ↑↓/jk:move  ←→/hl:collapse/expand  e/c:all  /:search  ?:help  q:quit "@
                && bar.right@.len() == 0,
    {
        let (left, right, kind) = if self.input_mode == crate::app::InputMode::Search {
            let mut left = String::from_str(" /");
            left.append(self.search_query.as_str());
            (left, String::from_str(" Enter:confirm  Esc:cancel "), StatusKind::Search)
        } else if !self.status_message.as_str().is_empty() {
            let mut left = String::from_str(" ");
            left.append(self.status_message.as_str());
            (left, String::from_str(" ?:help  q:quit "), StatusKind::Message)
        } else {
            (
                String::from_str(
                    " ↑↓/jk:move  ←→/hl:collapse/expand  e/c:all  /:search  ?:help  q:quit ",
                ),
                String::new(),
                StatusKind::Hints,
            )
        };
        let padding = bar_padding(left.as_str(), right.as_str(), width);
        StatusBar { left, padding, right, kind }
    }

}

/// Where the help popup goes on a `width` by `height` screen: at most 48 by 22, four
/// cells smaller than the screen, centred.
pub fn help_popup_area(width: u16, height: u16) -> (r: (u16, u16, u16, u16))
    ensures
        r.2 == min(48, sat_sub(width as int, 4)),
        r.3 == min(22, sat_sub(height as int, 4)),
        r.0 == (width - r.2) / 2,
        r.1 == (height - r.3) / 2,
{
    let w4 = width.saturating_sub(4);
    let popup_width = if 48 < w4 {
        48
    } else {
        w4
    };
    let h4 = height.saturating_sub(4);
    let popup_height = if 22 < h4 {
        22
    } else {
        h4
    };
    let x = width.saturating_sub(popup_width) / 2;
    let y = height.saturating_sub(popup_height) / 2;
    (x, y, popup_width, popup_height)
}

/// The keys the help popup lists and what each does, in order.
pub open spec fn help_table() -> Seq<(Seq<char>, Seq<char>)> {
    seq![
        ("j / ↓"@, "Move down"@),
        ("k / ↑"@, "Move up"@),
        ("h / ←"@, "Collapse / go to parent"@),
        ("l / → / Enter"@, "Expand / toggle"@),
        ("g"@, "Go to top"@),
        ("G"@, "Go to bottom"@),
        ("f / PageDown"@, "Page down"@),
        ("b / PageUp"@, "Page up"@),
        ("e"@, "Expand all nodes"@),
        ("c"@, "Collapse all nodes"@),
        ("1-9"@, "Expand to depth N"@),
        ("/"@, "Search"@),
        ("n / N"@, "Next / previous match"@),
        ("y"@, "Copy value to clipboard"@),
        ("Y"@, "Copy path to clipboard"@),
        ("q / Esc"@, "Quit"@),
        ("?"@, "Toggle this help"@)
    ]
}

/// A key as its help column shows it: two spaces, then the key padded to 18 characters.
pub open spec fn key_column(key: Seq<char>) -> Seq<char> {
    "  "@ + key + repeat(seq![' '], sat_sub(18, key.len() as int) as nat)
}

/// The lines of the help popup: each key in its column, and what the key does.
pub fn help_lines() -> (r: Vec<(String, String)>)
    ensures
        r@.len() == help_table().len(),
        forall|i: int|
            0 <= i < r@.len() ==> (#[trigger] r@[i]).0@ == key_column(help_table()[i].0)
                && r@[i].1@ == help_table()[i].1,
{
    let table: Vec<(&str, &str)> = vec![
        ("j / ↓", "Move down"),
        ("k / ↑", "Move up"),
        ("h / ←", "Collapse / go to parent"),
        ("l / → / Enter", "Expand / toggle"),
        ("g", "Go to top"),
        ("G", "Go to bottom"),
        ("f / PageDown", "Page down"),
        ("b / PageUp", "Page up"),
        ("e", "Expand all nodes"),
        ("c", "Collapse all nodes"),
        ("1-9", "Expand to depth N"),
        ("/", "Search"),
        ("n / N", "Next / previous match"),
        ("y", "Copy value to clipboard"),
        ("Y", "Copy path to clipboard"),
        ("q / Esc", "Quit"),
        ("?", "Toggle this help")
    ];
    assert(table@.len() == help_table().len());
    assert(forall|i: int| 0 <= i < table@.len() ==> (#[trigger] table@[i]).0@ == help_table()[i].0
        && table@[i].1@ == help_table()[i].1);
    let mut r: Vec<(String, String)> = Vec::new();
    let mut i: usize = 0;
    while i < table.len()
        invariant
            i <= table@.len(),
            table@.len() == help_table().len(),
            forall|j: int| 0 <= j < table@.len() ==> (#[trigger] table@[j]).0@ == help_table()[j].0
                && table@[j].1@ == help_table()[j].1,
            r@.len() == i,
            forall|j: int|
                0 <= j < i ==> (#[trigger] r@[j]).0@ == key_column(help_table()[j].0)
                    && r@[j].1@ == help_table()[j].1,
        decreases table@.len() - i,
    {
        let (key, desc) = table[i];
        r.push((help_key_text(key), String::from_str(desc)));
        i += 1;
    }
    r
}

/// A key column of the help popup: two spaces, then the key padded to 18 characters.
pub fn help_key_text(key: &str) -> (r: String)
    ensures
        r@ == "  "@ + key@ + repeat(seq![' '], sat_sub(18, key@.len() as int) as nat),
{
    let mut r = String::from_str("  ");
    r.append(key);
    let n = key.unicode_len();
    let mut i = n;
    proof {
        reveal_strlit(" ");
    }
    while i < 18
        invariant
            n == key@.len(),
            n <= i,
            i <= 18 || i == n,
            r@ == "  "@ + key@ + repeat(seq![' '], sat_sub(i as int, n as int) as nat),
        decreases 18 - i,
    {
        proof {
            reveal_strlit(" ");
            assert(" "@ =~= seq![' ']);
        }
        r.append(" ");
        assert(r@ =~= "  "@ + key@ + repeat(seq![' '], sat_sub((i + 1) as int, n as int) as nat));
        i += 1;
    }
    r
}

/// The lines of a list of `len` that a window of `height` lines starting at `offset` shows.
pub fn window(len: usize, offset: usize, height: usize) -> (r: (usize, usize))
    ensures
        r.0 == min(offset as int, len as int),
        r.1 == min(offset + height, len as int),
{
    let start = if offset < len {
        offset
    } else {
        len
    };
    let end = match offset.checked_add(height) {
        Some(e) => if e < len {
            e
        } else {
            len
        },
        None => len,
    };
    (start, end)
}

/// The scrollbar's content length when a list of `len` lines overflows `height` lines.
pub fn scrollbar_content(len: usize, height: usize) -> (r: Option<usize>)
    ensures
        len > height ==> r == Some((len - height) as usize),
        len <= height ==> r is None,
{
    if len > height {
        Some(len - height)
    } else {
        None
    }
}

/// The pieces of a picker line, before colours are chosen.
pub struct EntryLine {
    pub mark: String,
    pub icon: String,
    pub suffix: String,
}

/// A picker line: a pointer on the selected entry, a folder or page icon, a slash after
/// a directory name.
pub fn entry_line(entry: &Entry, selected: bool) -> (l: EntryLine)
    ensures
        l.mark@ == if selected {
            "▸ "@
        } else {
            "  "@
        },
        l.icon@ == if entry.is_dir {
            "📁 "@
        } else {
            "📄 "@
        },
        l.suffix@ == if entry.is_dir {
            "/"@
        } else {
            ""@
        },
{
    let mark = if selected {
        String::from_str("▸ ")
    } else {
        String::from_str("  ")
    };
    let icon = if entry.is_dir {
        String::from_str("📁 ")
    } else {
        String::from_str("📄 ")
    };
    let suffix = if entry.is_dir {
        String::from_str("/")
    } else {
        String::from_str("")
    };
    EntryLine { mark, icon, suffix }
}

/// The picker's status line: the key hints, the item count (the `..` line not counted),
/// and the spaces between them on a line `width` bytes wide.
pub struct PickerStatus {
    pub hint: String,
    pub padding: usize,
    pub count: String,
}

pub fn picker_status(entries: usize, width: usize) -> (st: PickerStatus)
    ensures
        st.hint@ == " ↑↓/jk:move  Enter/l:open  h/←:parent  .:hidden  q/Esc:cancel "@,
        st.count@ == decimal(sat_sub(entries as int, 1) as nat) + " items "@,
        st.padding == sat_sub(
            width as int,
            (encode_utf8(st.hint@).len() + encode_utf8(st.count@).len()) as int,
        ),
{
    let hint = String::from_str(" ↑↓/jk:move  Enter/l:open  h/←:parent  .:hidden  q/Esc:cancel ");
    let mut count = String::new();
    push_decimal(&mut count, entries.saturating_sub(1));
    count.append(" items ");
    let hb = hint.as_str().as_bytes();
    assert(hb.len() == hb@.len());
    let cb = count.as_str().as_bytes();
    assert(cb.len() == cb@.len());
    let used = hint.as_str().len().saturating_add(count.as_str().len());
    let padding = width.saturating_sub(used);
    PickerStatus { hint, padding, count }
}

} // verus!
