use vstd::prelude::*;
use crate::text::{decimal, push_decimal, push_char, pop_char};
use crate::tree::{
    JsonTree, TreeNode, all_collapsed, all_expanded, expanded_to, lemma_same_shape_wf,
    lemma_vis_bounds, node_matches_spec, path_text, copied_text, toggled, vis,
};

verus! {

/// Whether keys move around the tree or edit the search query.
#[derive(Debug, Clone, Copy, PartialEq, Eq, Structural)]
pub enum InputMode {
    Normal,
    Search,
}

/// A key press, as far as the viewer tells keys apart.
#[derive(Debug, Clone, Copy, PartialEq, Eq, Structural)]
pub enum Key {
    Char(char),
    Enter,
    Esc,
    Backspace,
    Left,
    Right,
    Up,
    Down,
    Home,
    End,
    PageUp,
    PageDown,
    Other,
}

/// A mouse event, as far as the viewer tells them apart; `LeftDown` carries the row.
#[derive(Debug, Clone, Copy, PartialEq, Eq, Structural)]
pub enum MouseInput {
    ScrollUp,
    ScrollDown,
    LeftDown(u16),
    Other,
}

/// Text to put on the clipboard, and the word that reports it.
pub struct ClipboardRequest {
    pub text: String,
    pub prefix: String,
}

/// The viewer's whole state.
pub struct App {
    pub tree: JsonTree,
    pub visible: Vec<usize>,
    pub cursor: usize,
    pub scroll_offset: usize,
    pub input_mode: InputMode,
    pub search_query: String,
    pub search_results: Vec<usize>,
    pub search_index: usize,
    pub status_message: String,
    pub should_quit: bool,
    pub show_help: bool,
    pub filename: String,
}

/// The viewer's state as plain values.
pub struct AppView {
    pub nodes: Seq<TreeNode>,
    pub root: usize,
    pub visible: Seq<usize>,
    pub cursor: usize,
    pub scroll_offset: usize,
    pub input_mode: InputMode,
    pub query: Seq<char>,
    pub results: Seq<usize>,
    pub search_index: usize,
    pub status: Seq<char>,
    pub should_quit: bool,
    pub show_help: bool,
    pub filename: Seq<char>,
}

impl View for App {
    type V = AppView;

    open spec fn view(&self) -> AppView {
        AppView {
            nodes: self.tree.nodes@,
            root: self.tree.root,
            visible: self.visible@,
            cursor: self.cursor,
            scroll_offset: self.scroll_offset,
            input_mode: self.input_mode,
            query: self.search_query@,
            results: self.search_results@,
            search_index: self.search_index,
            status: self.status_message@,
            should_quit: self.should_quit,
            show_help: self.show_help,
            filename: self.filename@,
        }
    }
}

/// `a - b`, or 0 when `b` is larger.
pub open spec fn sat_sub(a: int, b: int) -> int {
    if a >= b {
        a - b
    } else {
        0
    }
}

pub open spec fn min(a: int, b: int) -> int {
    if a <= b {
        a
    } else {
        b
    }
}

/// The cursor kept on screen after the list shrank to `len` lines.
pub open spec fn clamp_cursor(c: int, len: int) -> int {
    if c >= len {
        sat_sub(len, 1)
    } else {
        c
    }
}

/// The line of the nearest node above line `k` that sits shallower than depth `d`.
pub open spec fn last_shallower(nodes: Seq<TreeNode>, visible: Seq<usize>, d: usize, k: int) -> Option<int>
    decreases k,
{
    if k <= 0 {
        None
    } else if nodes[visible[k - 1] as int].depth < d {
        Some(k - 1)
    } else {
        last_shallower(nodes, visible, d, k - 1)
    }
}

/// The lines, among the first `k`, whose node matches `query`.
pub open spec fn search_hits(nodes: Seq<TreeNode>, visible: Seq<usize>, query: Seq<char>, k: int) -> Seq<usize>
    decreases k,
{
    if k <= 0 {
        Seq::<usize>::empty()
    } else {
        search_hits(nodes, visible, query, k - 1) + if node_matches_spec(
            nodes[visible[k - 1] as int],
            query,
        ) {
            seq![(k - 1) as usize]
        } else {
            Seq::<usize>::empty()
        }
    }
}

/// The first position at or after `i` whose entry is at least `c`, or `s.len()`.
pub open spec fn position_at_least(s: Seq<usize>, c: usize, i: int) -> int
    decreases s.len() - i,
{
    if i >= s.len() || i < 0 {
        s.len() as int
    } else if s[i] >= c {
        i
    } else {
        position_at_least(s, c, i + 1)
    }
}

/// `[n/total] /query`.
pub open spec fn counter_message(n: nat, total: nat, query: Seq<char>) -> Seq<char> {
    seq!['['] + decimal(n) + seq!['/'] + decimal(total) + seq![']', ' ', '/'] + query
}

/// The same state with the cursor on line `c`.
pub open spec fn with_cursor(s: AppView, c: int) -> AppView {
    AppView { cursor: c as usize, ..s }
}

/// The same state with the lines rebuilt from the tree and the cursor kept on screen.
pub open spec fn refreshed(s: AppView) -> AppView {
    let lines = vis(s.nodes, s.root as int);
    AppView {
        visible: lines,
        cursor: clamp_cursor(s.cursor as int, lines.len() as int) as usize,
        ..s
    }
}

/// The same state with a new hit list and current hit.
pub open spec fn with_results(s: AppView, results: Seq<usize>, i: usize) -> AppView {
    AppView { results, search_index: i, ..s }
}

/// The same state with a new status line.
pub open spec fn with_status(s: AppView, status: Seq<char>) -> AppView {
    AppView { status, ..s }
}

/// The first line shown after scrolling so that line `c` is in a window of `h` lines
/// that started at `off`.
pub open spec fn scroll_after(c: int, off: int, h: int) -> int {
    if h == 0 {
        off
    } else if c < off {
        c
    } else if c >= off + h {
        c - h + 1
    } else {
        off
    }
}

/// The state after a search for the current query.
pub open spec fn search_outcome(s: AppView) -> AppView {
    let hits = search_hits(s.nodes, s.visible, s.query, s.visible.len() as int);
    if s.query.len() == 0 {
        AppView { results: Seq::<usize>::empty(), search_index: 0, status: Seq::<char>::empty(), ..s }
    } else if hits.len() == 0 {
        AppView {
            results: hits,
            search_index: 0,
            status: "Pattern not found: "@ + s.query,
            ..s
        }
    } else {
        let p = position_at_least(hits, s.cursor, 0);
        let i = if p < hits.len() {
            p
        } else {
            0
        };
        AppView {
            results: hits,
            search_index: i as usize,
            cursor: hits[i],
            status: counter_message((i + 1) as nat, hits.len(), s.query),
            ..s
        }
    }
}

/// The state after the arena became `nodes`: the lines are rebuilt, the cursor kept on
/// screen, and `status` shown.
pub open spec fn with_tree(s: AppView, nodes: Seq<TreeNode>, status: Seq<char>) -> AppView {
    let lines = vis(nodes, s.root as int);
    AppView {
        nodes,
        visible: lines,
        cursor: clamp_cursor(s.cursor as int, lines.len() as int) as usize,
        status,
        ..s
    }
}

/// The state after Enter, Space, `l` or Right on the current line.
pub open spec fn toggle_outcome(s: AppView) -> AppView {
    if s.cursor < s.visible.len() && s.nodes[s.visible[s.cursor as int] as int].expandable() {
        with_tree(s, toggled(s.nodes, s.visible[s.cursor as int] as int), s.status)
    } else {
        s
    }
}

/// The state after Left or `h`: close the open node under the cursor, else move to the
/// nearest shallower line above.
pub open spec fn collapse_outcome(s: AppView) -> AppView {
    if s.cursor < s.visible.len() {
        let node = s.nodes[s.visible[s.cursor as int] as int];
        if node.expandable() && node.expanded {
            with_tree(s, toggled(s.nodes, s.visible[s.cursor as int] as int), s.status)
        } else if node.depth > 0 {
            match last_shallower(s.nodes, s.visible, node.depth, s.cursor as int) {
                Some(i) => AppView { cursor: i as usize, ..s },
                None => s,
            }
        } else {
            s
        }
    } else {
        s
    }
}

/// The state after showing search hit `i`.
pub open spec fn at_hit(s: AppView, i: int) -> AppView {
    AppView {
        search_index: i as usize,
        cursor: s.results[i],
        status: counter_message((i + 1) as nat, s.results.len(), s.query),
        ..s
    }
}

/// The state after `n`: the next hit, wrapping around.
pub open spec fn next_outcome(s: AppView) -> AppView {
    if s.results.len() == 0 {
        s
    } else {
        at_hit(s, (s.search_index + 1) % (s.results.len() as int))
    }
}

/// The state after `N`: the previous hit, wrapping around.
pub open spec fn prev_outcome(s: AppView) -> AppView {
    if s.results.len() == 0 {
        s
    } else if s.search_index == 0 {
        at_hit(s, s.results.len() - 1)
    } else {
        at_hit(s, s.search_index - 1)
    }
}

/// A shortened copy of a copied text for the status line: 47 characters and an ellipsis
/// when it is longer than 50.
pub open spec fn preview(t: Seq<char>) -> Seq<char> {
    if t.len() > 50 {
        t.take(47) + seq!['…']
    } else {
        t
    }
}

impl App {
    /// The tree is well formed, every line shows a node of it, and a non-empty hit list
    /// has a current hit.
    pub open spec fn wf(&self) -> bool {
        &&& self.tree.wf()
        &&& forall|i: int|
            0 <= i < self.visible@.len() ==> #[trigger] self.visible@[i] < self.tree.nodes@.len()
        &&& self.search_results@.len() > 0 ==> self.search_index < self.search_results@.len()
    }

    /// The lines are those of the tree as it is now.
    pub open spec fn synced(&self) -> bool {
        self.visible@ == self.tree.visible()
    }

    pub fn new(tree: JsonTree, filename: String) -> (app: Self)
        requires
            tree.wf(),
        ensures
            app.wf(),
            app.synced(),
            app.tree == tree,
            app.filename == filename,
            app.cursor == 0,
            app.scroll_offset == 0,
            app.input_mode == InputMode::Normal,
            app.search_query@.len() == 0,
            app.search_results@.len() == 0,
            app.search_index == 0,
            app.status_message@.len() == 0,
            !app.should_quit,
            !app.show_help,
    {
        let visible = tree.visible_lines();
        proof {
            assert(tree.nodes.len() == tree.nodes@.len());
            lemma_vis_bounds(tree.nodes@, tree.root as int);
        }
        App {
            tree,
            visible,
            cursor: 0,
            scroll_offset: 0,
            input_mode: InputMode::Normal,
            search_query: String::new(),
            search_results: Vec::new(),
            search_index: 0,
            status_message: String::new(),
            should_quit: false,
            show_help: false,
            filename,
        }
    }

    fn refresh_visible(&mut self)
        requires
            old(self).tree.wf(),
            old(self).search_results@.len() > 0 ==> old(self).search_index < old(
                self,
            ).search_results@.len(),
        ensures
            final(self).wf(),
            final(self).synced(),
            final(self)@ == refreshed(old(self)@),
    {
        self.visible = self.tree.visible_lines();
        proof {
            assert(self.tree.nodes.len() == self.tree.nodes@.len());
            lemma_vis_bounds(self.tree.nodes@, self.tree.root as int);
        }
        if self.cursor >= self.visible.len() {
            self.cursor = if self.visible.len() > 0 {
                self.visible.len() - 1
            } else {
                0
            };
        }
    }

    fn move_up(&mut self)
        ensures
            final(self)@ == with_cursor(old(self)@, sat_sub(old(self).cursor as int, 1)),
    {
        self.cursor = self.cursor.saturating_sub(1);
    }

    fn move_down(&mut self)
        ensures
            final(self)@ == with_cursor(
                old(self)@,
                if old(self).cursor + 1 < old(self).visible@.len() {
                    old(self).cursor + 1
                } else {
                    old(self).cursor as int
                },
            ),
    {
        if self.cursor < self.visible.len() && self.cursor + 1 < self.visible.len() {
            self.cursor += 1;
        }
    }

    fn page_up(&mut self, amount: usize)
        ensures
            final(self)@ == with_cursor(old(self)@, sat_sub(old(self).cursor as int, amount as int)),
    {
        self.cursor = self.cursor.saturating_sub(amount);
    }

    fn page_down(&mut self, amount: usize)
        ensures
            final(self)@ == with_cursor(
                old(self)@,
                min(old(self).cursor + amount, sat_sub(old(self).visible@.len() as int, 1)),
            ),
    {
        let last = self.visible.len().saturating_sub(1);
        let target = self.cursor.saturating_add(amount);
        self.cursor = if target < last {
            target
        } else {
            last
        };
    }

    fn go_top(&mut self)
        ensures
            final(self)@ == with_cursor(old(self)@, 0),
    {
        self.cursor = 0;
    }

    fn go_bottom(&mut self)
        ensures
            final(self)@ == with_cursor(old(self)@, sat_sub(old(self).visible@.len() as int, 1)),
    {
        self.cursor = self.visible.len().saturating_sub(1);
    }
}


/// What a key does in normal mode.
pub enum KeyAction {
    Quit,
    Down,
    Up,
    Top,
    Bottom,
    PageUp,
    PageDown,
    Toggle,
    CollapseOrParent,
    ExpandAll,
    CollapseAll,
    StartSearch,
    NextMatch,
    PrevMatch,
    CopyValue,
    CopyPath,
    ExpandToDepth(nat),
    ShowHelp,
    Nothing,
}

/// The key bindings of normal mode.
pub open spec fn key_action(key: Key, ctrl: bool) -> KeyAction {
    match key {
        Key::Esc => KeyAction::Quit,
        Key::Down => KeyAction::Down,
        Key::Up => KeyAction::Up,
        Key::Home => KeyAction::Top,
        Key::End => KeyAction::Bottom,
        Key::PageUp => KeyAction::PageUp,
        Key::PageDown => KeyAction::PageDown,
        Key::Enter => KeyAction::Toggle,
        Key::Right => KeyAction::Toggle,
        Key::Left => KeyAction::CollapseOrParent,
        Key::Char(c) => if c == 'q' {
            KeyAction::Quit
        } else if c == 'c' && ctrl {
            KeyAction::Quit
        } else if c == 'j' {
            KeyAction::Down
        } else if c == 'k' {
            KeyAction::Up
        } else if c == 'g' {
            KeyAction::Top
        } else if c == 'G' {
            KeyAction::Bottom
        } else if c == 'b' {
            KeyAction::PageUp
        } else if c == 'f' {
            KeyAction::PageDown
        } else if c == ' ' || c == 'l' {
            KeyAction::Toggle
        } else if c == 'h' {
            KeyAction::CollapseOrParent
        } else if c == 'e' {
            KeyAction::ExpandAll
        } else if c == 'c' {
            KeyAction::CollapseAll
        } else if c == '/' {
            KeyAction::StartSearch
        } else if c == 'n' {
            KeyAction::NextMatch
        } else if c == 'N' {
            KeyAction::PrevMatch
        } else if c == 'y' {
            KeyAction::CopyValue
        } else if c == 'Y' {
            KeyAction::CopyPath
        } else if '1' <= c && c <= '9' {
            KeyAction::ExpandToDepth((c as u32 - 48) as nat)
        } else if c == '?' {
            KeyAction::ShowHelp
        } else {
            KeyAction::Nothing
        },
        _ => KeyAction::Nothing,
    }
}

/// The state after an action of normal mode (copying leaves the state as it is).
pub open spec fn action_outcome(s: AppView, a: KeyAction) -> AppView {
    match a {
        KeyAction::Quit => AppView { should_quit: true, ..s },
        KeyAction::Down => with_cursor(
            s,
            if s.cursor + 1 < s.visible.len() {
                s.cursor + 1
            } else {
                s.cursor as int
            },
        ),
        KeyAction::Up => with_cursor(s, sat_sub(s.cursor as int, 1)),
        KeyAction::Top => with_cursor(s, 0),
        KeyAction::Bottom => with_cursor(s, sat_sub(s.visible.len() as int, 1)),
        KeyAction::PageUp => with_cursor(s, sat_sub(s.cursor as int, 20)),
        KeyAction::PageDown => with_cursor(s, min(s.cursor + 20, sat_sub(s.visible.len() as int, 1))),
        KeyAction::Toggle => toggle_outcome(s),
        KeyAction::CollapseOrParent => collapse_outcome(s),
        KeyAction::ExpandAll => with_tree(s, all_expanded(s.nodes), "Expanded all nodes"@),
        KeyAction::CollapseAll => with_tree(
            s,
            all_collapsed(s.nodes, s.root as int),
            "Collapsed all nodes"@,
        ),
        KeyAction::StartSearch => AppView {
            input_mode: InputMode::Search,
            query: Seq::<char>::empty(),
            status: seq!['/'],
            ..s
        },
        KeyAction::NextMatch => next_outcome(s),
        KeyAction::PrevMatch => prev_outcome(s),
        KeyAction::ExpandToDepth(d) => with_tree(
            s,
            expanded_to(s.nodes, d as int),
            "Expanded to depth "@ + decimal(d),
        ),
        KeyAction::ShowHelp => AppView { show_help: true, ..s },
        _ => s,
    }
}

/// What a copy key asks to put on the clipboard: the text of the value under the cursor
/// after "Copied", or the current path after "Copied path".
pub open spec fn copy_request(s: AppView, a: KeyAction, req: ClipboardRequest) -> bool {
    match a {
        KeyAction::CopyValue => {
            &&& req.prefix@ == "Copied"@
            &&& req.text@ == copied_text(s.nodes, s.visible[s.cursor as int] as int)
        },
        KeyAction::CopyPath => {
            &&& req.prefix@ == "Copied path"@
            &&& req.text@ == if s.cursor < s.visible.len() {
                path_text(s.nodes, s.root as int, s.visible[s.cursor as int] as int)
            } else {
                seq!['$']
            }
        },
        _ => false,
    }
}

/// The state after a key in normal mode: with the help shown, any key only hides it.
pub open spec fn normal_key_outcome(s: AppView, key: Key, ctrl: bool) -> AppView {
    if s.show_help {
        AppView { show_help: false, ..s }
    } else {
        action_outcome(s, key_action(key, ctrl))
    }
}

/// The state after a key in search mode.
pub open spec fn search_key_outcome(s: AppView, key: Key) -> AppView {
    match key {
        Key::Enter => search_outcome(AppView { input_mode: InputMode::Normal, ..s }),
        Key::Esc => AppView {
            input_mode: InputMode::Normal,
            query: Seq::<char>::empty(),
            results: Seq::<usize>::empty(),
            status: Seq::<char>::empty(),
            ..s
        },
        Key::Backspace => {
            let q = if s.query.len() > 0 {
                s.query.drop_last()
            } else {
                s.query
            };
            AppView { query: q, status: seq!['/'] + q, ..s }
        },
        Key::Char(c) => AppView { query: s.query.push(c), status: seq!['/'] + s.query.push(c), ..s },
        _ => s,
    }
}

/// The state after a mouse event.
pub open spec fn mouse_outcome(s: AppView, m: MouseInput) -> AppView {
    match m {
        MouseInput::ScrollUp => with_cursor(s, sat_sub(s.cursor as int, 3)),
        MouseInput::ScrollDown => with_cursor(s, min(s.cursor + 3, sat_sub(s.visible.len() as int, 1))),
        MouseInput::LeftDown(row) => {
            let target = s.scroll_offset + row - 1;
            if row >= 1 && target < s.visible.len() {
                if s.cursor == target {
                    toggle_outcome(s)
                } else {
                    with_cursor(s, target)
                }
            } else {
                s
            }
        },
        MouseInput::Other => s,
    }
}

/// `[n/total] /query`, as the status line shows the current hit.
fn counter_text(n: usize, total: usize, query: &str) -> (r: String)
    ensures
        r@ == counter_message(n as nat, total as nat, query@),
{
    proof {
        reveal_strlit("[");
        reveal_strlit("/");
        reveal_strlit("] /");
    }
    let mut r = String::from_str("[");
    push_decimal(&mut r, n);
    r.append("/");
    push_decimal(&mut r, total);
    r.append("] /");
    r.append(query);
    assert(r@ =~= counter_message(n as nat, total as nat, query@));
    r
}

impl App {
    fn toggle_or_expand(&mut self)
        requires
            old(self).wf(),
        ensures
            final(self).wf(),
            final(self)@ == toggle_outcome(old(self)@),
            old(self).synced() ==> final(self).synced(),
    {
        if self.cursor < self.visible.len() {
            let node_idx = self.visible[self.cursor];
            if self.tree.nodes[node_idx].is_expandable() {
                let ghost before = self.tree.nodes@;
                self.tree.toggle(node_idx);
                proof {
                    lemma_same_shape_wf(before, self.tree.nodes@);
                }
                self.refresh_visible();
            }
        }
    }

    /// The line of the nearest node above line `from` that sits shallower than `depth`.
    fn find_parent_line(&self, depth: usize, from: usize) -> (r: Option<usize>)
        requires
            self.wf(),
            from <= self.visible@.len(),
        ensures
            r == (match last_shallower(self.tree.nodes@, self.visible@, depth, from as int) {
                Some(i) => Some(i as usize),
                None => None::<usize>,
            }),
    {
        let mut i = from;
        while i > 0
            invariant
                self.wf(),
                i <= from <= self.visible@.len(),
                last_shallower(self.tree.nodes@, self.visible@, depth, from as int)
                    == last_shallower(self.tree.nodes@, self.visible@, depth, i as int),
            decreases i,
        {
            i -= 1;
            if self.tree.nodes[self.visible[i]].depth < depth {
                return Some(i);
            }
        }
        None
    }

    fn collapse_or_parent(&mut self)
        requires
            old(self).wf(),
        ensures
            final(self).wf(),
            final(self)@ == collapse_outcome(old(self)@),
            old(self).synced() ==> final(self).synced(),
    {
        if self.cursor < self.visible.len() {
            let node_idx = self.visible[self.cursor];
            let expandable = self.tree.nodes[node_idx].is_expandable();
            let expanded = self.tree.nodes[node_idx].expanded;
            let depth = self.tree.nodes[node_idx].depth;
            if expandable && expanded {
                let ghost before = self.tree.nodes@;
                self.tree.toggle(node_idx);
                proof {
                    lemma_same_shape_wf(before, self.tree.nodes@);
                }
                self.refresh_visible();
            } else if depth > 0 {
                // Move to the parent: the nearest line above with a smaller depth.
                if let Some(i) = self.find_parent_line(depth, self.cursor) {
                    self.cursor = i;
                }
            }
        }
    }

    fn expand_all(&mut self)
        requires
            old(self).wf(),
        ensures
            final(self).wf(),
            final(self).synced(),
            final(self)@ == with_tree(old(self)@, all_expanded(old(self)@.nodes), "Expanded all nodes"@),
    {
        let ghost before = self.tree.nodes@;
        self.tree.expand_all();
        proof {
            lemma_same_shape_wf(before, self.tree.nodes@);
        }
        self.refresh_visible();
        self.status_message = String::from_str("Expanded all nodes");
    }

    fn collapse_all(&mut self)
        requires
            old(self).wf(),
        ensures
            final(self).wf(),
            final(self).synced(),
            final(self)@ == with_tree(
                old(self)@,
                all_collapsed(old(self)@.nodes, old(self)@.root as int),
                "Collapsed all nodes"@,
            ),
    {
        let ghost before = self.tree.nodes@;
        self.tree.collapse_all();
        proof {
            lemma_same_shape_wf(before, self.tree.nodes@);
        }
        self.refresh_visible();
        self.status_message = String::from_str("Collapsed all nodes");
    }

    fn expand_to_depth(&mut self, depth: usize)
        requires
            old(self).wf(),
        ensures
            final(self).wf(),
            final(self).synced(),
            final(self)@ == with_tree(
                old(self)@,
                expanded_to(old(self)@.nodes, depth as int),
                "Expanded to depth "@ + decimal(depth as nat),
            ),
    {
        let ghost before = self.tree.nodes@;
        self.tree.expand_to_depth(depth);
        proof {
            lemma_same_shape_wf(before, self.tree.nodes@);
        }
        self.refresh_visible();
        let mut msg = String::from_str("Expanded to depth ");
        push_decimal(&mut msg, depth);
        self.status_message = msg;
    }

    /// The path of the node under the cursor, or `$` when the cursor is past the last line.
    pub fn current_path(&self) -> (path: String)
        requires
            self.wf(),
        ensures
            path@ == if self.cursor < self.visible@.len() {
                path_text(
                    self.tree.nodes@,
                    self.tree.root as int,
                    self.visible@[self.cursor as int] as int,
                )
            } else {
                seq!['$']
            },
    {
        if self.cursor < self.visible.len() {
            self.tree.get_path(self.visible[self.cursor])
        } else {
            proof {
                reveal_strlit("$");
            }
            String::from_str("$")
        }
    }

    fn perform_search(&mut self)
        requires
            old(self).wf(),
        ensures
            final(self).wf(),
            final(self)@ == search_outcome(old(self)@),
            old(self).synced() ==> final(self).synced(),
    {
        self.search_results.clear();
        self.search_index = 0;
        if self.search_query.as_str().is_empty() {
            self.status_message = String::new();
            return;
        }
        let n = self.visible.len();
        let mut i: usize = 0;
        while i < n
            invariant
                old(self).wf(),
                n == old(self).visible@.len(),
                i <= n,
                self@ == with_results(
                    old(self)@,
                    search_hits(old(self)@.nodes, old(self)@.visible, old(self)@.query, i as int),
                    0,
                ),
                forall|k: int| 0 <= k < self.search_results@.len() ==> #[trigger] self.search_results@[k] < i,
            decreases n - i,
        {
            assert(self.visible@[i as int] < self.tree.nodes@.len());
            let ghost before = self.search_results@;
            if self.tree.node_matches(self.visible[i], self.search_query.as_str()) {
                self.search_results.push(i);
            }
            assert(self.search_results@ =~= search_hits(
                old(self)@.nodes,
                old(self)@.visible,
                old(self)@.query,
                i + 1,
            ));
            i += 1;
        }
        let total = self.search_results.len();
        if total == 0 {
            let mut msg = String::from_str("Pattern not found: ");
            msg.append(self.search_query.as_str());
            self.status_message = msg;
        } else {
            let ghost hits = self.search_results@;
            let mut p: usize = 0;
            while p < total && self.search_results[p] < self.cursor
                invariant
                    total == hits.len(),
                    self.search_results@ == hits,
                    p <= total,
                    position_at_least(hits, self.cursor, p as int) == position_at_least(hits, self.cursor, 0),
                decreases total - p,
            {
                p += 1;
            }
            let index = if p < total {
                p
            } else {
                0
            };
            self.search_index = index;
            self.cursor = self.search_results[index];
            self.status_message = counter_text(index + 1, total, self.search_query.as_str());
        }
    }

    fn show_hit(&mut self, i: usize)
        requires
            old(self).wf(),
            i < old(self).search_results@.len(),
        ensures
            final(self).wf(),
            final(self)@ == at_hit(old(self)@, i as int),
            old(self).synced() ==> final(self).synced(),
    {
        assert(self.search_results.len() == self.search_results@.len());
        self.search_index = i;
        self.cursor = self.search_results[i];
        self.status_message = counter_text(i + 1, self.search_results.len(), self.search_query.as_str());
    }

    /// Moves to the next search hit, round to the first after the last.
    pub fn next_search_result(&mut self)
        requires
            old(self).wf(),
        ensures
            final(self).wf(),
            final(self)@ == next_outcome(old(self)@),
            old(self).synced() ==> final(self).synced(),
    {
        if self.search_results.len() == 0 {
            return;
        }
        let i = (self.search_index + 1) % self.search_results.len();
        self.show_hit(i);
    }

    /// Moves to the previous search hit, round to the last before the first.
    pub fn prev_search_result(&mut self)
        requires
            old(self).wf(),
        ensures
            final(self).wf(),
            final(self)@ == prev_outcome(old(self)@),
            old(self).synced() ==> final(self).synced(),
    {
        if self.search_results.len() == 0 {
            return;
        }
        let i = if self.search_index == 0 {
            self.search_results.len() - 1
        } else {
            self.search_index - 1
        };
        self.show_hit(i);
    }

    /// Scrolls just enough to keep the cursor inside a window of `viewport_height` lines.
    pub fn adjust_scroll(&mut self, viewport_height: usize)
        ensures
            final(self)@ == (AppView {
                scroll_offset: scroll_after(
                    old(self).cursor as int,
                    old(self).scroll_offset as int,
                    viewport_height as int,
                ) as usize,
                ..old(self)@
            }),
    {
        if viewport_height == 0 {
            return;
        }
        if self.cursor < self.scroll_offset {
            self.scroll_offset = self.cursor;
        } else if self.cursor - self.scroll_offset >= viewport_height {
            self.scroll_offset = self.cursor - viewport_height + 1;
        } else {
            // The cursor is inside the window: nothing to do.
        }
    }

    pub fn handle_mouse(&mut self, mouse: MouseInput)
        requires
            old(self).wf(),
        ensures
            final(self).wf(),
            final(self)@ == mouse_outcome(old(self)@, mouse),
            old(self).synced() ==> final(self).synced(),
    {
        match mouse {
            MouseInput::ScrollUp => {
                self.cursor = self.cursor.saturating_sub(3);
                assert(self.cursor == sat_sub(old(self).cursor as int, 3));
            },
            MouseInput::ScrollDown => {
                let last = self.visible.len().saturating_sub(1);
                let target = self.cursor.saturating_add(3);
                self.cursor = if target < last {
                    target
                } else {
                    last
                };
                assert(self.cursor == min(old(self).cursor + 3, sat_sub(old(self).visible@.len() as int, 1)));
            },
            MouseInput::LeftDown(row) => {
                assert(self.visible.len() == self.visible@.len());
                if row >= 1 {
                    let line_in_viewport = (row - 1) as usize;
                    if let Some(target) = self.scroll_offset.checked_add(line_in_viewport) {
                        if target < self.visible.len() {
                            if self.cursor == target {
                                self.toggle_or_expand();
                            } else {
                                self.cursor = target;
                            }
                        }
                    }
                }
            },
            MouseInput::Other => {},
        }
    }

    /// The request to copy the value under the cursor, when there is one.
    pub fn copy_value(&self) -> (r: Option<ClipboardRequest>)
        requires
            self.wf(),
        ensures
            r is Some <==> self.cursor < self.visible@.len(),
            r matches Some(req) ==> {
                &&& req.prefix@ == "Copied"@
                &&& req.text@ == copied_text(self.tree.nodes@, self.visible@[self.cursor as int] as int)
            },
    {
        if self.cursor < self.visible.len() {
            let value = self.tree.node_value_string(self.visible[self.cursor]);
            Some(ClipboardRequest { text: value, prefix: String::from_str("Copied") })
        } else {
            None
        }
    }

    /// The request to copy the path of the line under the cursor.
    pub fn copy_path(&self) -> (r: ClipboardRequest)
        requires
            self.wf(),
        ensures
            r.prefix@ == "Copied path"@,
            r.text@ == if self.cursor < self.visible@.len() {
                path_text(
                    self.tree.nodes@,
                    self.tree.root as int,
                    self.visible@[self.cursor as int] as int,
                )
            } else {
                seq!['$']
            },
    {
        let path = self.current_path();
        ClipboardRequest { text: path, prefix: String::from_str("Copied path") }
    }

    /// Reports on the status line whether `text` reached the clipboard.
    pub fn report_copy(&mut self, text: &str, prefix: &str, copied: bool)
        ensures
            final(self)@ == with_status(
                old(self)@,
                if copied {
                    prefix@ + ": "@ + preview(text@)
                } else {
                    "Failed to copy to clipboard"@
                },
            ),
    {
        if copied {
            let mut msg = String::from_str(prefix);
            msg.append(": ");
            if text.unicode_len() > 50 {
                msg.append(text.substring_char(0, 47));
                proof {
                    reveal_strlit("…");
                }
                msg.append("…");
            } else {
                msg.append(text);
            }
            assert(msg@ =~= prefix@ + ": "@ + preview(text@));
            self.status_message = msg;
        } else {
            self.status_message = String::from_str("Failed to copy to clipboard");
        }
    }

    pub fn handle_search_key(&mut self, key: Key)
        requires
            old(self).wf(),
        ensures
            final(self).wf(),
            final(self)@ == search_key_outcome(old(self)@, key),
            old(self).synced() ==> final(self).synced(),
    {
        match key {
            Key::Enter => {
                self.input_mode = InputMode::Normal;
                self.perform_search();
            },
            Key::Esc => {
                self.input_mode = InputMode::Normal;
                self.search_query = String::new();
                self.search_results.clear();
                self.status_message = String::new();
            },
            Key::Backspace => {
                pop_char(&mut self.search_query);
                proof {
                    reveal_strlit("/");
                }
                let mut msg = String::from_str("/");
                msg.append(self.search_query.as_str());
                assert(msg@ =~= seq!['/'] + self.search_query@);
                self.status_message = msg;
            },
            Key::Char(c) => {
                push_char(&mut self.search_query, c);
                proof {
                    reveal_strlit("/");
                }
                let mut msg = String::from_str("/");
                msg.append(self.search_query.as_str());
                assert(msg@ =~= seq!['/'] + self.search_query@);
                self.status_message = msg;
            },
            _ => {},
        }
    }

    /// Carries out a key of normal mode; a copy key gives back what to put on the clipboard.
    pub fn handle_normal_key(&mut self, key: Key, ctrl: bool) -> (r: Option<ClipboardRequest>)
        requires
            old(self).wf(),
        ensures
            final(self).wf(),
            final(self)@ == normal_key_outcome(old(self)@, key, ctrl),
            old(self).synced() ==> final(self).synced(),
            r is Some <==> !old(self).show_help && (key_action(key, ctrl) is CopyPath || (key_action(
                key,
                ctrl,
            ) is CopyValue && old(self).cursor < old(self).visible@.len())),
            r matches Some(req) ==> copy_request(old(self)@, key_action(key, ctrl), req),
    {
        if self.show_help {
            self.show_help = false;
            return None;
        }
        match key {
            Key::Esc => {
                self.should_quit = true;
                None
            },
            Key::Down => {
                self.move_down();
                None
            },
            Key::Up => {
                self.move_up();
                None
            },
            Key::Home => {
                self.go_top();
                None
            },
            Key::End => {
                self.go_bottom();
                None
            },
            Key::PageUp => {
                self.page_up(20);
                None
            },
            Key::PageDown => {
                self.page_down(20);
                None
            },
            Key::Enter | Key::Right => {
                self.toggle_or_expand();
                None
            },
            Key::Left => {
                self.collapse_or_parent();
                None
            },
            Key::Char(c) => self.handle_char(c, ctrl),
            _ => None,
        }
    }

    fn handle_char(&mut self, c: char, ctrl: bool) -> (r: Option<ClipboardRequest>)
        requires
            old(self).wf(),
            !old(self).show_help,
        ensures
            final(self).wf(),
            final(self)@ == action_outcome(old(self)@, key_action(Key::Char(c), ctrl)),
            old(self).synced() ==> final(self).synced(),
            r is Some <==> (key_action(Key::Char(c), ctrl) is CopyPath || (key_action(
                Key::Char(c),
                ctrl,
            ) is CopyValue && old(self).cursor < old(self).visible@.len())),
            r matches Some(req) ==> copy_request(old(self)@, key_action(Key::Char(c), ctrl), req),
    {
        if c == 'q' || (c == 'c' && ctrl) {
            self.should_quit = true;
            None
        } else if c == 'j' {
            self.move_down();
            None
        } else if c == 'k' {
            self.move_up();
            None
        } else if c == 'g' {
            self.go_top();
            None
        } else if c == 'G' {
            self.go_bottom();
            None
        } else if c == 'b' {
            self.page_up(20);
            None
        } else if c == 'f' {
            self.page_down(20);
            None
        } else if c == ' ' || c == 'l' {
            self.toggle_or_expand();
            None
        } else if c == 'h' {
            self.collapse_or_parent();
            None
        } else if c == 'e' {
            self.expand_all();
            None
        } else if c == 'c' {
            self.collapse_all();
            None
        } else if c == '/' {
            self.input_mode = InputMode::Search;
            self.search_query = String::new();
            proof {
                reveal_strlit("/");
            }
            self.status_message = String::from_str("/");
            assert(self.status_message@ =~= seq!['/']);
            None
        } else if c == 'n' {
            self.next_search_result();
            None
        } else if c == 'N' {
            self.prev_search_result();
            None
        } else if c == 'y' {
            self.copy_value()
        } else if c == 'Y' {
            Some(self.copy_path())
        } else if '1' <= c && c <= '9' {
            let depth = (c as u32 - 48) as usize;
            self.expand_to_depth(depth);
            None
        } else if c == '?' {
            self.show_help = true;
            None
        } else {
            None
        }
    }
}

} // verus!
