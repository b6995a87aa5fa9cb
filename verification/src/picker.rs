use vstd::prelude::*;
use crate::app::{Key, MouseInput, min, sat_sub, scroll_after};
use crate::text::{chars_of, lowercase, to_lower};

verus! {

#[verifier::external_type_specification]
#[verifier::external_body]
pub struct ExPathBuf(std::path::PathBuf);

/// The path `Path::join` gives for `dir` and `..`.
pub uninterp spec fn joined_up(dir: std::path::PathBuf) -> std::path::PathBuf;

/// The text that `Path::display` writes for `p` (lossy where `p` is not Unicode).
pub uninterp spec fn display_text(p: std::path::PathBuf) -> Seq<char>;

/// Calls `Path::join` with `..`: the path of the directory above `dir`, not resolved.
/// Claims only that the result is the named function of `dir`.
#[verifier::external_body]
fn parent_of(dir: &std::path::PathBuf) -> (r: std::path::PathBuf)
    ensures
        r == joined_up(*dir),
{
    dir.join("..")
}

/// Writes `p` through `Path::display`. Claims only that the text is the named function
/// of `p`.
#[verifier::external_body]
fn path_display(p: &std::path::PathBuf) -> (r: String)
    ensures
        r@ == display_text(*p),
{
    p.display().to_string()
}

/// A line of the file picker: a directory or a JSON file.
pub struct Entry {
    pub name: String,
    pub is_dir: bool,
    pub path: std::path::PathBuf,
}

/// The file picker shown when no document was given.
pub struct FilePicker {
    pub cwd: std::path::PathBuf,
    pub entries: Vec<Entry>,
    pub cursor: usize,
    pub scroll_offset: usize,
    pub show_hidden: bool,
}

/// What the picker asks of its caller after a key.
pub enum PickerAction {
    /// Nothing beyond the state change.
    Stay,
    /// The user gave up.
    Cancel,
    /// Open the file of entry `i`.
    OpenEntry(usize),
    /// Go into the directory of entry `i` (after resolving it).
    EnterDir(usize),
    /// Go to the directory above the current one (after resolving it).
    GoUp,
    /// List the current directory again.
    Rescan,
}

/// A name is hidden when it starts with a dot.
pub open spec fn is_hidden(name: Seq<char>) -> bool {
    name.len() > 0 && name[0] == '.'
}

/// `c` is `lower` or its ASCII capital.
pub open spec fn ascii_ci_eq(c: char, lower: char) -> bool {
    c == lower || (c as u32) + 32 == lower as u32
}

/// The name has the extension `json` in any ASCII case, as `Path::extension` and
/// `eq_ignore_ascii_case` decide it for a file name: the text after the last dot is `json`
/// and something stands before that dot.
pub open spec fn is_json_name(name: Seq<char>) -> bool {
    let n = name.len();
    &&& n >= 6
    &&& name[n - 5] == '.'
    &&& ascii_ci_eq(name[n - 4], 'j')
    &&& ascii_ci_eq(name[n - 3], 's')
    &&& ascii_ci_eq(name[n - 2], 'o')
    &&& ascii_ci_eq(name[n - 1], 'n')
}

/// The entries among the first `k` that the listing keeps as directories.
pub open spec fn kept_dirs(list: Seq<Entry>, show_hidden: bool, k: int) -> Seq<Entry>
    decreases k,
{
    if k <= 0 {
        Seq::<Entry>::empty()
    } else {
        let e = list[k - 1];
        kept_dirs(list, show_hidden, k - 1) + if (show_hidden || !is_hidden(e.name@)) && e.is_dir {
            seq![e]
        } else {
            Seq::<Entry>::empty()
        }
    }
}

/// The entries among the first `k` that the listing keeps as JSON files.
pub open spec fn kept_files(list: Seq<Entry>, show_hidden: bool, k: int) -> Seq<Entry>
    decreases k,
{
    if k <= 0 {
        Seq::<Entry>::empty()
    } else {
        let e = list[k - 1];
        kept_files(list, show_hidden, k - 1) + if (show_hidden || !is_hidden(e.name@)) && !e.is_dir
            && is_json_name(e.name@) {
            seq![e]
        } else {
            Seq::<Entry>::empty()
        }
    }
}

/// `a` sorts before or with `b`: string order, character by character.
pub open spec fn lex_le(a: Seq<char>, b: Seq<char>) -> bool
    decreases a.len(),
{
    if a.len() == 0 {
        true
    } else if b.len() == 0 {
        false
    } else if a[0] != b[0] {
        (a[0] as u32) < (b[0] as u32)
    } else {
        lex_le(a.drop_first(), b.drop_first())
    }
}

/// The key the listing is sorted by.
pub open spec fn sort_key(e: Entry) -> Seq<char> {
    lowercase(e.name@)
}

/// Where an entry with key `k` goes in a sorted list: after every entry whose key sorts
/// with or before it, counting from position `j`.
pub open spec fn insert_pos(sorted: Seq<Entry>, k: Seq<char>, j: int) -> int
    decreases sorted.len() - j,
{
    if j < 0 || j >= sorted.len() {
        sorted.len() as int
    } else if !lex_le(sort_key(sorted[j]), k) {
        j
    } else {
        insert_pos(sorted, k, j + 1)
    }
}

/// The first `k` entries sorted by key, entries with equal keys in their original order
/// (the order a stable sort gives).
pub open spec fn sorted_prefix(list: Seq<Entry>, k: int) -> Seq<Entry>
    decreases k,
{
    if k <= 0 {
        Seq::<Entry>::empty()
    } else {
        let s = sorted_prefix(list, k - 1);
        s.insert(insert_pos(s, sort_key(list[k - 1]), 0), list[k - 1])
    }
}

pub open spec fn sorted_by_name(list: Seq<Entry>) -> Seq<Entry> {
    sorted_prefix(list, list.len() as int)
}

fn chars_le(a: &Vec<char>, b: &Vec<char>) -> (r: bool)
    ensures
        r == lex_le(a@, b@),
{
    let mut i: usize = 0;
    assert(a@.skip(0) =~= a@);
    assert(b@.skip(0) =~= b@);
    while i < a.len()
        invariant
            i <= a@.len(),
            i <= b@.len(),
            a@.take(i as int) == b@.take(i as int),
            lex_le(a@, b@) == lex_le(a@.skip(i as int), b@.skip(i as int)),
        decreases a@.len() - i,
    {
        if i >= b.len() {
            return false;
        }
        assert(a@.skip(i as int)[0] == a@[i as int]);
        assert(b@.skip(i as int)[0] == b@[i as int]);
        if a[i] != b[i] {
            return (a[i] as u32) < (b[i] as u32);
        }
        assert(a@.skip(i as int).drop_first() =~= a@.skip(i + 1));
        assert(b@.skip(i as int).drop_first() =~= b@.skip(i + 1));
        assert(a@.take(i + 1) =~= a@.take(i as int).push(a@[i as int]));
        assert(b@.take(i + 1) =~= b@.take(i as int).push(b@[i as int]));
        i += 1;
    }
    true
}

/// Sorts by lowercase name with a stable insertion sort.
fn sort_by_name(list: Vec<Entry>) -> (out: Vec<Entry>)
    ensures
        out@ == sorted_by_name(list@),
{
    let ghost orig = list@;
    let n = list.len();
    let mut rest = list;
    let mut out: Vec<Entry> = Vec::new();
    let mut keys: Vec<Vec<char>> = Vec::new();
    let mut i: usize = 0;
    while i < n
        invariant
            n == orig.len(),
            i <= n,
            rest@ == orig.skip(i as int),
            out@ == sorted_prefix(orig, i as int),
            keys@.len() == out@.len(),
            forall|j: int| 0 <= j < keys@.len() ==> (#[trigger] keys@[j])@ == sort_key(out@[j]),
        decreases n - i,
    {
        assert(rest@.len() > 0);
        let e = rest.remove(0);
        assert(e == orig[i as int]);
        let lowered = to_lower(e.name.as_str());
        let key = chars_of(lowered.as_str());
        let mut j: usize = 0;
        while j < keys.len() && chars_le(&keys[j], &key)
            invariant
                keys@.len() == out@.len(),
                forall|m: int| 0 <= m < keys@.len() ==> (#[trigger] keys@[m])@ == sort_key(out@[m]),
                j <= out@.len(),
                key@ == sort_key(e),
                insert_pos(out@, key@, j as int) == insert_pos(out@, key@, 0),
            decreases keys@.len() - j,
        {
            j += 1;
        }
        assert(insert_pos(out@, key@, j as int) == j);
        let ghost before = out@;
        let ghost before_keys = keys@;
        out.insert(j, e);
        keys.insert(j, key);
        assert(rest@ =~= orig.skip(i + 1));
        assert forall|m: int| 0 <= m < keys@.len() implies (#[trigger] keys@[m])@ == sort_key(out@[m]) by {
            if m < j {
                assert(keys@[m] == before_keys[m]);
                assert(out@[m] == before[m]);
            } else if m > j {
                assert(keys@[m] == before_keys[m - 1]);
                assert(out@[m] == before[m - 1]);
            }
        }
        i += 1;
    }
    out
}


fn is_json_file_name(name: &str) -> (r: bool)
    ensures
        r == is_json_name(name@),
{
    let c = chars_of(name);
    let n = c.len();
    if n < 6 {
        return false;
    }
    c[n - 5] == '.' && ascii_ci(c[n - 4], 'j') && ascii_ci(c[n - 3], 's') && ascii_ci(c[n - 2], 'o')
        && ascii_ci(c[n - 1], 'n')
}

fn ascii_ci(c: char, lower: char) -> (r: bool)
    requires
        'a' <= lower <= 'z',
    ensures
        r == ascii_ci_eq(c, lower),
{
    c == lower || (c as u32) + 32 == lower as u32
}

fn starts_with_dot(name: &str) -> (r: bool)
    ensures
        r == is_hidden(name@),
{
    if name.unicode_len() == 0 {
        false
    } else {
        name.get_char(0) == '.'
    }
}

/// The same state with the cursor on entry `c`.
pub open spec fn picker_cursor_after(p: FilePicker, q: FilePicker, c: int) -> bool {
    &&& q.cursor == c
    &&& q.entries == p.entries
    &&& q.cwd == p.cwd
    &&& q.scroll_offset == p.scroll_offset
    &&& q.show_hidden == p.show_hidden
}

impl FilePicker {
    /// A picker on directory `cwd`, listing `listing` (the directory's entries as read).
    pub fn new(cwd: std::path::PathBuf, listing: Vec<Entry>) -> (picker: Self)
        ensures
            picker.cwd == cwd,
            !picker.show_hidden,
            picker.cursor == 0,
            picker.scroll_offset == 0,
            picker.entries@.len() == 1 + sorted_by_name(kept_dirs(listing@, false, listing@.len() as int)).len()
                + sorted_by_name(kept_files(listing@, false, listing@.len() as int)).len(),
            picker.entries@[0].name@ == ".."@,
            picker.entries@[0].is_dir,
            picker.entries@[0].path == joined_up(cwd),
            picker.entries@.skip(1) == sorted_by_name(kept_dirs(listing@, false, listing@.len() as int))
                + sorted_by_name(kept_files(listing@, false, listing@.len() as int)),
    {
        let mut picker = FilePicker {
            cwd,
            entries: Vec::new(),
            cursor: 0,
            scroll_offset: 0,
            show_hidden: false,
        };
        picker.scan_dir(listing);
        picker
    }

    /// Lists the directory again from `listing`: `..` first, then the directories, then the
    /// JSON files, each group sorted by lowercase name; hidden names only when they are
    /// shown. The cursor and the scroll go back to the top.
    pub fn scan_dir(&mut self, listing: Vec<Entry>)
        ensures
            final(self).cwd == old(self).cwd,
            final(self).show_hidden == old(self).show_hidden,
            final(self).cursor == 0,
            final(self).scroll_offset == 0,
            final(self).entries@.len() == 1 + sorted_by_name(
                kept_dirs(listing@, old(self).show_hidden, listing@.len() as int),
            ).len() + sorted_by_name(
                kept_files(listing@, old(self).show_hidden, listing@.len() as int),
            ).len(),
            final(self).entries@[0].name@ == ".."@,
            final(self).entries@[0].is_dir,
            final(self).entries@[0].path == joined_up(old(self).cwd),
            final(self).entries@.skip(1) == sorted_by_name(
                kept_dirs(listing@, old(self).show_hidden, listing@.len() as int),
            ) + sorted_by_name(kept_files(listing@, old(self).show_hidden, listing@.len() as int)),
    {
        self.entries.clear();
        self.cursor = 0;
        self.scroll_offset = 0;
        let ghost orig = listing@;
        let show_hidden = self.show_hidden;
        let n = listing.len();
        let mut rest = listing;
        let mut dirs: Vec<Entry> = Vec::new();
        let mut files: Vec<Entry> = Vec::new();
        let mut i: usize = 0;
        while i < n
            invariant
                n == orig.len(),
                i <= n,
                rest@ == orig.skip(i as int),
                dirs@ == kept_dirs(orig, show_hidden, i as int),
                files@ == kept_files(orig, show_hidden, i as int),
            decreases n - i,
        {
            assert(rest@.len() > 0);
            let e = rest.remove(0);
            assert(e == orig[i as int]);
            assert(rest@ =~= orig.skip(i + 1));
            let hidden = starts_with_dot(e.name.as_str());
            if !show_hidden && hidden {
                assert(dirs@ =~= kept_dirs(orig, show_hidden, i + 1));
                assert(files@ =~= kept_files(orig, show_hidden, i + 1));
            } else if e.is_dir {
                dirs.push(e);
                assert(dirs@ =~= kept_dirs(orig, show_hidden, i + 1));
                assert(files@ =~= kept_files(orig, show_hidden, i + 1));
            } else if is_json_file_name(e.name.as_str()) {
                files.push(e);
                assert(dirs@ =~= kept_dirs(orig, show_hidden, i + 1));
                assert(files@ =~= kept_files(orig, show_hidden, i + 1));
            } else {
                // Not a JSON file: not listed.
                assert(dirs@ =~= kept_dirs(orig, show_hidden, i + 1));
                assert(files@ =~= kept_files(orig, show_hidden, i + 1));
            }
            i += 1;
        }
        let mut dirs = sort_by_name(dirs);
        let mut files = sort_by_name(files);
        proof {
            reveal_strlit("..");
        }
        self.entries.push(Entry { name: String::from_str(".."), is_dir: true, path: parent_of(&self.cwd) });
        let ghost first = self.entries@;
        self.entries.append(&mut dirs);
        self.entries.append(&mut files);
        assert(self.entries@ == first + sorted_by_name(kept_dirs(orig, show_hidden, n as int))
            + sorted_by_name(kept_files(orig, show_hidden, n as int)));
        assert(self.entries@.skip(1) =~= sorted_by_name(kept_dirs(orig, show_hidden, n as int))
            + sorted_by_name(kept_files(orig, show_hidden, n as int)));
    }

    /// The title of the listing: the current directory between two spaces.
    pub fn title(&self) -> (r: String)
        ensures
            r@ == " "@ + display_text(self.cwd) + " "@,
    {
        let mut r = String::from_str(" ");
        let shown = path_display(&self.cwd);
        r.append(shown.as_str());
        r.append(" ");
        r
    }

    /// Carries out a key; what needs the file system is handed back.
    pub fn handle_key(&mut self, key: Key, ctrl: bool) -> (action: PickerAction)
        ensures
            match key {
                Key::Esc => action is Cancel && picker_cursor_after(*old(self), *final(self), old(self).cursor as int),
                Key::Down => action is Stay && picker_cursor_after(
                    *old(self),
                    *final(self),
                    if old(self).cursor + 1 < old(self).entries@.len() {
                        old(self).cursor + 1
                    } else {
                        old(self).cursor as int
                    },
                ),
                Key::Up => action is Stay && picker_cursor_after(
                    *old(self),
                    *final(self),
                    sat_sub(old(self).cursor as int, 1),
                ),
                Key::Enter | Key::Right => enter_outcome(*old(self), *final(self), action),
                Key::Left | Key::Backspace => action is GoUp && picker_cursor_after(
                    *old(self),
                    *final(self),
                    old(self).cursor as int,
                ),
                Key::Char(c) => char_outcome(*old(self), *final(self), action, c, ctrl),
                _ => action is Stay && picker_cursor_after(*old(self), *final(self), old(self).cursor as int),
            },
    {
        match key {
            Key::Esc => PickerAction::Cancel,
            Key::Down => {
                if self.cursor < self.entries.len() && self.cursor + 1 < self.entries.len() {
                    self.cursor += 1;
                }
                PickerAction::Stay
            },
            Key::Up => {
                self.cursor = self.cursor.saturating_sub(1);
                PickerAction::Stay
            },
            Key::Enter | Key::Right => self.enter_selected(),
            Key::Left | Key::Backspace => PickerAction::GoUp,
            Key::Char(c) => {
                if c == 'q' || (c == 'c' && ctrl) {
                    PickerAction::Cancel
                } else if c == 'j' {
                    if self.cursor < self.entries.len() && self.cursor + 1 < self.entries.len() {
                        self.cursor += 1;
                    }
                    PickerAction::Stay
                } else if c == 'k' {
                    self.cursor = self.cursor.saturating_sub(1);
                    PickerAction::Stay
                } else if c == 'g' {
                    self.cursor = 0;
                    PickerAction::Stay
                } else if c == 'G' {
                    self.cursor = self.entries.len().saturating_sub(1);
                    PickerAction::Stay
                } else if c == 'l' {
                    self.enter_selected()
                } else if c == 'h' {
                    PickerAction::GoUp
                } else if c == '.' {
                    self.show_hidden = !self.show_hidden;
                    PickerAction::Rescan
                } else {
                    PickerAction::Stay
                }
            },
            _ => PickerAction::Stay,
        }
    }

    /// The entry under the cursor: a directory is entered, a file is opened.
    fn enter_selected(&self) -> (action: PickerAction)
        ensures
            enter_outcome(*self, *self, action),
    {
        if self.cursor < self.entries.len() {
            if self.entries[self.cursor].is_dir {
                PickerAction::EnterDir(self.cursor)
            } else {
                PickerAction::OpenEntry(self.cursor)
            }
        } else {
            PickerAction::Stay
        }
    }

    /// Scrolls just enough to keep the cursor inside a window of `viewport_height` lines.
    pub fn adjust_scroll(&mut self, viewport_height: usize)
        ensures
            final(self).scroll_offset == scroll_after(
                old(self).cursor as int,
                old(self).scroll_offset as int,
                viewport_height as int,
            ),
            final(self).cursor == old(self).cursor,
            final(self).entries == old(self).entries,
            final(self).cwd == old(self).cwd,
            final(self).show_hidden == old(self).show_hidden,
    {
        if viewport_height == 0 {
            return;
        }
        if self.cursor < self.scroll_offset {
            self.scroll_offset = self.cursor;
        } else if self.cursor - self.scroll_offset >= viewport_height {
            self.scroll_offset = self.cursor - viewport_height + 1;
        } else {
            // The cursor is inside the window: nothing to do.
        }
    }

    pub fn handle_mouse(&mut self, mouse: MouseInput)
        ensures
            picker_cursor_after(
                *old(self),
                *final(self),
                match mouse {
                    MouseInput::ScrollUp => sat_sub(old(self).cursor as int, 3),
                    MouseInput::ScrollDown => min(
                        old(self).cursor + 3,
                        sat_sub(old(self).entries@.len() as int, 1),
                    ),
                    MouseInput::LeftDown(row) => if row >= 1 && old(self).scroll_offset + row - 1
                        < old(self).entries@.len() {
                        old(self).scroll_offset + row - 1
                    } else {
                        old(self).cursor as int
                    },
                    MouseInput::Other => old(self).cursor as int,
                },
            ),
    {
        match mouse {
            MouseInput::ScrollUp => {
                self.cursor = self.cursor.saturating_sub(3);
            },
            MouseInput::ScrollDown => {
                let last = self.entries.len().saturating_sub(1);
                let target = self.cursor.saturating_add(3);
                self.cursor = if target < last {
                    target
                } else {
                    last
                };
            },
            MouseInput::LeftDown(row) => {
                assert(self.entries.len() == self.entries@.len());
                if row >= 1 {
                    let line_in_viewport = (row - 1) as usize;
                    if let Some(target) = self.scroll_offset.checked_add(line_in_viewport) {
                        if target < self.entries.len() {
                            self.cursor = target;
                        }
                    }
                }
            },
            MouseInput::Other => {},
        }
    }
}

/// What Enter does: open the file or enter the directory under the cursor; nothing
/// changes in the picker itself.
pub open spec fn enter_outcome(p: FilePicker, q: FilePicker, action: PickerAction) -> bool {
    &&& picker_cursor_after(p, q, p.cursor as int)
    &&& if p.cursor < p.entries@.len() {
        if p.entries@[p.cursor as int].is_dir {
            action == PickerAction::EnterDir(p.cursor)
        } else {
            action == PickerAction::OpenEntry(p.cursor)
        }
    } else {
        action is Stay
    }
}

/// What a character key does in the picker.
pub open spec fn char_outcome(p: FilePicker, q: FilePicker, action: PickerAction, c: char, ctrl: bool) -> bool {
    if c == 'q' || (c == 'c' && ctrl) {
        action is Cancel && picker_cursor_after(p, q, p.cursor as int)
    } else if c == 'j' {
        action is Stay && picker_cursor_after(
            p,
            q,
            if p.cursor + 1 < p.entries@.len() {
                p.cursor + 1
            } else {
                p.cursor as int
            },
        )
    } else if c == 'k' {
        action is Stay && picker_cursor_after(p, q, sat_sub(p.cursor as int, 1))
    } else if c == 'g' {
        action is Stay && picker_cursor_after(p, q, 0)
    } else if c == 'G' {
        action is Stay && picker_cursor_after(p, q, sat_sub(p.entries@.len() as int, 1))
    } else if c == 'l' {
        enter_outcome(p, q, action)
    } else if c == 'h' {
        action is GoUp && picker_cursor_after(p, q, p.cursor as int)
    } else if c == '.' {
        &&& action is Rescan
        &&& q.show_hidden == !p.show_hidden
        &&& q.cursor == p.cursor
        &&& q.entries == p.entries
        &&& q.cwd == p.cwd
        &&& q.scroll_offset == p.scroll_offset
    } else {
        action is Stay && picker_cursor_after(p, q, p.cursor as int)
    }
}

} // verus!
