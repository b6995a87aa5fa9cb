use std::path::PathBuf;

use js::app::{Key, MouseInput};
use js::picker::{Entry, FilePicker, PickerAction};

fn entry(name: &str, is_dir: bool) -> Entry {
    Entry {
        name: name.to_string(),
        is_dir,
        path: PathBuf::from("/data").join(name),
    }
}

fn listing() -> Vec<Entry> {
    vec![
        entry("zeta.json", false),
        entry("b", true),
        entry("notes.txt", false),
        entry(".hidden", true),
        entry("Alpha.JSON", false),
        entry("B", true),
        entry(".secret.json", false),
        entry(".json", false),
        entry("a", true),
        entry("x.jsonl", false),
        entry("..json", false),
    ]
}

fn names(p: &FilePicker) -> Vec<String> {
    p.entries.iter().map(|e| e.name.clone()).collect()
}

#[test]
fn listing_puts_parent_then_sorted_dirs_then_json_files() {
    let p = FilePicker::new(PathBuf::from("/data"), listing());
    assert_eq!(
        names(&p),
        vec!["..", "a", "b", "B", "Alpha.JSON", "zeta.json"]
    );
    assert!(p.entries[0].is_dir);
    assert_eq!(p.entries[0].path, PathBuf::from("/data").join(".."));
    assert!(p.entries[1].is_dir && p.entries[3].is_dir);
    assert!(!p.entries[4].is_dir);
    assert_eq!(p.cursor, 0);
    assert!(!p.show_hidden);
}

#[test]
fn hidden_names_show_after_dot() {
    let mut p = FilePicker::new(PathBuf::from("/data"), listing());
    p.cursor = 2;
    assert!(matches!(p.handle_key(Key::Char('.'), false), PickerAction::Rescan));
    assert!(p.show_hidden);
    p.scan_dir(listing());
    assert_eq!(p.cursor, 0);
    assert_eq!(
        names(&p),
        vec!["..", ".hidden", "a", "b", "B", "..json", ".secret.json", "Alpha.JSON", "zeta.json"]
    );
}

#[test]
fn enter_opens_files_and_enters_directories() {
    let mut p = FilePicker::new(PathBuf::from("/data"), listing());
    assert!(matches!(p.handle_key(Key::Enter, false), PickerAction::EnterDir(0)));
    p.handle_key(Key::Char('G'), false);
    assert_eq!(p.cursor, 5);
    assert!(matches!(p.handle_key(Key::Char('l'), false), PickerAction::OpenEntry(5)));
    assert!(matches!(p.handle_key(Key::Right, false), PickerAction::OpenEntry(5)));
    assert!(matches!(p.handle_key(Key::Char('h'), false), PickerAction::GoUp));
    assert!(matches!(p.handle_key(Key::Backspace, false), PickerAction::GoUp));
    assert!(matches!(p.handle_key(Key::Left, false), PickerAction::GoUp));
}

#[test]
fn picker_moves_and_cancels() {
    let mut p = FilePicker::new(PathBuf::from("/data"), listing());
    p.handle_key(Key::Char('j'), false);
    p.handle_key(Key::Down, false);
    assert_eq!(p.cursor, 2);
    p.handle_key(Key::Char('k'), false);
    assert_eq!(p.cursor, 1);
    p.handle_key(Key::Char('g'), false);
    assert_eq!(p.cursor, 0);
    p.handle_key(Key::Up, false);
    assert_eq!(p.cursor, 0);
    p.handle_key(Key::Home, false);
    assert_eq!(p.cursor, 0);
    assert!(matches!(p.handle_key(Key::Char('q'), false), PickerAction::Cancel));
    assert!(matches!(p.handle_key(Key::Esc, false), PickerAction::Cancel));
    assert!(matches!(p.handle_key(Key::Char('c'), true), PickerAction::Cancel));
    assert!(matches!(p.handle_key(Key::Char('c'), false), PickerAction::Stay));
}

#[test]
fn picker_mouse_and_scroll() {
    let mut p = FilePicker::new(PathBuf::from("/data"), listing());
    p.handle_mouse(MouseInput::ScrollDown);
    assert_eq!(p.cursor, 3);
    p.handle_mouse(MouseInput::ScrollDown);
    p.handle_mouse(MouseInput::ScrollDown);
    assert_eq!(p.cursor, 5);
    p.handle_mouse(MouseInput::LeftDown(2));
    assert_eq!(p.cursor, 1);
    p.handle_mouse(MouseInput::LeftDown(30));
    assert_eq!(p.cursor, 1);
    p.cursor = 6;
    p.adjust_scroll(2);
    assert_eq!(p.scroll_offset, 5);
}

#[test]
fn empty_directory_lists_only_the_parent() {
    let p = FilePicker::new(PathBuf::from("/"), Vec::new());
    assert_eq!(names(&p), vec![".."]);
}

#[test]
fn listing_title_shows_the_directory() {
    let p = FilePicker::new(PathBuf::from("/data/docs"), Vec::new());
    assert_eq!(p.title(), " /data/docs ");
    assert_eq!(p.entries[0].path, PathBuf::from("/data/docs/.."));
}
