use doopie::enumerate::{enumerate, is_ignored, EntryKind, WalkEntry};
use doopie::error::{validate_root, ScanError};
use std::cell::RefCell;

fn entry(path: &str, kind: EntryKind) -> WalkEntry {
    WalkEntry { path: path.to_string(), kind }
}

fn walk() -> Vec<WalkEntry> {
    vec![
        entry(".", EntryKind::Directory),
        entry("./a.txt", EntryKind::File),
        entry("./sub", EntryKind::Directory),
        entry("./sub/b.txt", EntryKind::File),
        entry("./locked", EntryKind::Inaccessible),
        entry("./sub/c.log", EntryKind::File),
    ]
}

#[test]
fn directories_and_inaccessible_entries_are_never_listed() {
    let files = enumerate(&walk(), |_: &String| true);
    assert_eq!(files, vec!["./a.txt", "./sub/b.txt", "./sub/c.log"]);
}

#[test]
fn only_accepted_files_are_listed() {
    let files = enumerate(&walk(), |p: &String| p.ends_with(".txt"));
    assert_eq!(files, vec!["./a.txt", "./sub/b.txt"]);
    let none = enumerate(&walk(), |_: &String| false);
    assert!(none.is_empty());
}

#[test]
fn the_predicate_is_asked_once_for_each_file_and_for_nothing_else() {
    let asked: RefCell<Vec<String>> = RefCell::new(Vec::new());
    let files = enumerate(&walk(), |p: &String| {
        asked.borrow_mut().push(p.clone());
        true
    });
    assert_eq!(asked.into_inner(), vec!["./a.txt", "./sub/b.txt", "./sub/c.log"]);
    assert_eq!(files.len(), 3);
}

#[test]
fn an_empty_walk_lists_nothing() {
    assert!(enumerate(&Vec::new(), |_: &String| true).is_empty());
    assert!(enumerate(&vec![entry(".", EntryKind::Directory)], |_: &String| true).is_empty());
}

#[test]
fn the_ignore_list_can_serve_as_the_predicate() {
    let ignored = vec!["./sub/b.txt".to_string(), "./nowhere".to_string()];
    assert!(is_ignored(&ignored, &"./sub/b.txt".to_string()));
    assert!(!is_ignored(&ignored, &"./a.txt".to_string()));
    assert!(!is_ignored(&Vec::new(), &"./a.txt".to_string()));
    let files = enumerate(&walk(), |p: &String| !is_ignored(&ignored, p));
    assert_eq!(files, vec!["./a.txt", "./sub/c.log"]);
}

#[test]
fn a_root_that_is_a_directory_is_valid() {
    assert_eq!(validate_root("/tmp", EntryKind::Directory), Ok(()));
}

#[test]
fn a_root_that_is_no_directory_is_refused() {
    assert_eq!(
        validate_root("notes.txt", EntryKind::File),
        Err(ScanError::InvalidRoot { root: "notes.txt".to_string() })
    );
    assert_eq!(
        validate_root("missing", EntryKind::Inaccessible),
        Err(ScanError::InvalidRoot { root: "missing".to_string() })
    );
}
