//! Walking the repository tree listing.

use rust_hf_downloader::listing::{tree_entry, walk_start, walk_step, TreeEntry, WalkAction, WalkEvent};
use std::collections::HashMap;

fn file(path: &str) -> TreeEntry {
    tree_entry("file", path.to_string(), 1, None)
}

fn dir(path: &str) -> TreeEntry {
    tree_entry("directory", path.to_string(), 0, None)
}

/// Runs a walk against fixed listings; a missing listing fails.
fn run(listings: &HashMap<&str, Vec<TreeEntry>>) -> Result<Vec<String>, String> {
    let (mut w, mut a) = walk_start();
    loop {
        let e = match a {
            WalkAction::Fetch { path } => WalkEvent::Listed(
                listings.get(path.as_str()).cloned().ok_or_else(|| format!("no listing for '{}'", path)),
            ),
            WalkAction::Next => WalkEvent::Proceed,
            WalkAction::Done { files } => return Ok(files.into_iter().map(|f| f.path).collect()),
            WalkAction::Fail { reason } => return Err(reason),
            WalkAction::Ignore => panic!("unexpected ignore"),
        };
        let (nw, na) = walk_step(w, e);
        w = nw;
        a = na;
    }
}

#[test]
fn entry_kind_is_read_from_the_type() {
    assert!(dir("d").is_dir);
    assert!(!file("f").is_dir);
    assert!(!tree_entry("Directory", "x".to_string(), 0, None).is_dir);
}

#[test]
fn walk_is_depth_first_in_listing_order() {
    let mut l = HashMap::new();
    l.insert("", vec![file("a.txt"), dir("d"), file("b.txt")]);
    l.insert("d", vec![dir("d/e"), file("d/x")]);
    l.insert("d/e", vec![file("d/e/y")]);
    assert_eq!(run(&l), Ok(vec!["a.txt".to_string(), "d/e/y".to_string(), "d/x".to_string(), "b.txt".to_string()]));
}

#[test]
fn failed_subdirectory_is_skipped_and_failed_root_fails() {
    let mut l = HashMap::new();
    l.insert("", vec![dir("gone"), file("kept")]);
    assert_eq!(run(&l), Ok(vec!["kept".to_string()]));
    let empty = HashMap::new();
    assert_eq!(run(&empty), Err("no listing for ''".to_string()));
}

#[test]
fn events_out_of_turn_are_ignored() {
    let (w, _) = walk_start();
    let (w, a) = walk_step(w, WalkEvent::Proceed);
    assert!(matches!(a, WalkAction::Ignore));
    let (w, a) = walk_step(w, WalkEvent::Listed(Ok(vec![])));
    assert!(matches!(a, WalkAction::Next));
    let (_, a) = walk_step(w, WalkEvent::Listed(Ok(vec![])));
    assert!(matches!(a, WalkAction::Ignore));
}
