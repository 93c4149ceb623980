//! Tree expansion, flattening, counting and sizes.

use rust_hf_downloader::api::build_file_tree;
use rust_hf_downloader::models::{FileTreeNode, RepoFile};
use rust_hf_downloader::tree::{
    calculate_directory_sizes, count_files, flatten_tree, flatten_tree_for_navigation,
    sort_tree_recursive, toggle_node_expansion,
};

fn repo_file(path: &str, size: u64) -> RepoFile {
    RepoFile { rfilename: path.to_string(), size: Some(size), lfs: None }
}

fn sample_tree() -> FileTreeNode {
    build_file_tree(vec![
        repo_file("a/b.gguf", 100),
        repo_file("a/c.txt", 50),
        repo_file("d.bin", 30),
        repo_file("e/f/g.gguf", 7),
    ])
}

fn names(rows: &[FileTreeNode]) -> Vec<&str> {
    rows.iter().map(|n| n.path.as_str()).collect()
}

#[test]
fn flatten_shows_expanded_directories_only() {
    let mut root = sample_tree();
    assert_eq!(names(&flatten_tree(&root)), vec!["a", "e", "d.bin"]);
    assert!(toggle_node_expansion(&mut root, "a"));
    assert_eq!(names(&flatten_tree(&root)), vec!["a", "a/b.gguf", "a/c.txt", "e", "d.bin"]);
    assert!(toggle_node_expansion(&mut root, "e/f"));
    // "e" is still collapsed, so "e/f" stays hidden.
    assert_eq!(names(&flatten_tree_for_navigation(&root)), vec!["a", "a/b.gguf", "a/c.txt", "e", "d.bin"]);
    assert!(toggle_node_expansion(&mut root, "e"));
    assert_eq!(
        names(&flatten_tree(&root)),
        vec!["a", "a/b.gguf", "a/c.txt", "e", "e/f", "e/f/g.gguf", "d.bin"]
    );
}

#[test]
fn toggle_twice_restores_and_files_do_not_toggle() {
    let mut root = sample_tree();
    assert!(toggle_node_expansion(&mut root, "a"));
    assert!(root.children[0].expanded);
    assert!(toggle_node_expansion(&mut root, "a"));
    assert!(!root.children[0].expanded);
    assert!(toggle_node_expansion(&mut root, "d.bin"));
    assert!(!root.children[2].expanded);
    assert!(!toggle_node_expansion(&mut root, "nope"));
}

#[test]
fn counts_and_sizes() {
    let mut root = sample_tree();
    assert_eq!(count_files(&root), 4);
    root.children[0].children[0].size = Some(1);
    assert_eq!(calculate_directory_sizes(&mut root), 88);
    assert_eq!(root.size, Some(88));
    assert_eq!(root.children[0].size, Some(51));
}

#[test]
fn sorting_puts_directories_first_case_insensitively() {
    let mut root = build_file_tree(vec![
        repo_file("b.txt", 1),
        repo_file("A.txt", 1),
        repo_file("z/x", 1),
        repo_file("C/y", 1),
    ]);
    sort_tree_recursive(&mut root);
    let order: Vec<&str> = root.children.iter().map(|c| c.name.as_str()).collect();
    assert_eq!(order, vec!["C", "z", "A.txt", "b.txt"]);
}

fn check_shape(n: &FileTreeNode) {
    for (i, c) in n.children.iter().enumerate() {
        assert_eq!(c.depth, n.depth + 1);
        let expected = if n.path.is_empty() { c.name.clone() } else { format!("{}/{}", n.path, c.name) };
        assert_eq!(c.path, expected);
        for later in &n.children[i + 1..] {
            assert_ne!(c.name, later.name);
            assert!(!(later.is_dir && !c.is_dir));
            if later.is_dir == c.is_dir {
                assert!(c.name.to_lowercase() <= later.name.to_lowercase());
            }
        }
        check_shape(c);
    }
    if n.is_dir {
        let sum: u64 = n.children.iter().map(|c| c.size.unwrap_or(0)).sum();
        assert_eq!(n.size, Some(sum));
    }
}

#[test]
fn built_tree_is_well_shaped() {
    let root = build_file_tree(vec![
        repo_file("z.txt", 1),
        repo_file("B/x.bin", 2),
        repo_file("a/deep/er/f.gguf", 40),
        repo_file("a/Deep/g.gguf", 8),
        repo_file("b/y.bin", 3),
        RepoFile { rfilename: "a/none.md".to_string(), size: None, lfs: None },
        repo_file("A.md", 5),
    ]);
    assert!(root.name.is_empty() && root.path.is_empty() && root.is_dir && root.depth == 0);
    assert_eq!(root.size, Some(59));
    let top: Vec<&str> = root.children.iter().map(|c| c.name.as_str()).collect();
    assert_eq!(top, vec!["a", "B", "b", "A.md", "z.txt"]);
    check_shape(&root);
}

fn follow<'a>(root: &'a FileTreeNode, name: &str) -> Option<&'a FileTreeNode> {
    let mut node = root;
    for part in name.split('/') {
        node = node.children.iter().find(|c| c.name == part)?;
    }
    Some(node)
}

#[test]
fn built_tree_holds_every_file() {
    let files = vec![
        repo_file("weights/model-00001.safetensors", 11),
        repo_file("README.md", 2),
        repo_file("weights/model-00002.safetensors", 13),
        repo_file("gguf/q4/model.Q4_K_M.gguf", 40),
        RepoFile { rfilename: "gguf/notes.txt".to_string(), size: None, lfs: None },
    ];
    let root = build_file_tree(files.clone());
    for f in &files {
        let node = follow(&root, &f.rfilename).expect("file is in the tree");
        assert!(!node.is_dir);
        assert_eq!(node.path, f.rfilename);
        assert_eq!(node.size, f.size);
    }
    assert_eq!(follow(&root, "gguf").unwrap().size, Some(40));
    assert_eq!(follow(&root, "weights").unwrap().size, Some(24));
}

fn file_paths(n: &FileTreeNode, out: &mut Vec<String>) {
    for c in &n.children {
        if c.is_dir {
            file_paths(c, out);
        } else {
            out.push(c.path.clone());
        }
    }
}

#[test]
fn built_tree_files_are_listed() {
    let files = vec![
        repo_file("x/y/z.bin", 1),
        repo_file("x/w.txt", 2),
        repo_file("top.md", 3),
    ];
    let root = build_file_tree(files.clone());
    let mut found = Vec::new();
    file_paths(&root, &mut found);
    found.sort();
    let mut listed: Vec<String> = files.iter().map(|f| f.rfilename.clone()).collect();
    listed.sort();
    assert_eq!(found, listed);
}
