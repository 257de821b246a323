use markdown_preview::discovery::{populate, scan_candidates};
use markdown_preview::render::render_markdown;
use markdown_preview::state::AppState;

/// Runs the scan over a tree given as (relative path, content) pairs under
/// a made-up root, reading from the pairs instead of the disk.
fn scan(tree: &[(&str, &str)]) -> AppState {
    let root = "/tree";
    let files: Vec<String> = tree.iter().map(|(p, _)| format!("{root}/{p}")).collect();
    let mut found = Vec::new();
    for action in scan_candidates(&files, root) {
        let content = tree
            .iter()
            .find(|(p, _)| format!("{root}/{p}") == action.source)
            .map(|(_, c)| c.to_string())
            .unwrap();
        found.push((action.key, render_markdown(&content)));
    }
    let mut state = AppState::new(root.to_string());
    populate(&mut state, found);
    state
}

#[test]
fn discovers_md_files() {
    let state = scan(&[("README.md", "# Hello"), ("notes.md", "some notes"), ("ignore.txt", "not markdown")]);
    let files = state.file_list();
    assert_eq!(files.len(), 2);
    assert!(files.contains(&"README.md".to_string()));
    assert!(files.contains(&"notes.md".to_string()));
    assert!(!files.contains(&"ignore.txt".to_string()));
}

#[test]
fn discovers_nested_files() {
    let state = scan(&[("docs/guide/intro.md", "# Intro")]);
    assert!(state.get_rendered("docs/guide/intro.md").is_some());
}

#[test]
fn skips_hidden_dirs() {
    let state = scan(&[(".git/info.md", "hidden"), ("visible.md", "shown")]);
    assert_eq!(state.file_list().len(), 1);
    assert!(state.get_rendered("visible.md").is_some());
}

#[test]
fn skips_node_modules() {
    let state = scan(&[("node_modules/pkg/README.md", "npm"), ("top.md", "top")]);
    assert_eq!(state.file_list().len(), 1);
    assert!(state.get_rendered("top.md").is_some());
}

#[test]
fn renders_content_correctly() {
    let state = scan(&[("test.md", "**bold**")]);
    let html = state.get_rendered("test.md").unwrap();
    assert!(html.contains("<strong>bold</strong>"));
}

#[test]
fn empty_directory() {
    let state = scan(&[]);
    assert!(state.file_list().is_empty());
}

#[test]
fn discovery_keeps_only_visible_markdown() {
    let state = scan(&[
        ("README.md", "# Readme"),
        ("notes.md", "notes"),
        (".git/info.md", "git"),
        ("node_modules/pkg/README.md", "npm"),
        ("ignore.txt", "text"),
    ]);
    assert_eq!(state.file_list(), vec!["README.md", "notes.md"]);
}

#[test]
fn populate_skips_out_of_scope_keys() {
    let mut state = AppState::new("/r".to_string());
    populate(&mut state, vec![("a.md".to_string(), "A".to_string()), (".x/b.md".to_string(), "B".to_string()), ("c.txt".to_string(), "C".to_string())]);
    assert_eq!(state.file_list(), vec!["a.md"]);
    assert_eq!(state.get_rendered("a.md"), Some("A".to_string()));
}

#[test]
fn candidates_outside_root_are_ignored() {
    let files = vec!["/elsewhere/a.md".to_string(), "/tree/b.md".to_string()];
    let actions = scan_candidates(&files, "/tree");
    assert_eq!(actions.len(), 1);
    assert_eq!(actions[0].key, "b.md");
    assert_eq!(actions[0].source, "/tree/b.md");
}
