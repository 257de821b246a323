use markdown_preview::classify::{is_in_scope, is_markdown, relative_path, should_skip};
use markdown_preview::landing::landing_path;

#[test]
fn markdown_extension() {
    assert!(is_markdown("notes.md"));
    assert!(is_markdown("/a/b/c.md"));
    assert!(is_markdown("x..md"));
    assert!(!is_markdown(".md"));
    assert!(!is_markdown("dir/.md"));
    assert!(!is_markdown("notes.markdown"));
    assert!(!is_markdown("notes.MD"));
    assert!(!is_markdown("md"));
    assert!(!is_markdown(""));
}

#[test]
fn skipped_components() {
    assert!(should_skip(".git/info.md"));
    assert!(should_skip("docs/.hidden.md"));
    assert!(should_skip("node_modules/pkg/README.md"));
    assert!(should_skip("a/node_modules"));
    assert!(!should_skip("a/node_modules2/x.md"));
    assert!(!should_skip("my_node_modules/x.md"));
    assert!(!should_skip("docs/guide/intro.md"));
    assert!(!should_skip("v1.2/notes.md"));
}

#[test]
fn scope_combines_both() {
    assert!(is_in_scope("README.md"));
    assert!(!is_in_scope("ignore.txt"));
    assert!(!is_in_scope(".git/info.md"));
    assert!(!is_in_scope("node_modules/pkg/README.md"));
}

#[test]
fn relative_paths() {
    assert_eq!(relative_path("/root/docs/a.md", "/root/docs"), Some("a.md".to_string()));
    assert_eq!(relative_path("/root/docs/a.md", "/root/docs/"), Some("a.md".to_string()));
    assert_eq!(relative_path("/root/docs", "/root/docs"), Some(String::new()));
    assert_eq!(relative_path("/root/docsx/a.md", "/root/docs"), None);
    assert_eq!(relative_path("/other/a.md", "/root/docs"), None);
    assert_eq!(relative_path("a.md", ""), Some("a.md".to_string()));
}

#[test]
fn landing_prefers_readme() {
    let files = vec!["a.md".to_string(), "README.md".to_string()];
    assert_eq!(landing_path(&files), Some("README.md".to_string()));
    let files = vec!["b.md".to_string(), "c.md".to_string()];
    assert_eq!(landing_path(&files), Some("b.md".to_string()));
    assert_eq!(landing_path(&Vec::new()), None);
}
