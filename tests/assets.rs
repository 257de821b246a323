use markdown_preview::assets::PageShell;
use markdown_preview::text::replace_all;

#[test]
fn page_holds_title_content_and_styles() {
    let shell = PageShell::new();
    let page = shell.render("notes.md", "<p>body</p>", ".light{}", ".dark{}");
    assert!(page.contains("<title>notes.md</title>"));
    assert!(page.contains("<p>body</p>"));
    assert!(page.contains(".light{}"));
    assert!(page.contains(".dark{}"));
    assert!(!page.contains("{title}"));
    assert!(!page.contains("{content}"));
    assert!(!page.contains("{base_css}"));
    assert!(!page.contains("{app_js}"));
    assert!(page.contains("EventSource"));
}

#[test]
fn empty_page() {
    let shell = PageShell::new();
    let page = shell.render_empty("L", "D");
    assert!(page.contains("<title>No files</title>"));
    assert!(page.contains("<p>No markdown files found in this directory.</p>"));
}

#[test]
fn replace_all_replaces_each_occurrence() {
    assert_eq!(replace_all("a{x}b{x}", "{x}", "-"), "a-b-");
    assert_eq!(replace_all("aaa", "aa", "b"), "ba");
    assert_eq!(replace_all("none", "{x}", "y"), "none");
    assert_eq!(replace_all("", "{x}", "y"), "");
}
