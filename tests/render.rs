use markdown_preview::render::{fence_language, plain_code_block, render_markdown, split_lines, Highlighter};

#[test]
fn renders_paragraph() {
    let html = render_markdown("Hello, world!");
    assert_eq!(html.trim(), "<p>Hello, world!</p>");
}

#[test]
fn renders_heading() {
    let html = render_markdown("# Title");
    assert_eq!(html.trim(), "<h1>Title</h1>");
}

#[test]
fn renders_gfm_table() {
    let input = "| A | B |\n|---|---|\n| 1 | 2 |";
    let html = render_markdown(input);
    assert!(html.contains("<table>"));
    assert!(html.contains("<td>1</td>"));
}

#[test]
fn renders_strikethrough() {
    let html = render_markdown("~~deleted~~");
    assert!(html.contains("<del>deleted</del>"));
}

#[test]
fn renders_tasklist() {
    let html = render_markdown("- [x] done\n- [ ] todo");
    assert!(html.contains(r#"type="checkbox""#));
}

#[test]
fn renders_empty_input() {
    let html = render_markdown("");
    assert_eq!(html, "");
}

#[test]
fn highlights_rust_code_block() {
    let input = "```rust\nfn main() {}\n```";
    let html = render_markdown(input);
    assert!(html.contains("<pre class=\"highlight\">"));
    assert!(html.contains("main"));
}

#[test]
fn highlights_python_code_block() {
    let input = "```python\ndef hello():\n    pass\n```";
    let html = render_markdown(input);
    assert!(html.contains("<pre class=\"highlight\">"));
    assert!(html.contains("hello"));
}

#[test]
fn unrecognized_language_falls_back() {
    let input = "```unknownlang\nsome code\n```";
    let html = render_markdown(input);
    assert!(html.contains("some code"));
    assert!(html.contains("<pre"));
}

#[test]
fn indented_code_block_no_highlight() {
    let input = "    indented code";
    let html = render_markdown(input);
    assert!(html.contains("<pre><code>"));
    assert!(html.contains("indented code"));
}

#[test]
fn fenced_block_no_language() {
    let input = "```\nplain code\n```";
    let html = render_markdown(input);
    assert!(html.contains("plain code"));
    assert!(html.contains("<pre"));
}

#[test]
fn renders_bold() {
    let html = render_markdown("**bold**");
    assert!(html.contains("<strong>bold</strong>"));
}

#[test]
fn unknown_language_block_is_escaped_and_tagged() {
    let html = render_markdown("```unknownlang extra\na < b && c\n```");
    assert!(html.contains("<pre><code class=\"language-unknownlang\">a &lt; b &amp;&amp; c\n</code></pre>"));
}

#[test]
fn plain_block_exact() {
    assert_eq!(plain_code_block("", "x<y>&"), "<pre><code>x&lt;y&gt;&amp;</code></pre>\n");
    assert_eq!(
        plain_code_block("zz", "a"),
        "<pre><code class=\"language-zz\">a</code></pre>\n"
    );
}

#[test]
fn fence_language_takes_first_word() {
    assert_eq!(fence_language("rust"), "rust");
    assert_eq!(fence_language("  python linenums"), "python");
    assert_eq!(fence_language("\tjs\u{a0}x"), "js");
    assert_eq!(fence_language(""), "");
    assert_eq!(fence_language("   "), "");
}

#[test]
fn split_lines_keeps_line_feeds() {
    assert_eq!(split_lines("a\nb\n"), vec!["a\n", "b\n"]);
    assert_eq!(split_lines("a\n\nb"), vec!["a\n", "\n", "b"]);
    assert!(split_lines("").is_empty());
}

#[test]
fn highlighter_knows_rust_not_unknownlang() {
    let h = Highlighter::new();
    assert!(h.highlight("rust", "fn main() {}\n").is_some());
    assert!(h.highlight("unknownlang", "x\n").is_none());
    let block = h.code_block("rust", "let x = 1;\n");
    assert!(block.starts_with("<pre class=\"highlight\"><code>"));
    assert!(block.ends_with("</code></pre>"));
}

#[test]
fn equal_inputs_render_equally() {
    let h = Highlighter::new();
    let input = "# T\n\n```rust\nlet a = 1;\n```\n\ntext";
    assert_eq!(h.render(input), render_markdown(input));
    assert_eq!(h.render(input), h.render(input));
}
