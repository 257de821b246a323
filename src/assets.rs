//! The page shell: one HTML template with the stylesheets and script baked
//! in, and placeholders for the title, the content and the two syntax
//! stylesheets.
use vstd::prelude::*;
use crate::text::{chars_of, push_char, replace_all, replaced};
use vstd::string::*;

verus! {

pub const SHELL_HTML: &'static str = "<!DOCTYPE html>
<html lang=\"en\">
<head>
<meta charset=\"utf-8\">
<meta name=\"viewport\" content=\"width=device-width, initial-scale=1\">
<title>{title}</title>
<style>{base_css}</style>
<style>{github_css}</style>
<style>{gitlab_css}</style>
<style>{syntax_css_light}</style>
<style>{syntax_css_dark}</style>
</head>
<body>
<nav id=\"files\"></nav>
<main id=\"content\" class=\"markdown-body\">{content}</main>
<script>{app_js}</script>
</body>
</html>
";

pub const GITHUB_CSS: &'static str = ".markdown-body { font-family: -apple-system, sans-serif; line-height: 1.5; }
.markdown-body pre { padding: 16px; overflow: auto; border-radius: 6px; }
.markdown-body table { border-collapse: collapse; }
.markdown-body td, .markdown-body th { border: 1px solid #d0d7de; padding: 6px 13px; }
";

pub const GITLAB_CSS: &'static str = ".theme-gitlab .markdown-body { font-family: 'GitLab Sans', sans-serif; }
.theme-gitlab .markdown-body pre { border: 1px solid #dcdcde; }
";

pub const BASE_CSS: &'static str = "body { margin: 0; display: flex; }
#files { min-width: 14rem; padding: 1rem; border-right: 1px solid #d0d7de; }
#content { max-width: 60rem; padding: 2rem; flex: 1; }
";

pub const APP_JS: &'static str = "(function () {
  var path = location.pathname.replace(/^\\/view\\//, '');
  var source = new EventSource('/events');
  source.onmessage = function (msg) {
    var ev = JSON.parse(msg.data);
    if (ev.path !== decodeURIComponent(path)) { return; }
    if (ev.type === 'FileRemoved') { location.href = '/'; return; }
    fetch('/raw/' + path).then(function (r) { return r.text(); }).then(function (html) {
      document.getElementById('content').innerHTML = html;
    });
  };
})();
";

/// The title of the page shown when there is nothing to show.
pub const EMPTY_TITLE: &'static str = "No files";

/// The content of the page shown when there is nothing to show.
pub const EMPTY_CONTENT: &'static str = "<p>No markdown files found in this directory.</p>";

/// The template with its four per-page placeholders filled, in order: title,
/// content, light and dark syntax stylesheets.
pub open spec fn fill_page(
    template: Seq<char>,
    title: Seq<char>,
    content: Seq<char>,
    css_light: Seq<char>,
    css_dark: Seq<char>,
) -> Seq<char> {
    replaced(
        replaced(
            replaced(replaced(template, "{title}"@, title), "{content}"@, content),
            "{syntax_css_light}"@,
            css_light,
        ),
        "{syntax_css_dark}"@,
        css_dark,
    )
}

/// The shell with the stylesheets and script baked in.
pub open spec fn baked_shell() -> Seq<char> {
    replaced(
        replaced(
            replaced(replaced(SHELL_HTML@, "{github_css}"@, GITHUB_CSS@), "{gitlab_css}"@, GITLAB_CSS@),
            "{base_css}"@,
            BASE_CSS@,
        ),
        "{app_js}"@,
        APP_JS@,
    )
}

/// A pre-built page shell; only the title, content and the two syntax
/// stylesheets remain as placeholders.
pub struct PageShell {
    template: String,
}

impl PageShell {
    pub closed spec fn spec_template(&self) -> Seq<char> {
        self.template@
    }

    /// The shell with every static asset baked in.
    pub fn new() -> (r: PageShell)
        ensures
            r.spec_template() == baked_shell(),
    {
        proof {
            reveal_strlit("{github_css}");
            reveal_strlit("{gitlab_css}");
            reveal_strlit("{base_css}");
            reveal_strlit("{app_js}");
        }
        let t = replace_all(SHELL_HTML, "{github_css}", GITHUB_CSS);
        let t = replace_all(t.as_str(), "{gitlab_css}", GITLAB_CSS);
        let t = replace_all(t.as_str(), "{base_css}", BASE_CSS);
        let template = replace_all(t.as_str(), "{app_js}", APP_JS);
        PageShell { template }
    }

    /// A full page holding `content` under `title`.
    pub fn render(&self, title: &str, content: &str, syntax_css_light: &str, syntax_css_dark: &str) -> (r: String)
        ensures
            r@ == fill_page(
                self.spec_template(),
                title@,
                content@,
                syntax_css_light@,
                syntax_css_dark@,
            ),
    {
        proof {
            reveal_strlit("{title}");
            reveal_strlit("{content}");
            reveal_strlit("{syntax_css_light}");
            reveal_strlit("{syntax_css_dark}");
        }
        let t = replace_all(self.template.as_str(), "{title}", title);
        let t = replace_all(t.as_str(), "{content}", content);
        let t = replace_all(t.as_str(), "{syntax_css_light}", syntax_css_light);
        replace_all(t.as_str(), "{syntax_css_dark}", syntax_css_dark)
    }

    /// The page shown when the tree holds no markdown file.
    pub fn render_empty(&self, syntax_css_light: &str, syntax_css_dark: &str) -> (r: String)
        ensures
            r@ == fill_page(
                self.spec_template(),
                EMPTY_TITLE@,
                EMPTY_CONTENT@,
                syntax_css_light@,
                syntax_css_dark@,
            ),
    {
        self.render(EMPTY_TITLE, EMPTY_CONTENT, syntax_css_light, syntax_css_dark)
    }
}

/// What character `i` of a stylesheet becomes once scoped: a `.` that
/// opens a line gets `scope` and a space in front of it.
pub open spec fn scoped_piece(css: Seq<char>, scope: Seq<char>, i: int) -> Seq<char> {
    if (i == 0 || css[i - 1] == '\n') && css[i] == '.' {
        scope + seq![' ', '.']
    } else {
        seq![css[i]]
    }
}

/// The first `n` characters of `css`, scoped.
pub open spec fn scoped_prefix(css: Seq<char>, scope: Seq<char>, n: int) -> Seq<char>
    decreases n,
{
    if n <= 0 {
        Seq::empty()
    } else {
        scoped_prefix(css, scope, n - 1) + scoped_piece(css, scope, n - 1)
    }
}

/// `css` with every line that starts a class rule prefixed by `scope`, so
/// that its rules apply only inside that scope.
pub fn scope_css(css: &str, scope: &str) -> (r: String)
    ensures
        r@ == scoped_prefix(css@, scope@, css@.len() as int),
{
    let v = chars_of(css);
    let mut out = String::new();
    let mut i: usize = 0;
    while i < v.len()
        invariant
            v@ == css@,
            i <= v.len(),
            out@ == scoped_prefix(css@, scope@, i as int),
        decreases v.len() - i,
    {
        if (i == 0 || v[i - 1] == '\n') && v[i] == '.' {
            out.append(scope);
            push_char(&mut out, ' ');
            push_char(&mut out, '.');
            assert(out@ =~= scoped_prefix(css@, scope@, i + 1));
        } else {
            push_char(&mut out, v[i]);
            assert(out@ =~= scoped_prefix(css@, scope@, i + 1));
        }
        i += 1;
    }
    out
}

} // verus!
