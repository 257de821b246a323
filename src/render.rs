//! Markdown to an HTML fragment, with fenced code blocks highlighted where
//! their language is known and escaped as plain code where it is not.
use vstd::prelude::*;
use vstd::string::*;
use crate::store::texts;
use crate::text::{chars_of, push_char};
use pulldown_cmark::{CodeBlockKind, CowStr, Event, Options, Parser, Tag, TagEnd};
use syntect::html::{ClassStyle, ClassedHTMLGenerator};
use syntect::parsing::{SyntaxReference, SyntaxSet};

verus! {

/// The HTML form of one character of code: `&`, `<` and `>` become entities.
pub open spec fn escape_char(c: char) -> Seq<char> {
    if c == '&' {
        seq!['&', 'a', 'm', 'p', ';']
    } else if c == '<' {
        seq!['&', 'l', 't', ';']
    } else if c == '>' {
        seq!['&', 'g', 't', ';']
    } else {
        seq![c]
    }
}

/// `s` with each character escaped.
pub open spec fn escaped(s: Seq<char>) -> Seq<char>
    decreases s.len(),
{
    if s.len() == 0 {
        Seq::empty()
    } else {
        escaped(s.drop_last()) + escape_char(s.last())
    }
}

/// A code block without highlighting: escaped code, tagged with its
/// language when there is one.
pub open spec fn plain_block(lang: Seq<char>, code: Seq<char>) -> Seq<char> {
    if lang.len() == 0 {
        "<pre><code>"@ + escaped(code) + "</code></pre>\n"@
    } else {
        "<pre><code class=\"language-"@ + lang + "\">"@ + escaped(code) + "</code></pre>\n"@
    }
}

/// A highlighted code block around the highlighter's output.
pub open spec fn highlight_block(body: Seq<char>) -> Seq<char> {
    "<pre class=\"highlight\"><code>"@ + body + "</code></pre>"@
}

/// The characters that Unicode calls white space.
pub open spec fn is_space(c: char) -> bool {
    c == ' ' || ('\u{9}' <= c && c <= '\u{d}') || c == '\u{85}' || c == '\u{a0}' || c
        == '\u{1680}' || ('\u{2000}' <= c && c <= '\u{200a}') || c == '\u{2028}' || c
        == '\u{2029}' || c == '\u{202f}' || c == '\u{205f}' || c == '\u{3000}'
}

/// `s` from its first character that is not white space.
pub open spec fn trim_start(s: Seq<char>) -> Seq<char>
    decreases s.len(),
{
    if s.len() > 0 && is_space(s[0]) {
        trim_start(s.drop_first())
    } else {
        s
    }
}

/// The characters of `s` before its first white space.
pub open spec fn word_prefix(s: Seq<char>) -> Seq<char>
    decreases s.len(),
{
    if s.len() == 0 || is_space(s[0]) {
        Seq::empty()
    } else {
        seq![s[0]] + word_prefix(s.drop_first())
    }
}

/// The first white-space separated word of `s`, or nothing.
pub open spec fn first_word(s: Seq<char>) -> Seq<char> {
    word_prefix(trim_start(s))
}

/// Whether `c` is white space.
pub fn space_char(c: char) -> (r: bool)
    ensures
        r == is_space(c),
{
    c == ' ' || ('\u{9}' <= c && c <= '\u{d}') || c == '\u{85}' || c == '\u{a0}' || c
        == '\u{1680}' || ('\u{2000}' <= c && c <= '\u{200a}') || c == '\u{2028}' || c
        == '\u{2029}' || c == '\u{202f}' || c == '\u{205f}' || c == '\u{3000}'
}

/// The language named by a fence's info string: its first word.
pub fn fence_language(info: &str) -> (r: String)
    ensures
        r@ == first_word(info@),
{
    let v = chars_of(info);
    let n = v.len();
    let mut i: usize = 0;
    assert(v@.skip(0) =~= v@);
    while i < n && space_char(v[i])
        invariant
            v@ == info@,
            n == v.len(),
            i <= n,
            trim_start(v@.skip(i as int)) == trim_start(info@),
        decreases n - i,
    {
        assert(v@.skip(i as int).drop_first() =~= v@.skip(i + 1));
        i += 1;
    }
    let ghost start = i as int;
    assert(trim_start(v@.skip(start)) == v@.skip(start));
    let mut out = String::new();
    while i < n && !space_char(v[i])
        invariant
            v@ == info@,
            n == v.len(),
            start <= i <= n,
            out@ + word_prefix(v@.skip(i as int)) == first_word(info@),
        decreases n - i,
    {
        assert(v@.skip(i as int).drop_first() =~= v@.skip(i + 1));
        assert(out@.push(v@[i as int]) + word_prefix(v@.skip(i + 1)) == out@ + (seq![v@[i as int]]
            + word_prefix(v@.skip(i + 1))));
        push_char(&mut out, v[i]);
        i += 1;
    }
    assert(word_prefix(v@.skip(i as int)) =~= Seq::<char>::empty());
    out
}

/// `code` with `&`, `<` and `>` escaped.
pub fn escape_code(code: &str) -> (r: String)
    ensures
        r@ == escaped(code@),
{
    proof {
        reveal_strlit("&amp;");
        reveal_strlit("&lt;");
        reveal_strlit("&gt;");
        assert("&amp;"@ =~= escape_char('&'));
        assert("&lt;"@ =~= escape_char('<'));
        assert("&gt;"@ =~= escape_char('>'));
    }
    let v = chars_of(code);
    let mut out = String::new();
    let mut i: usize = 0;
    assert(v@.take(0) =~= Seq::<char>::empty());
    while i < v.len()
        invariant
            v@ == code@,
            i <= v.len(),
            out@ == escaped(v@.take(i as int)),
            "&amp;"@ == escape_char('&'),
            "&lt;"@ == escape_char('<'),
            "&gt;"@ == escape_char('>'),
        decreases v.len() - i,
    {
        let c = v[i];
        assert(v@.take(i + 1).drop_last() =~= v@.take(i as int));
        assert(v@.take(i + 1).last() == c);
        assert(escaped(v@.take(i + 1)) == escaped(v@.take(i as int)) + escape_char(c));
        if c == '&' {
            out.append("&amp;");
        } else if c == '<' {
            out.append("&lt;");
        } else if c == '>' {
            out.append("&gt;");
        } else {
            push_char(&mut out, c);
        }
        assert(out@ =~= escaped(v@.take(i + 1)));
        i += 1;
    }
    assert(v@.take(i as int) =~= v@);
    out
}

/// A code block without highlighting, tagged with `lang` when it is not
/// empty.
pub fn plain_code_block(lang: &str, code: &str) -> (r: String)
    ensures
        r@ == plain_block(lang@, code@),
{
    let escaped_code = escape_code(code);
    let mut out = String::new();
    if lang.unicode_len() == 0 {
        out.append("<pre><code>");
    } else {
        out.append("<pre><code class=\"language-");
        out.append(lang);
        out.append("\">");
    }
    out.append(escaped_code.as_str());
    out.append("</code></pre>\n");
    out
}

/// The block for a fenced code block, given what the highlighter made of
/// it: its output framed as highlighted code, or, when the language is not
/// known, the plain block.
pub fn code_block_html(highlighted: Option<String>, lang: &str, code: &str) -> (r: String)
    ensures
        highlighted matches Some(h) ==> r@ == highlight_block(h@),
        highlighted is None ==> r@ == plain_block(lang@, code@),
{
    match highlighted {
        Some(h) => {
            let mut out = String::new();
            out.append("<pre class=\"highlight\"><code>");
            out.append(h.as_str());
            out.append("</code></pre>");
            out
        },
        None => plain_code_block(lang, code),
    }
}

/// `s` cut after each line feed; a last piece without one is kept.
pub open spec fn lines_of(s: Seq<char>) -> Seq<Seq<char>>
    decreases s.len(),
{
    if s.len() == 0 {
        Seq::empty()
    } else {
        let k = line_len(s);
        if 1 <= k <= s.len() {
            seq![s.take(k)] + lines_of(s.skip(k))
        } else {
            Seq::empty()
        }
    }
}

/// The length of the first line of `s`, line feed included.
pub open spec fn line_len(s: Seq<char>) -> int
    decreases s.len(),
{
    if s.len() == 0 {
        0
    } else if s[0] == '\n' {
        1
    } else {
        1 + line_len(s.drop_first())
    }
}

proof fn lemma_line_len(s: Seq<char>, m: int)
    requires
        0 <= m <= s.len(),
        forall|j: int| 0 <= j < m ==> s[j] != '\n',
        m < s.len() ==> s[m] == '\n',
    ensures
        line_len(s) == if m < s.len() {
            m + 1
        } else {
            m
        },
    decreases s.len(),
{
    if s.len() > 0 && m > 0 {
        lemma_line_len(s.drop_first(), m - 1);
    }
}

/// `code` cut into lines, each keeping its line feed.
pub fn split_lines(code: &str) -> (r: Vec<String>)
    ensures
        texts(r@) == lines_of(code@),
{
    let v = chars_of(code);
    let n = v.len();
    let mut out: Vec<String> = Vec::new();
    let mut cur = String::new();
    let mut start: usize = 0;
    let mut i: usize = 0;
    assert(v@.skip(0) =~= v@);
    while i < n
        invariant
            v@ == code@,
            n == v.len(),
            start <= i <= n,
            cur@ == v@.subrange(start as int, i as int),
            forall|j: int| start <= j < i ==> v@[j] != '\n',
            texts(out@) + lines_of(v@.skip(start as int)) == lines_of(code@),
        decreases n - i,
    {
        let c = v[i];
        push_char(&mut cur, c);
        assert(cur@ =~= v@.subrange(start as int, i + 1));
        if c == '\n' {
            proof {
                let rest = v@.skip(start as int);
                lemma_line_len(rest, i - start);
                assert(rest.take(i - start + 1) =~= cur@);
                assert(rest.skip(i - start + 1) =~= v@.skip(i + 1));
                assert(texts(out@.push(cur)) =~= texts(out@).push(cur@));
                assert(texts(out@).push(cur@) + lines_of(v@.skip(i + 1)) =~= texts(out@) + (
                seq![cur@] + lines_of(v@.skip(i + 1))));
            }
            out.push(cur);
            cur = String::new();
            start = i + 1;
        }
        i += 1;
    }
    if start < n {
        proof {
            let rest = v@.skip(start as int);
            lemma_line_len(rest, n - start);
            assert(rest.take(n - start) =~= cur@);
            assert(rest.skip(n - start) =~= Seq::<char>::empty());
            assert(texts(out@.push(cur)) =~= texts(out@).push(cur@));
            assert(texts(out@).push(cur@) =~= texts(out@) + (seq![cur@] + lines_of(
                Seq::<char>::empty(),
            )));
        }
        out.push(cur);
    } else {
        assert(v@.skip(start as int) =~= Seq::<char>::empty());
        assert(texts(out@) + lines_of(Seq::<char>::empty()) =~= texts(out@));
    }
    out
}

#[verifier::external_type_specification]
#[verifier::external_body]
pub struct ExSyntaxSet(SyntaxSet);

#[verifier::external_type_specification]
#[verifier::external_body]
pub struct ExSyntaxReference(SyntaxReference);

#[verifier::external_type_specification]
#[verifier::external_body]
pub struct ExClassedHTMLGenerator<'a>(ClassedHTMLGenerator<'a>);

/// The part of a markdown event that the fence rewriting reads.
pub enum MdEvent {
    /// The start of a fenced code block, with its info string.
    FenceStart(String),
    /// Text.
    Text(String),
    /// The end of a code block.
    CodeBlockEnd,
    /// Any other event.
    Other,
}

/// Kinds of event, as numbered in `md_view`.
pub open spec fn kind_other() -> nat {
    0
}

pub open spec fn kind_fence() -> nat {
    1
}

pub open spec fn kind_text() -> nat {
    2
}

pub open spec fn kind_end() -> nat {
    3
}

/// An event as a kind and its text (the info string of a fence start, the
/// text of a text event, else nothing).
pub open spec fn md_view(e: MdEvent) -> (nat, Seq<char>) {
    match e {
        MdEvent::FenceStart(info) => (kind_fence(), info@),
        MdEvent::Text(t) => (kind_text(), t@),
        MdEvent::CodeBlockEnd => (kind_end(), Seq::empty()),
        MdEvent::Other => (kind_other(), Seq::empty()),
    }
}

pub open spec fn md_views(v: Seq<MdEvent>) -> Seq<(nat, Seq<char>)> {
    v.map_values(|e: MdEvent| md_view(e))
}

/// One event of the rewritten stream: the event of the parse at an index,
/// or raw HTML.
pub enum Piece {
    Event(usize),
    Html(String),
}

/// A piece as `(index, empty)` for an event of the parse, `(-1, html)` for
/// raw HTML.
pub open spec fn piece_view(p: Piece) -> (int, Seq<char>) {
    match p {
        Piece::Event(i) => (i as int, Seq::empty()),
        Piece::Html(h) => (-1, h@),
    }
}

pub open spec fn piece_views(v: Seq<Piece>) -> Seq<(int, Seq<char>)> {
    v.map_values(|p: Piece| piece_view(p))
}

/// The events that pulldown-cmark's parser yields for `input` (tables,
/// strikethrough, task lists and footnotes enabled), as `md_view` sees them.
pub uninterp spec fn md_events(input: Seq<char>) -> Seq<(nat, Seq<char>)>;

/// pulldown-cmark's HTML for the stream `pieces`, where `(i, _)` with
/// `i >= 0` stands for the `i`-th event of the parse of `input`, and
/// `(-1, h)` for raw HTML `h`.
pub uninterp spec fn cmark_html(input: Seq<char>, pieces: Seq<(int, Seq<char>)>) -> Seq<char>;

/// The bundled syntax set has a syntax whose extension or name is `token`.
pub uninterp spec fn token_known(token: Seq<char>) -> bool;

/// The bundled syntax set has a syntax named `name`.
pub uninterp spec fn name_known(name: Seq<char>) -> bool;

/// The bundled syntaxes can highlight language `lang`.
pub open spec fn lang_known(lang: Seq<char>) -> bool {
    token_known(lang) || name_known(lang)
}

/// Relies on pulldown_cmark's `Parser::new_ext`: the events of `input`, with
/// tables, strikethrough, task lists and footnotes enabled, each reduced to
/// what `MdEvent` keeps.
#[verifier::external_body]
fn markdown_events(input: &str) -> (r: Vec<MdEvent>)
    ensures
        md_views(r@) == md_events(input@),
{
    let options = Options::ENABLE_TABLES | Options::ENABLE_STRIKETHROUGH
        | Options::ENABLE_TASKLISTS | Options::ENABLE_FOOTNOTES;
    Parser::new_ext(input, options).map(|e| match e {
        Event::Start(Tag::CodeBlock(CodeBlockKind::Fenced(info))) => MdEvent::FenceStart(info.to_string()),
        Event::Text(t) => MdEvent::Text(t.to_string()),
        Event::End(TagEnd::CodeBlock) => MdEvent::CodeBlockEnd,
        _ => MdEvent::Other,
    }).collect()
}

/// Relies on pulldown_cmark's `Parser::new_ext` (the same options as
/// `markdown_events`) and `html::push_html`: the HTML of the stream that
/// `pieces` describe over the events of `input`.
#[verifier::external_body]
fn markdown_html(input: &str, pieces: &Vec<Piece>) -> (r: String)
    requires
        forall|k: int|
            0 <= k < pieces.len() ==> #[trigger] piece_view(pieces@[k]).0 < md_events(input@).len(),
    ensures
        r@ == cmark_html(input@, piece_views(pieces@)),
{
    let options = Options::ENABLE_TABLES | Options::ENABLE_STRIKETHROUGH
        | Options::ENABLE_TASKLISTS | Options::ENABLE_FOOTNOTES;
    let events: Vec<Event> = Parser::new_ext(input, options).collect();
    let mut out = String::new();
    pulldown_cmark::html::push_html(&mut out, pieces.iter().map(|p| match p {
        Piece::Event(i) => events[*i].clone(),
        Piece::Html(h) => Event::Html(CowStr::from(h.clone())),
    }));
    out
}

/// Relies on syntect's `SyntaxSet::load_defaults_newlines`: the bundled
/// syntax definitions.
#[verifier::external_body]
fn default_syntaxes() -> SyntaxSet {
    SyntaxSet::load_defaults_newlines()
}

/// Relies on syntect's `SyntaxSet::find_syntax_by_token`: the syntax whose
/// extension or name matches `token`. A `Highlighter` only ever holds the
/// bundled set.
#[verifier::external_body]
fn syntax_by_token<'a>(h: &'a Highlighter, token: &str) -> (r: Option<&'a SyntaxReference>)
    ensures
        r is Some == token_known(token@),
{
    h.syntaxes.find_syntax_by_token(token)
}

/// Relies on syntect's `SyntaxSet::find_syntax_by_name`: the syntax named
/// `name`. A `Highlighter` only ever holds the bundled set.
#[verifier::external_body]
fn syntax_by_name<'a>(h: &'a Highlighter, name: &str) -> (r: Option<&'a SyntaxReference>)
    ensures
        r is Some == name_known(name@),
{
    h.syntaxes.find_syntax_by_name(name)
}

/// Relies on syntect's `ClassedHTMLGenerator::new_with_class_style`: a
/// generator of spaced class names for `syntax`.
#[verifier::external_body]
fn class_generator<'a>(syntax: &'a SyntaxReference, syntaxes: &'a SyntaxSet) -> ClassedHTMLGenerator<'a> {
    ClassedHTMLGenerator::new_with_class_style(syntax, syntaxes, ClassStyle::Spaced)
}

/// Relies on syntect's
/// `ClassedHTMLGenerator::parse_html_for_line_which_includes_newline`: feeds
/// one line; a line that fails to parse is left out.
#[verifier::external_body]
fn feed_line(generator: &mut ClassedHTMLGenerator, line: &str) {
    let _ = generator.parse_html_for_line_which_includes_newline(line);
}

/// Relies on syntect's `ClassedHTMLGenerator::finalize`: the HTML of the
/// lines fed, with open spans closed.
#[verifier::external_body]
fn finish_html(generator: ClassedHTMLGenerator) -> String {
    generator.finalize()
}

/// `b` is a block that `Highlighter::code_block` may give for `lang` and
/// `code`: highlighted when the language is known, else the plain block.
pub open spec fn block_fits(lang: Seq<char>, code: Seq<char>, b: Seq<char>) -> bool {
    if lang_known(lang) {
        exists|h: Seq<char>| b == highlight_block(h)
    } else {
        b == plain_block(lang, code)
    }
}

/// Where the fence rewriting stands after some events: inside a fence or
/// not, the fence's language and code so far, the rewritten stream, and the
/// `(language, code)` of each fence closed so far.
pub struct FenceScan {
    pub open: bool,
    pub lang: Seq<char>,
    pub code: Seq<char>,
    pub pieces: Seq<(int, Seq<char>)>,
    pub closed: Seq<(Seq<char>, Seq<char>)>,
}

/// The fence rewriting after the first `n` events of `evs`, with the `k`-th
/// closed fence replaced by raw HTML `blocks[k]`. A fence start opens a
/// fence (dropped from the stream); text inside a fence is gathered as its
/// code; the end of a fence becomes its block; every other event is kept.
pub open spec fn scan(evs: Seq<(nat, Seq<char>)>, blocks: Seq<Seq<char>>, n: int) -> FenceScan
    decreases n,
{
    if n <= 0 {
        FenceScan {
            open: false,
            lang: Seq::empty(),
            code: Seq::empty(),
            pieces: Seq::empty(),
            closed: Seq::empty(),
        }
    } else {
        let s = scan(evs, blocks, n - 1);
        let e = evs[n - 1];
        if e.0 == kind_fence() {
            FenceScan { open: true, lang: first_word(e.1), code: Seq::empty(), ..s }
        } else if s.open && e.0 == kind_end() {
            FenceScan {
                open: false,
                pieces: s.pieces.push((-1, blocks[s.closed.len() as int])),
                closed: s.closed.push((s.lang, s.code)),
                ..s
            }
        } else if s.open && e.0 == kind_text() {
            FenceScan { code: s.code + e.1, ..s }
        } else {
            FenceScan { pieces: s.pieces.push((n - 1, Seq::empty())), ..s }
        }
    }
}

/// The blocks fit the fences that `evs` closes, one for one.
pub open spec fn blocks_fit(evs: Seq<(nat, Seq<char>)>, blocks: Seq<Seq<char>>) -> bool {
    let fences = scan(evs, blocks, evs.len() as int).closed;
    blocks.len() == fences.len() && forall|k: int|
        0 <= k < blocks.len() ==> block_fits(fences[k].0, fences[k].1, #[trigger] blocks[k])
}

/// The rendering of `input`: pulldown-cmark's HTML of its events, with each
/// fenced code block replaced by a block that fits it.
pub open spec fn rendered_as(input: Seq<char>, r: Seq<char>) -> bool {
    exists|blocks: Seq<Seq<char>>|
        blocks_fit(md_events(input), blocks) && r == cmark_html(
            input,
            scan(md_events(input), blocks, md_events(input).len() as int).pieces,
        )
}

proof fn lemma_scan_blocks_prefix(
    evs: Seq<(nat, Seq<char>)>,
    b1: Seq<Seq<char>>,
    b2: Seq<Seq<char>>,
    n: int,
)
    requires
        0 <= n <= evs.len(),
        scan(evs, b1, n).closed.len() <= b1.len(),
        scan(evs, b1, n).closed.len() <= b2.len(),
        forall|k: int| #![trigger b1[k]] 0 <= k < scan(evs, b1, n).closed.len() ==> b1[k] == b2[k],
    ensures
        scan(evs, b1, n) == scan(evs, b2, n),
    decreases n,
{
    if n > 0 {
        let s = scan(evs, b1, n - 1);
        assert(scan(evs, b1, n).closed.len() >= s.closed.len());
        lemma_scan_blocks_prefix(evs, b1, b2, n - 1);
    }
}

/// The syntax definitions used to highlight code blocks.
pub struct Highlighter {
    syntaxes: SyntaxSet,
}

impl Highlighter {
    /// A highlighter with the bundled syntax definitions.
    pub fn new() -> Highlighter {
        Highlighter { syntaxes: default_syntaxes() }
    }

    /// The highlighted HTML of `code` in language `lang`, looked up by token
    /// and then by name; `None` exactly when the language is not known.
    pub fn highlight(&self, lang: &str, code: &str) -> (r: Option<String>)
        ensures
            r is Some == lang_known(lang@),
    {
        let found = match syntax_by_token(self, lang) {
            Some(syntax) => Some(syntax),
            None => syntax_by_name(self, lang),
        };
        match found {
            Some(syntax) => {
                let mut generator = class_generator(syntax, &self.syntaxes);
                let lines = split_lines(code);
                for line in lines.iter() {
                    feed_line(&mut generator, line.as_str());
                }
                Some(finish_html(generator))
            },
            None => None,
        }
    }

    /// The HTML of a fenced code block: highlighted when `lang` is known,
    /// else the plain block.
    pub fn code_block(&self, lang: &str, code: &str) -> (r: String)
        ensures
            block_fits(lang@, code@, r@),
            !lang_known(lang@) ==> r@ == plain_block(lang@, code@),
            lang_known(lang@) ==> exists|h: Seq<char>| r@ == highlight_block(h),
    {
        let found = self.highlight(lang, code);
        let r = code_block_html(found, lang, code);
        proof {
            if lang_known(lang@) {
                assert(r@ == highlight_block(found->Some_0@));
            }
        }
        r
    }

    /// Renders markdown to an HTML fragment: pulldown-cmark's HTML of the
    /// input, with each fenced code block replaced by its highlighted (or
    /// plain) block.
    pub fn render(&self, input: &str) -> (r: String)
        ensures
            rendered_as(input@, r@),
    {
        let events = markdown_events(input);
        let ghost evs = md_views(events@);
        let ghost mut blocks: Seq<Seq<char>> = Seq::empty();
        let mut pieces: Vec<Piece> = Vec::new();
        let mut lang = String::new();
        let mut code = String::new();
        let mut open = false;
        let mut i: usize = 0;
        while i < events.len()
            invariant
                evs == md_views(events@),
                evs == md_events(input@),
                i <= events.len(),
                ({
                    let s = scan(evs, blocks, i as int);
                    &&& s.open == open
                    &&& s.lang == lang@
                    &&& s.code == code@
                    &&& s.pieces == piece_views(pieces@)
                    &&& s.closed.len() == blocks.len()
                    &&& forall|k: int|
                        0 <= k < blocks.len() ==> block_fits(
                            s.closed[k].0,
                            s.closed[k].1,
                            #[trigger] blocks[k],
                        )
                }),
                forall|k: int| 0 <= k < pieces.len() ==> #[trigger] piece_view(pieces@[k]).0 < i,
            decreases events.len() - i,
        {
            let ghost before = scan(evs, blocks, i as int);
            assert(evs[i as int] == md_view(events@[i as int]));
            match &events[i] {
                MdEvent::FenceStart(info) => {
                    lang = fence_language(info.as_str());
                    code = String::new();
                    open = true;
                    proof {
                        lemma_scan_blocks_prefix(evs, blocks, blocks, i + 1);
                    }
                },
                MdEvent::CodeBlockEnd if open => {
                    let block = self.code_block(lang.as_str(), code.as_str());
                    let ghost old_blocks = blocks;
                    proof {
                        blocks = blocks.push(block@);
                        lemma_scan_blocks_prefix(evs, old_blocks, blocks, i as int);
                    }
                    let ghost before_pieces = pieces@;
                    pieces.push(Piece::Html(block));
                    assert(piece_views(pieces@) =~= piece_views(before_pieces).push((-1, block@)));
                    open = false;
                },
                MdEvent::Text(t) if open => {
                    code.append(t.as_str());
                },
                _ => {
                    let ghost before_pieces = pieces@;
                    pieces.push(Piece::Event(i));
                    assert(piece_views(pieces@) =~= piece_views(before_pieces).push((i as int, Seq::empty())));
                },
            }
            i += 1;
        }
        assert(forall|k: int| 0 <= k < pieces.len() ==> #[trigger] piece_view(pieces@[k]).0 < md_events(input@).len());
        let r = markdown_html(input, &pieces);
        proof {
            assert(blocks_fit(md_events(input@), blocks));
        }
        r
    }
}

/// Renders markdown text to an HTML fragment, with syntax highlighting. It
/// loads the bundled syntaxes on each call; callers that render often keep
/// one `Highlighter` and call `Highlighter::render`.
pub fn render_markdown(input: &str) -> (r: String)
    ensures
        rendered_as(input@, r@),
{
    Highlighter::new().render(input)
}

} // verus!
