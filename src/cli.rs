//! Command-line options, parsed from the argument list (program name left
//! out). Reading the list and acting on help or errors is the caller's.
use vstd::prelude::*;
use vstd::string::*;
use crate::store::texts;

verus! {

/// The first port tried when none is given.
pub const DEFAULT_PORT: u16 = 13181;

/// The server's options.
pub struct Args {
    /// The directory to serve; the working directory when `None`.
    pub root: Option<String>,
    pub tls: bool,
    pub cert: Option<String>,
    pub key: Option<String>,
    pub port: u16,
    pub syntax_theme_light: String,
    pub syntax_theme_dark: String,
    pub open: bool,
}

/// What the arguments ask for.
pub enum Command {
    Run(Args),
    Help,
}

/// Why the arguments were refused.
pub enum CliError {
    /// `--port` was followed by something that is not a port number.
    InvalidPort(String),
    /// `--port` was the last argument.
    MissingPort,
    /// `--syntax-theme-light` was the last argument.
    MissingLightTheme,
    /// `--syntax-theme-dark` was the last argument.
    MissingDarkTheme,
    /// An argument starting with `-` that is no option.
    UnknownOption(String),
}

/// The options as plain values.
pub struct ArgsModel {
    pub root: Option<Seq<char>>,
    pub tls: bool,
    pub cert: Option<Seq<char>>,
    pub key: Option<Seq<char>>,
    pub port: u16,
    pub light: Seq<char>,
    pub dark: Seq<char>,
    pub open: bool,
}

/// The outcome of parsing, as plain values.
pub enum ParseModel {
    Run(ArgsModel),
    Help,
    InvalidPort(Seq<char>),
    MissingPort,
    MissingLightTheme,
    MissingDarkTheme,
    UnknownOption(Seq<char>),
}

pub open spec fn opt_view(o: Option<String>) -> Option<Seq<char>> {
    match o {
        Some(s) => Some(s@),
        None => None,
    }
}

impl Args {
    pub open spec fn model(&self) -> ArgsModel {
        ArgsModel {
            root: opt_view(self.root),
            tls: self.tls,
            cert: opt_view(self.cert),
            key: opt_view(self.key),
            port: self.port,
            light: self.syntax_theme_light@,
            dark: self.syntax_theme_dark@,
            open: self.open,
        }
    }
}

/// The outcome a parse result stands for.
pub open spec fn outcome(r: Result<Command, CliError>) -> ParseModel {
    match r {
        Ok(Command::Run(a)) => ParseModel::Run(a.model()),
        Ok(Command::Help) => ParseModel::Help,
        Err(CliError::InvalidPort(s)) => ParseModel::InvalidPort(s@),
        Err(CliError::MissingPort) => ParseModel::MissingPort,
        Err(CliError::MissingLightTheme) => ParseModel::MissingLightTheme,
        Err(CliError::MissingDarkTheme) => ParseModel::MissingDarkTheme,
        Err(CliError::UnknownOption(s)) => ParseModel::UnknownOption(s@),
    }
}

/// The options before any argument is read.
pub open spec fn defaults() -> ArgsModel {
    ArgsModel {
        root: None,
        tls: false,
        cert: None,
        key: None,
        port: DEFAULT_PORT,
        light: "InspiredGitHub"@,
        dark: "base16-ocean.dark"@,
        open: false,
    }
}

pub open spec fn is_digit(c: char) -> bool {
    '0' <= c && c <= '9'
}

/// The number written by the decimal digits `s`.
pub open spec fn decimal(s: Seq<char>) -> nat
    decreases s.len(),
{
    if s.len() == 0 {
        0
    } else {
        decimal(s.drop_last()) * 10 + ((s.last() as int - '0' as int) as nat)
    }
}

/// `s` without a leading `+`.
pub open spec fn unsigned_part(s: Seq<char>) -> Seq<char> {
    if s.len() > 0 && s[0] == '+' {
        s.drop_first()
    } else {
        s
    }
}

pub open spec fn all_digits(d: Seq<char>) -> bool {
    forall|i: int| 0 <= i < d.len() ==> is_digit(#[trigger] d[i])
}

/// The port that `s` writes: optionally `+`, then at least one decimal
/// digit, for a value that fits in 16 bits.
pub open spec fn port_value(s: Seq<char>) -> Option<u16> {
    let d = unsigned_part(s);
    if d.len() > 0 && all_digits(d) && decimal(d) <= u16::MAX {
        Some(decimal(d) as u16)
    } else {
        None
    }
}

/// The outcome of reading `a` from position `i` on, with options `m` so far.
/// Options are read left to right and the first error or help request ends
/// the reading; `--cert` and `--key` as the last argument clear the path.
pub open spec fn parse_from(a: Seq<Seq<char>>, i: int, m: ArgsModel) -> ParseModel
    decreases a.len() - i,
{
    if i < 0 || i >= a.len() {
        ParseModel::Run(m)
    } else {
        let x = a[i];
        let has_next = i + 1 < a.len();
        if x == "--tls"@ {
            parse_from(a, i + 1, ArgsModel { tls: true, ..m })
        } else if x == "--open"@ {
            parse_from(a, i + 1, ArgsModel { open: true, ..m })
        } else if x == "--cert"@ {
            if has_next {
                parse_from(a, i + 2, ArgsModel { cert: Some(a[i + 1]), ..m })
            } else {
                parse_from(a, i + 1, ArgsModel { cert: None, ..m })
            }
        } else if x == "--key"@ {
            if has_next {
                parse_from(a, i + 2, ArgsModel { key: Some(a[i + 1]), ..m })
            } else {
                parse_from(a, i + 1, ArgsModel { key: None, ..m })
            }
        } else if x == "--port"@ {
            if has_next {
                match port_value(a[i + 1]) {
                    Some(p) => parse_from(a, i + 2, ArgsModel { port: p, ..m }),
                    None => ParseModel::InvalidPort(a[i + 1]),
                }
            } else {
                ParseModel::MissingPort
            }
        } else if x == "--syntax-theme-light"@ {
            if has_next {
                parse_from(a, i + 2, ArgsModel { light: a[i + 1], ..m })
            } else {
                ParseModel::MissingLightTheme
            }
        } else if x == "--syntax-theme-dark"@ {
            if has_next {
                parse_from(a, i + 2, ArgsModel { dark: a[i + 1], ..m })
            } else {
                ParseModel::MissingDarkTheme
            }
        } else if x == "--help"@ || x == "-h"@ {
            ParseModel::Help
        } else if x.len() == 0 || x[0] != '-' {
            parse_from(a, i + 1, ArgsModel { root: Some(x), ..m })
        } else {
            ParseModel::UnknownOption(x)
        }
    }
}

fn same_text(s: &String, lit: &str) -> (r: bool)
    ensures
        r == (s@ == lit@),
{
    let t = String::from_str(lit);
    *s == t
}

fn clone_opt(o: &Option<String>) -> (r: Option<String>)
    ensures
        opt_view(r) == opt_view(*o),
{
    match o {
        Some(s) => Some(s.clone()),
        None => None,
    }
}

/// The port that `s` writes, if it writes one.
pub fn parse_port(s: &str) -> (r: Option<u16>)
    ensures
        r == port_value(s@),
{
    let v = crate::text::chars_of(s);
    let start: usize = if v.len() > 0 && v[0] == '+' {
        1
    } else {
        0
    };
    let ghost d = unsigned_part(s@);
    assert(d =~= v@.skip(start as int));
    if start >= v.len() {
        return None;
    }
    let mut value: u32 = 0;
    let mut i: usize = start;
    while i < v.len()
        invariant
            v@ == s@,
            start <= i <= v.len(),
            start < v.len(),
            d =~= v@.skip(start as int),
            d == unsigned_part(s@),
            value as nat == decimal(d.take(i - start)),
            value <= u16::MAX,
            forall|j: int| 0 <= j < i - start ==> is_digit(#[trigger] d[j]),
        decreases v.len() - i,
    {
        let c = v[i];
        if !('0' <= c && c <= '9') {
            assert(!is_digit(d[i - start]));
            assert(!all_digits(d));
            return None;
        }
        let digit = (c as u32) - ('0' as u32);
        assert(d.take(i - start + 1).drop_last() =~= d.take(i - start));
        assert(d.take(i - start + 1).last() == c);
        let next = value * 10 + digit;
        assert(decimal(d.take(i - start + 1)) == next as nat);
        if next > 65535 {
            proof {
                lemma_decimal_grows(d, i - start + 1);
            }
            assert(port_value(s@) is None);
            return None;
        }
        value = next;
        i += 1;
    }
    assert(d.take(i - start) =~= d);
    Some(value as u16)
}

proof fn lemma_decimal_grows(d: Seq<char>, n: int)
    requires
        0 < n <= d.len(),
        forall|j: int| 0 <= j < n ==> is_digit(#[trigger] d[j]),
        decimal(d.take(n)) > u16::MAX,
    ensures
        decimal(d) > u16::MAX,
    decreases d.len(),
{
    if n < d.len() {
        lemma_decimal_grows_one(d, n);
        assert(d.drop_last().take(n) =~= d.take(n));
        lemma_decimal_grows(d.drop_last(), n);
    } else {
        assert(d.take(n) =~= d);
    }
}

proof fn lemma_decimal_grows_one(d: Seq<char>, n: int)
    requires
        0 < n < d.len(),
    ensures
        decimal(d) >= decimal(d.drop_last()),
{
}

/// Parses the argument list `args`, program name left out. Options are read
/// left to right: the first error, or a help request, ends the reading.
pub fn parse_args_from(args: &Vec<String>) -> (r: Result<Command, CliError>)
    ensures
        outcome(r) == parse_from(texts(args@), 0, defaults()),
{
    let ghost a = texts(args@);
    let mut root: Option<String> = None;
    let mut tls = false;
    let mut cert: Option<String> = None;
    let mut key: Option<String> = None;
    let mut port: u16 = DEFAULT_PORT;
    let mut light = String::from_str("InspiredGitHub");
    let mut dark = String::from_str("base16-ocean.dark");
    let mut open = false;
    let mut i: usize = 0;
    while i < args.len()
        invariant
            a == texts(args@),
            i <= args.len(),
            parse_from(
                a,
                i as int,
                ArgsModel {
                    root: opt_view(root),
                    tls,
                    cert: opt_view(cert),
                    key: opt_view(key),
                    port,
                    light: light@,
                    dark: dark@,
                    open,
                },
            ) == parse_from(a, 0, defaults()),
        decreases args.len() - i,
    {
        let x = &args[i];
        let has_next = i + 1 < args.len();
        assert(a[i as int] == x@);
        if has_next {
            assert(a[i + 1] == args@[i + 1]@);
        }
        if same_text(x, "--tls") {
            tls = true;
            i += 1;
        } else if same_text(x, "--open") {
            open = true;
            i += 1;
        } else if same_text(x, "--cert") {
            if has_next {
                cert = Some(args[i + 1].clone());
                i += 2;
            } else {
                cert = None;
                i += 1;
            }
        } else if same_text(x, "--key") {
            if has_next {
                key = Some(args[i + 1].clone());
                i += 2;
            } else {
                key = None;
                i += 1;
            }
        } else if same_text(x, "--port") {
            if has_next {
                match parse_port(args[i + 1].as_str()) {
                    Some(p) => {
                        port = p;
                        i += 2;
                    },
                    None => {
                        return Err(CliError::InvalidPort(args[i + 1].clone()));
                    },
                }
            } else {
                return Err(CliError::MissingPort);
            }
        } else if same_text(x, "--syntax-theme-light") {
            if has_next {
                light = args[i + 1].clone();
                i += 2;
            } else {
                return Err(CliError::MissingLightTheme);
            }
        } else if same_text(x, "--syntax-theme-dark") {
            if has_next {
                dark = args[i + 1].clone();
                i += 2;
            } else {
                return Err(CliError::MissingDarkTheme);
            }
        } else if same_text(x, "--help") || same_text(x, "-h") {
            return Ok(Command::Help);
        } else if x.as_str().unicode_len() == 0 || x.as_str().get_char(0) != '-' {
            root = Some(x.clone());
            i += 1;
        } else {
            return Err(CliError::UnknownOption(x.clone()));
        }
    }
    let parsed = Args {
        root,
        tls,
        cert,
        key,
        port,
        syntax_theme_light: light,
        syntax_theme_dark: dark,
        open,
    };
    Ok(Command::Run(parsed))
}

} // verus!
