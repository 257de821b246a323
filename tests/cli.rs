use markdown_preview::cli::{parse_args_from, parse_port, CliError, Command, DEFAULT_PORT};

fn argv(a: &[&str]) -> Vec<String> {
    a.iter().map(|s| s.to_string()).collect()
}

#[test]
fn defaults_without_arguments() {
    match parse_args_from(&argv(&[])) {
        Ok(Command::Run(a)) => {
            assert_eq!(a.root, None);
            assert!(!a.tls && !a.open);
            assert_eq!(a.port, DEFAULT_PORT);
            assert_eq!(a.port, 13181);
            assert_eq!(a.syntax_theme_light, "InspiredGitHub");
            assert_eq!(a.syntax_theme_dark, "base16-ocean.dark");
            assert_eq!(a.cert, None);
        }
        _ => panic!("expected options"),
    }
}

#[test]
fn all_options() {
    let r = parse_args_from(&argv(&[
        "docs", "--tls", "--open", "--cert", "c.pem", "--key", "k.pem", "--port", "8080",
        "--syntax-theme-light", "L", "--syntax-theme-dark", "D",
    ]));
    match r {
        Ok(Command::Run(a)) => {
            assert_eq!(a.root, Some("docs".to_string()));
            assert!(a.tls && a.open);
            assert_eq!(a.cert, Some("c.pem".to_string()));
            assert_eq!(a.key, Some("k.pem".to_string()));
            assert_eq!(a.port, 8080);
            assert_eq!(a.syntax_theme_light, "L");
            assert_eq!(a.syntax_theme_dark, "D");
        }
        _ => panic!("expected options"),
    }
}

#[test]
fn help_and_errors() {
    assert!(matches!(parse_args_from(&argv(&["-h", "--bogus"])), Ok(Command::Help)));
    assert!(matches!(parse_args_from(&argv(&["--help"])), Ok(Command::Help)));
    assert!(matches!(parse_args_from(&argv(&["--bogus", "--help"])), Err(CliError::UnknownOption(o)) if o == "--bogus"));
    assert!(matches!(parse_args_from(&argv(&["--port"])), Err(CliError::MissingPort)));
    assert!(matches!(parse_args_from(&argv(&["--port", "70000"])), Err(CliError::InvalidPort(p)) if p == "70000"));
    assert!(matches!(parse_args_from(&argv(&["--syntax-theme-light"])), Err(CliError::MissingLightTheme)));
    assert!(matches!(parse_args_from(&argv(&["--syntax-theme-dark"])), Err(CliError::MissingDarkTheme)));
}

#[test]
fn trailing_cert_clears_path() {
    match parse_args_from(&argv(&["--cert", "a.pem", "--cert"])) {
        Ok(Command::Run(a)) => assert_eq!(a.cert, None),
        _ => panic!("expected options"),
    }
}

#[test]
fn port_numbers() {
    assert_eq!(parse_port("0"), Some(0));
    assert_eq!(parse_port("+80"), Some(80));
    assert_eq!(parse_port("65535"), Some(65535));
    assert_eq!(parse_port("65536"), None);
    assert_eq!(parse_port("99999999999"), None);
    assert_eq!(parse_port(""), None);
    assert_eq!(parse_port("+"), None);
    assert_eq!(parse_port("-1"), None);
    assert_eq!(parse_port("8a"), None);
    for s in ["1", "443", "13181", "00080"] {
        assert_eq!(parse_port(s), s.parse::<u16>().ok());
    }
}
