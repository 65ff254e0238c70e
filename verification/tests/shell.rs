use dynein::shell::{parse, ShellParseError};

#[test]
fn test_parse_ok() {
    let input = r#"query --sort-key '= 12' 'pk\\is\'escaped'"#;
    let result = parse(input);
    assert_eq!(
        result.unwrap(),
        vec!["query", "--sort-key", "= 12", r#"pk\is'escaped"#]
    )
}

#[test]
fn test_parse_ng() {
    let input = r#"quote is 'broken"#;
    let result = parse(input);
    assert!(result.is_err());

    let input = r#"escape is 'broken\"#;
    let result = parse(input);
    assert!(result.is_err());

    let input = r#"quote is 'broken by escape\'"#;
    let result = parse(input);
    assert!(result.is_err());
}

#[test]
fn shell_errors_tell_what_is_wrong() {
    assert_eq!(parse("a 'b"), Err(ShellParseError::UnclosedQuote));
    assert_eq!(parse("a 'b\\"), Err(ShellParseError::IncompleteEscape));
    assert_eq!(
        ShellParseError::UnclosedQuote.to_string(),
        "quote isn't closed".to_owned()
    );
    assert_eq!(
        ShellParseError::IncompleteEscape.to_string(),
        "escape('\\\\') is incomplete".to_owned()
    );
}

#[test]
fn shell_splits_on_spaces_and_skips_white_space() {
    assert_eq!(parse("  \t scan   -t  users  ").unwrap(), vec!["scan", "-t", "users"]);
    assert_eq!(parse("").unwrap(), Vec::<String>::new());
    assert_eq!(parse("a\tb").unwrap(), vec!["a\tb"]);
    assert_eq!(parse("'' x").unwrap(), vec!["", "x"]);
}
