use caretaker::command::{quote_args, space_char, tokenize, ArgIter};

fn collect_args(source: &str) -> Vec<String> {
    let mut it = ArgIter::new(source);
    let mut args: Vec<String> = Vec::new();
    while let Some(t) = it.next() {
        args.push(t);
    }
    args
}

#[test]
fn test_argiter() {
    let source = "echo h \"hello\\\" world\" \"\" \"h\\\"\"";
    let args: Vec<String> = collect_args(source);
    assert_eq!(args, &["echo", "h", "hello\" world", "", "h\""]);
}

#[test]
fn tokenize_matches_argiter() {
    let source = "echo h \"hello\\\" world\" \"\" \"h\\\"\"";
    assert_eq!(tokenize(source), collect_args(source));
}

#[test]
fn empty_input_yields_no_tokens() {
    assert_eq!(tokenize(""), Vec::<String>::new());
}

#[test]
fn whitespace_input_yields_no_tokens() {
    assert_eq!(tokenize("   \t \n  \r "), Vec::<String>::new());
    assert!(space_char(' ') && space_char('\t') && space_char('\n'));
    assert!(!space_char('"'));
}

#[test]
fn unterminated_quote_runs_to_the_end() {
    assert_eq!(tokenize("\"abc"), &["abc"]);
    assert_eq!(tokenize("ls '1 2 3"), &["ls", "1 2 3"]);
}

#[test]
fn empty_quoted_argument_is_kept() {
    assert_eq!(tokenize("a \"\" b ''"), &["a", "", "b", ""]);
}

#[test]
fn backslash_escapes_quote_and_separator() {
    assert_eq!(tokenize("a\\ b"), &["a b"]);
    assert_eq!(tokenize("\\\"abc def"), &["\"abc", "def"]);
    assert_eq!(tokenize("back\\\\slash"), &["back\\slash"]);
}

#[test]
fn whitespace_runs_collapse() {
    assert_eq!(tokenize("  echo \t  hi   "), &["echo", "hi"]);
}

#[test]
fn quote_inside_plain_token_holds_it_together() {
    assert_eq!(tokenize("--msg=\"a b\" c"), &["--msg=\"a b\"", "c"]);
    assert_eq!(tokenize("it's fine"), &["it's fine"]);
}

#[test]
fn single_quotes_keep_double_quotes_literal() {
    assert_eq!(tokenize("'he said \"hi\"'"), &["he said \"hi\""]);
}

#[test]
fn quote_round_trip_recovers_the_argv() {
    let argv: Vec<String> = vec![
        "echo".to_string(),
        "a b".to_string(),
        "he said \"hi\"".to_string(),
        "".to_string(),
        "back\\slash".to_string(),
        "it's".to_string(),
    ];
    let quoted = quote_args(&argv);
    assert_eq!(tokenize(&quoted), argv);
}

#[test]
fn quote_round_trip_of_empty_argv() {
    let argv: Vec<String> = Vec::new();
    let quoted = quote_args(&argv);
    assert_eq!(quoted, "");
    assert_eq!(tokenize(&quoted), argv);
}

#[test]
fn quoting_escapes_only_quote_and_backslash() {
    let argv: Vec<String> = vec!["a\"b".to_string(), "c\\d".to_string()];
    assert_eq!(quote_args(&argv), "\"a\\\"b\" \"c\\\\d\"");
}
