use miniutils::echo::{parse_args, print_content, Options, ParsedArgs};

fn expect_print(parsed: ParsedArgs) -> Options {
    match parsed {
        ParsedArgs::Print(options) => options,
        ParsedArgs::Help => panic!("unexpected help directive"),
        ParsedArgs::Version => panic!("unexpected version directive"),
    }
}

#[test]
fn single_arg_option() {
    let args = vec!["Hello".into()];
    let expected = Options {
        args: vec!["Hello".into()],
        ..Default::default()
    };

    let options = expect_print(parse_args(args));
    assert_eq!(expected, options)
}

#[test]
fn single_arg_print() {
    let expected = b"Hello\n";
    let options = Options {
        args: vec!["Hello".into()],
        ..Default::default()
    };

    let results = print_content(options);
    assert_eq!(results.into_bytes(), expected)
}

#[test]
fn multi_arg_option() {
    let args = vec!["Hello".into(), "World".into()];
    let expected = Options {
        args: vec!["Hello".into(), "World".into()],
        ..Default::default()
    };

    let options = expect_print(parse_args(args));
    assert_eq!(expected, options)
}

#[test]
fn multi_arg_print() {
    let expected = b"Hello World\n";
    let options = Options {
        args: vec!["Hello".into(), "World".into()],
        ..Default::default()
    };

    let results = print_content(options);
    assert_eq!(results.into_bytes(), expected)
}

#[test]
fn single_arg_option_no_newline() {
    let args = vec!["-n".into(), "Hello".into()];
    let expected = Options {
        args: vec!["Hello".into()],
        trailing_newline: false,
    };

    let options = expect_print(parse_args(args));
    assert_eq!(expected, options)
}

#[test]
fn single_arg_print_no_newline() {
    let expected = b"Hello";
    let options = Options {
        args: vec!["Hello".into()],
        trailing_newline: false,
    };

    let results = print_content(options);
    assert_eq!(results.into_bytes(), expected)
}

#[test]
fn multi_arg_option_no_newline() {
    let args = vec!["-n".into(), "Hello".into(), "World".into()];
    let expected = Options {
        args: vec!["Hello".into(), "World".into()],
        trailing_newline: false,
    };

    let options = expect_print(parse_args(args));
    assert_eq!(expected, options)
}

#[test]
fn multi_arg_print_no_newline() {
    let expected = b"Hello World";
    let options = Options {
        args: vec!["Hello".into(), "World".into()],
        trailing_newline: false,
    };

    let results = print_content(options);
    assert_eq!(results.into_bytes(), expected)
}

#[test]
fn long_help_flag() {
    let args = vec!["--help".into(), "Hello".into()];
    assert_eq!(parse_args(args), ParsedArgs::Help);
}

#[test]
fn long_version_flag() {
    let args = vec!["Hello".into(), "--version".into()];
    assert_eq!(parse_args(args), ParsedArgs::Version);
}

#[test]
fn short_help_flag() {
    let args = vec!["-h".into()];
    assert_eq!(parse_args(args), ParsedArgs::Help);
}

#[test]
fn short_version_flag() {
    let args = vec!["-v".into()];
    assert_eq!(parse_args(args), ParsedArgs::Version);
}

#[test]
fn unknown_flag_scan_stops() {
    // An unrecognized character stops the scan of that flag; the word
    // itself still gets printed.
    let args: Vec<String> = vec!["-x".into(), "Hello".into()];
    let options = expect_print(parse_args(args));
    assert!(options.trailing_newline);
    assert_eq!(options.args, vec!["-x".to_string(), "Hello".to_string()]);
}

#[test]
fn no_newline_drops_first_word_even_when_flag_is_later() {
    // The first argument is removed whenever the newline was turned
    // off, whichever argument actually carried the flag.
    let args: Vec<String> = vec!["Hello".into(), "-n".into()];
    let options = expect_print(parse_args(args));
    assert!(!options.trailing_newline);
    assert_eq!(options.args, vec!["-n".to_string()]);
}
