use miniutils::cat::{print_content, Options};

#[test]
fn empty_file() {
    let content = String::new();
    let options = Options::default();

    let expected: Vec<u8> = Vec::new();

    let result = print_content(options, content);
    assert_eq!(result.into_bytes(), expected);
}

#[test]
fn one_line() {
    let content = String::from("Hello World!");
    let options = Options::default();

    let expected: Vec<u8> = b"Hello World!".into();

    let result = print_content(options, content);
    assert_eq!(result.into_bytes(), expected);
}

#[test]
fn two_lines() {
    let content = String::from("Hello World!\nAnd everyone else!");
    let options = Options::default();

    let expected: Vec<u8> = b"Hello World!\nAnd everyone else!".into();

    let result = print_content(options, content);
    assert_eq!(result.into_bytes(), expected);
}

#[test]
fn one_line_replace() {
    let content = String::from("Hello World!");
    let options = Options {
        show_ends: true,
        ..Default::default()
    };

    let expected: Vec<u8> = b"Hello World!".into();

    let result = print_content(options, content);
    assert_eq!(result.into_bytes(), expected);
}

#[test]
fn two_lines_replace() {
    let content = String::from("Hello World!\nAnd everyone else!");
    let options = Options {
        show_ends: true,
        ..Default::default()
    };

    let expected: Vec<u8> = b"Hello World!$\nAnd everyone else!".into();

    let result = print_content(options, content);
    assert_eq!(result.into_bytes(), expected);
}

#[test]
fn one_line_number() {
    let content = String::from("Hello World!");
    let options = Options {
        number: true,
        ..Default::default()
    };

    let expected: Vec<u8> = b"1 Hello World!\n".into();

    let result = print_content(options, content);
    assert_eq!(String::from_utf8(result.into_bytes()), String::from_utf8(expected));
}

#[test]
fn ten_lines_number() {
    let content = String::from("One\nTwo\nThree\nFour\nFive\nSix\nSeven\nEight\nNine\nTen");
    let options = Options {
        number: true,
        ..Default::default()
    };

    let expected: Vec<u8> =
        b"1 One\n2 Two\n3 Three\n4 Four\n5 Five\n6 Six\n7 Seven\n8 Eight\n9 Nine\n10 Ten\n"
            .into();

    let result = print_content(options, content);
    assert_eq!(String::from_utf8(result.into_bytes()), String::from_utf8(expected));
}

#[test]
fn eleven_lines_number_aligned() {
    // Ten newlines give a two-character number column, so the first nine
    // numbers gain a leading space.
    let content = String::from("a\nb\nc\nd\ne\nf\ng\nh\ni\nj\nk");
    let options = Options {
        number: true,
        ..Default::default()
    };

    let result = print_content(options, content);
    assert_eq!(
        result,
        " 1 a\n 2 b\n 3 c\n 4 d\n 5 e\n 6 f\n 7 g\n 8 h\n 9 i\n10 j\n11 k\n"
    );
}

#[test]
fn number_after_replace() {
    let content = String::from("One\nTwo");
    let options = Options {
        show_ends: true,
        number: true,
    };

    let result = print_content(options, content);
    assert_eq!(result, "1 One$\n2 Two\n");
}

#[test]
fn trailing_newline_makes_no_empty_line() {
    let content = String::from("One\nTwo\n");
    let options = Options {
        number: true,
        ..Default::default()
    };

    let result = print_content(options, content);
    assert_eq!(result, "1 One\n2 Two\n");
}

#[test]
fn carriage_return_stripped_in_numbering() {
    let content = String::from("One\r\nTwo");
    let options = Options {
        number: true,
        ..Default::default()
    };

    let result = print_content(options, content);
    assert_eq!(result, "1 One\n2 Two\n");
}

#[test]
fn final_carriage_return_kept_in_numbering() {
    // Only a carriage return immediately before a newline belongs to
    // the line ending; a final line without a newline keeps its `\r`.
    let content = String::from("One\nTwo\r");
    let options = Options {
        number: true,
        ..Default::default()
    };

    let result = print_content(options, content);
    assert_eq!(result, "1 One\n2 Two\r\n");
}
