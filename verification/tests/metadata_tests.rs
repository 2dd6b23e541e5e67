use miniutils::metadata::{digit_to_permission, parse_permissions, type_to_permission, ModeError};

#[test]
fn triads_for_octal_digits() {
    assert_eq!(digit_to_permission("1"), Ok("--x".to_string()));
    assert_eq!(digit_to_permission("2"), Ok("-w-".to_string()));
    assert_eq!(digit_to_permission("3"), Ok("-wx".to_string()));
    assert_eq!(digit_to_permission("4"), Ok("r--".to_string()));
    assert_eq!(digit_to_permission("5"), Ok("r-x".to_string()));
    assert_eq!(digit_to_permission("6"), Ok("rw-".to_string()));
    assert_eq!(digit_to_permission("7"), Ok("rwx".to_string()));
}

#[test]
fn triads_for_conflated_digits() {
    // Zero means no permissions, and the two decimal digits that are
    // not valid octal are conflated with it rather than rejected.
    assert_eq!(digit_to_permission("0"), Ok("---".to_string()));
    assert_eq!(digit_to_permission("8"), Ok("---".to_string()));
    assert_eq!(digit_to_permission("9"), Ok("---".to_string()));
}

#[test]
fn digit_rejects_malformed_input() {
    assert_eq!(digit_to_permission(""), Err(ModeError::InvalidDigitFormat));
    assert_eq!(digit_to_permission("x"), Err(ModeError::InvalidDigitFormat));
    assert_eq!(digit_to_permission("12"), Err(ModeError::InvalidDigitFormat));
    assert_eq!(digit_to_permission(" 1"), Err(ModeError::InvalidDigitFormat));
    assert_eq!(digit_to_permission("-"), Err(ModeError::InvalidDigitFormat));
}

#[test]
fn glyphs_for_recognized_type_codes() {
    assert_eq!(type_to_permission("020"), Ok('c'));
    assert_eq!(type_to_permission("040"), Ok('d'));
    assert_eq!(type_to_permission("060"), Ok('b'));
    assert_eq!(type_to_permission("100"), Ok('-'));
    assert_eq!(type_to_permission("120"), Ok('l'));
}

#[test]
fn unknown_type_codes_map_to_question_mark() {
    assert_eq!(type_to_permission("999"), Ok('?'));
    assert_eq!(type_to_permission("000"), Ok('?'));
    assert_eq!(type_to_permission("021"), Ok('?'));
    assert_eq!(type_to_permission("140"), Ok('?'));
}

#[test]
fn type_rejects_malformed_input() {
    assert_eq!(type_to_permission(""), Err(ModeError::InvalidTypeFormat));
    assert_eq!(type_to_permission("02"), Err(ModeError::InvalidTypeFormat));
    assert_eq!(type_to_permission("0200"), Err(ModeError::InvalidTypeFormat));
    assert_eq!(type_to_permission("abc"), Err(ModeError::InvalidTypeFormat));
    assert_eq!(type_to_permission("0 0"), Err(ModeError::InvalidTypeFormat));
}

#[test]
fn regular_file_mode() {
    assert_eq!(
        parse_permissions(0o100644, true),
        Ok("-rw-r--r--".to_string())
    );
}

#[test]
fn directory_mode() {
    assert_eq!(
        parse_permissions(0o040755, true),
        Ok("drwxr-xr-x".to_string())
    );
}

#[test]
fn symlink_mode() {
    assert_eq!(
        parse_permissions(0o120777, true),
        Ok("lrwxrwxrwx".to_string())
    );
}

#[test]
fn character_device_mode() {
    assert_eq!(
        parse_permissions(0o020666, true),
        Ok("crw-rw-rw-".to_string())
    );
}

#[test]
fn unknown_type_field_mode() {
    // Type code 777 is unknown but well-formed.
    assert_eq!(
        parse_permissions(0o777000, true),
        Ok("?---------".to_string())
    );
}

#[test]
fn formatting_is_deterministic_and_ten_characters() {
    for mode in [0u32, 0o100644, 0o040755, 0o120777, 0o020666, u32::MAX] {
        let first = parse_permissions(mode, true).unwrap();
        let second = parse_permissions(mode, true).unwrap();
        assert_eq!(first, second);
        assert_eq!(first.chars().count(), 10);
    }
}

#[test]
fn unsupported_platform_fails_before_decoding() {
    assert_eq!(
        parse_permissions(0o100644, false),
        Err(ModeError::PlatformUnsupported)
    );
    assert_eq!(
        parse_permissions(0, false),
        Err(ModeError::PlatformUnsupported)
    );
}
