use site_auth::username::{validate_username, validate_username_char, UserNameError};

#[test]
fn accepts_allowed_names() {
    assert_eq!(validate_username("admin"), Ok(()));
    assert_eq!(validate_username("viewer_01@Home"), Ok(()));
    assert_eq!(validate_username("Z"), Ok(()));
}

#[test]
fn rejects_empty_name() {
    assert_eq!(validate_username(""), Err(UserNameError::Empty));
}

#[test]
fn reports_first_bad_character() {
    assert_eq!(validate_username("bad name"), Err(UserNameError::Char(' ')));
    assert_eq!(validate_username("a-b c"), Err(UserNameError::Char('-')));
    assert_eq!(validate_username("x$y"), Err(UserNameError::Char('$')));
}

#[test]
fn rejects_non_ascii_characters() {
    // U+0141 would read as 'A' if it were cut down to one byte.
    assert_eq!(validate_username("\u{141}ukasz"), Err(UserNameError::Char('\u{141}')));
    assert!(!validate_username_char('\u{141}'));
    assert!(!validate_username_char('é'));
}

#[test]
fn character_ranges() {
    for c in ['0', '9', '@', 'A', 'Z', '_', 'a', 'z'] {
        assert!(validate_username_char(c), "{c:?} should be allowed");
    }
    for c in ['/', ':', '?', '[', '^', '`', '{', ' ', '$', '\n'] {
        assert!(!validate_username_char(c), "{c:?} should be refused");
    }
}

#[test]
fn revalidation_gives_same_outcome() {
    for name in ["admin", "bad name", "", "ok_1"] {
        assert_eq!(validate_username(name), validate_username(name));
    }
    assert_eq!(validate_username("ok_1"), Ok(()));
}

#[test]
fn user_name_error_constructors() {
    assert_eq!(UserNameError::from_char('!'), UserNameError::Char('!'));
    assert_eq!(UserNameError::from_option(Some('x')), UserNameError::Char('x'));
    assert_eq!(UserNameError::from_option(None), UserNameError::Empty);
}
