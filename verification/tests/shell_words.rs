use i3_controller::shell::{file_safe, shell_quote, shell_word, validate_env_name};

#[test]
fn quotes_are_closed_escaped_and_opened_again() {
    assert_eq!(shell_quote(""), "''");
    assert_eq!(shell_quote("plain"), "'plain'");
    assert_eq!(shell_quote("it's"), "'it'\"'\"'s'");
    assert_eq!(shell_quote("''"), "''\"'\"''\"'\"''");
    assert_eq!(shell_quote("$HOME `x` \\"), "'$HOME `x` \\'");
}

#[test]
fn only_words_that_need_it_are_quoted() {
    assert_eq!(shell_word("chromium-browser"), "chromium-browser");
    assert_eq!(shell_word("https://a.b/c:1=@+_-."), "https://a.b/c:1=@+_-.");
    assert_eq!(shell_word("a b"), "'a b'");
    assert_eq!(shell_word("a?b"), "'a?b'");
    assert_eq!(shell_word("\u{e9}"), "'\u{e9}'");
    assert_eq!(shell_word("it's"), "'it'\"'\"'s'");
}

#[test]
fn an_empty_word_stays_empty() {
    assert_eq!(shell_word(""), "");
}

#[test]
fn file_names_keep_letters_and_digits_only() {
    assert_eq!(file_safe("PLC status #1"), "PLC-status--1");
    assert_eq!(file_safe("a.b_c/\u{e9}"), "a-b-c--");
    assert_eq!(file_safe(""), "");
    assert_eq!(file_safe(&file_safe("x y")), file_safe("x y"));
}

#[test]
fn variable_names_are_checked() {
    assert!(validate_env_name("LAB_DASHBOARD_PASSWORD").is_ok());
    assert!(validate_env_name("_").is_ok());
    assert!(validate_env_name("_1").is_ok());
    assert!(validate_env_name("a9_").is_ok());
    assert_eq!(
        validate_env_name("").unwrap_err().message(),
        "empty environment variable name"
    );
    for name in ["1a", "a-b", "a b", "\u{e9}", "a\u{e9}", "$A"] {
        assert_eq!(
            validate_env_name(name).unwrap_err().message(),
            format!("invalid environment variable name: {name}")
        );
    }
}
