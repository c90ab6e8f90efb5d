//! The text functions beside those of std.
use i3_controller::number::{decimal, parse_u64, NumberError};
use i3_controller::text::{
    ascii_alphanumeric, ascii_digit, ascii_letter, chars_of, find_text_from, has_prefix, has_text,
    lines, lower_char, put_line, replace, same, split, split_once, substring, to_lower, trim,
    white_space, words,
};

const SAMPLES: [&str; 20] = [
    "",
    " ",
    "a",
    "  a b  ",
    "\u{3000}wide\u{a0}",
    "one\ntwo\n",
    "one\r\ntwo\r",
    "\n\n",
    "\r\n",
    "a;b;;c;",
    ";",
    "key=value=more",
    "=",
    "A\u{c4}z",
    "tab\tand\u{b}vertical",
    "aaa",
    "aaaa",
    "it's \"quoted\"",
    "\u{1f600} smile",
    "x\u{85}y\u{2028}z",
];

#[test]
fn character_classes_agree_with_std_on_every_character() {
    for code in 0..=0x10ffffu32 {
        if let Some(c) = char::from_u32(code) {
            assert_eq!(white_space(c), c.is_whitespace(), "{code:x}");
            assert_eq!(ascii_letter(c), c.is_ascii_alphabetic(), "{code:x}");
            assert_eq!(ascii_digit(c), c.is_ascii_digit(), "{code:x}");
            assert_eq!(ascii_alphanumeric(c), c.is_ascii_alphanumeric(), "{code:x}");
            assert_eq!(lower_char(c), c.to_ascii_lowercase(), "{code:x}");
        }
    }
}

#[test]
fn trimming_agrees_with_std() {
    for sample in SAMPLES {
        assert_eq!(trim(sample), sample.trim());
    }
}

#[test]
fn lower_case_agrees_with_std() {
    for sample in SAMPLES {
        assert_eq!(to_lower(sample), sample.to_ascii_lowercase());
    }
}

#[test]
fn lines_agree_with_std() {
    for sample in SAMPLES {
        assert_eq!(lines(sample), sample.lines().collect::<Vec<_>>());
    }
}

#[test]
fn words_agree_with_std() {
    for sample in SAMPLES {
        assert_eq!(words(sample), sample.split_whitespace().collect::<Vec<_>>());
    }
}

#[test]
fn splitting_agrees_with_std() {
    for sample in SAMPLES {
        assert_eq!(split(sample, ';'), sample.split(';').collect::<Vec<_>>());
        let cut = sample
            .split_once('=')
            .map(|(left, right)| (left.to_string(), right.to_string()));
        assert_eq!(split_once(sample, '='), cut);
    }
}

#[test]
fn replacing_agrees_with_std() {
    for sample in SAMPLES {
        assert_eq!(replace(sample, "aa", "b"), sample.replace("aa", "b"));
        assert_eq!(replace(sample, "a", "aa"), sample.replace("a", "aa"));
        assert_eq!(replace(sample, "\"", "\\\""), sample.replace('"', "\\\""));
    }
}

#[test]
fn finding_agrees_with_std() {
    for sample in SAMPLES {
        for part in ["a", "aa", "two", "\n", "value=", "zzz"] {
            assert_eq!(has_text(sample, part), sample.contains(part));
            assert_eq!(has_prefix(sample, part), sample.starts_with(part));
            let found = find_text_from(&chars_of(sample), 0, &chars_of(part));
            let expected = sample
                .find(part)
                .map(|at| sample[..at].chars().count());
            assert_eq!(found, expected);
        }
    }
}

#[test]
fn substrings_are_counted_in_characters() {
    let cs = chars_of("a\u{1f600}bc");
    assert_eq!(cs.len(), 4);
    assert_eq!(substring(&cs, 1, 3), "\u{1f600}b");
    assert_eq!(substring(&cs, 2, 2), "");
}

#[test]
fn equality_agrees_with_std() {
    for a in SAMPLES {
        for b in SAMPLES {
            assert_eq!(same(a, b), a == b);
        }
    }
}

#[test]
fn lines_are_put_behind_what_is_there() {
    let mut output = "x".to_string();
    put_line(&mut output, "\u{1f600}y");
    put_line(&mut output, "");
    assert_eq!(output, "x\u{1f600}y\n\n");
}

#[test]
fn numbers_agree_with_std() {
    for sample in [
        "", "0", "7", "007", "+7", "-7", "+", "-", "++1", "1 ", " 1", "1_000", "12a", "a12",
        "18446744073709551615", "18446744073709551616", "99999999999999999999999", "\u{661}",
        "18446744073709551616x",
    ] {
        let expected = sample.parse::<u64>();
        match parse_u64(sample) {
            Ok(number) => assert_eq!(Ok(number), expected, "{sample}"),
            Err(error) => {
                let wanted = expected.expect_err(sample).to_string();
                assert_eq!(
                    i3_controller::error::Error::Number { error }.message(),
                    wanted,
                    "{sample}"
                );
            }
        }
    }
}

#[test]
fn number_errors_are_told_apart() {
    assert!(matches!(parse_u64(""), Err(NumberError::Empty)));
    assert!(matches!(parse_u64("x"), Err(NumberError::InvalidDigit)));
    assert!(matches!(
        parse_u64("18446744073709551616"),
        Err(NumberError::TooLarge)
    ));
}

#[test]
fn numbers_are_read_back_as_they_are_written() {
    for number in [0, 1, 9, 10, 99, 100, 4096, u64::MAX - 1, u64::MAX] {
        assert_eq!(decimal(number), number.to_string());
        assert_eq!(parse_u64(&decimal(number)).ok(), Some(number));
    }
}
