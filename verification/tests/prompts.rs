use i3_controller::prompt::{
    choice, flag_default_text, join, prompt, prompt_required, prompt_required_value, prompt_u64,
    question, yes_no, Answer, Question,
};

fn flag(default: bool) -> Question {
    Question::Flag {
        label: "Sure?".to_string(),
        default,
    }
}

fn kind() -> Question {
    Question::Choice {
        label: "Kind".to_string(),
        choices: vec!["web", "native"],
        default: "web".to_string(),
    }
}

#[test]
fn defaults_are_shown_in_brackets() {
    assert_eq!(question("Name", ""), "Name: ");
    assert_eq!(question("Name", "x"), "Name [x]: ");
    assert_eq!(flag_default_text(true), "Y/n");
    assert_eq!(flag_default_text(false), "y/N");
    assert_eq!(flag(true).text(), "Sure? [Y/n]: ");
    assert_eq!(flag(false).text(), "Sure? [y/N]: ");
    assert_eq!(kind().text(), "Kind (web/native) [web]: ");
    let wait = Question::Number {
        label: "Wait".to_string(),
        default: 5,
    };
    assert_eq!(wait.text(), "Wait [5]: ");
}

#[test]
fn nothing_typed_is_the_default() {
    for line in ["", "\n", "  \t\r\n"] {
        assert_eq!(prompt(line, "x"), "x");
        assert_eq!(prompt(line, ""), "");
        assert_eq!(prompt_u64(line, u64::MAX), Some(u64::MAX));
        assert_eq!(yes_no(line, true), Some(true));
        assert_eq!(yes_no(line, false), Some(false));
        assert!(matches!(kind().read(line), Ok(Answer::Text(text)) if text == "web"));
    }
}

#[test]
fn answers_are_trimmed() {
    assert_eq!(prompt("  a b \n", "x"), "a b");
    assert_eq!(prompt_u64(" 12 \n", 5), Some(12));
}

#[test]
fn required_answers_are_not_blank() {
    assert_eq!(prompt_required("\n"), None);
    assert_eq!(prompt_required(" x\n"), Some("x".to_string()));
    assert_eq!(prompt_required_value("\n", "d"), Some("d".to_string()));
    assert_eq!(prompt_required_value("\n", "  "), None);
    let url = Question::Required {
        label: "Web app URL".to_string(),
        default: String::new(),
    };
    assert_eq!(url.text(), "Web app URL: ");
    assert_eq!(
        url.read("\n").expect_err("blank"),
        "Web app URL is required."
    );
    assert!(matches!(url.read("u"), Ok(Answer::Text(text)) if text == "u"));
}

#[test]
fn numbers_are_whole() {
    let wait = Question::Number {
        label: "Wait".to_string(),
        default: 5,
    };
    assert_eq!(prompt_u64("-1\n", 5), None);
    assert_eq!(
        wait.read("1.5").expect_err("a fraction"),
        "Enter a whole number."
    );
    assert!(matches!(wait.read("15\n"), Ok(Answer::Number(15))));
}

#[test]
fn yes_and_no_are_read_in_any_case() {
    for line in ["y", "YES\n", " Yes "] {
        assert_eq!(yes_no(line, false), Some(true));
    }
    for line in ["n", "NO\n"] {
        assert_eq!(yes_no(line, true), Some(false));
    }
    assert_eq!(yes_no("Y/N", true), Some(true));
    assert_eq!(yes_no("y/n", false), Some(false));
    assert_eq!(yes_no("maybe", true), None);
    assert_eq!(
        flag(true).read("maybe").expect_err("neither"),
        "Answer yes or no."
    );
    assert!(matches!(flag(false).read("y"), Ok(Answer::Flag(true))));
}

#[test]
fn choices_are_read_letter_by_letter() {
    let choices = vec!["web", "native"];
    assert_eq!(choice("native\n", &choices, "web"), Some("native".to_string()));
    assert_eq!(choice("Native", &choices, "web"), None);
    assert_eq!(
        kind().read("x").expect_err("no choice"),
        "Choose one of: web, native"
    );
    assert_eq!(join(&choices, " + "), "web + native");
    assert_eq!(join(&vec![], ", "), "");
}
