//! Questions put to a user, and what the line that comes back answers.
use crate::number::{decimal, decimal_of, number_of, parse_u64};
use crate::text::{lowered, same, to_lower, trim, trimmed};
use vstd::prelude::*;

verus! {

/// What is shown before an answer is read: the question, with its default if it has one.
pub open spec fn question_of(label: Seq<char>, default: Seq<char>) -> Seq<char> {
    if default.len() == 0 {
        label + ": "@
    } else {
        label + " ["@ + default + "]: "@
    }
}

pub fn question(label: &str, default: &str) -> (s: String)
    ensures
        s@ == question_of(label@, default@),
{
    if default.is_empty() {
        label.to_owned().concat(": ")
    } else {
        label.to_owned().concat(" [").concat(default).concat("]: ")
    }
}

/// The answer in a line: the line without the white space at its ends, or the default if
/// nothing is left.
pub open spec fn answer_of(line: Seq<char>, default: Seq<char>) -> Seq<char> {
    if trimmed(line).len() == 0 {
        default
    } else {
        trimmed(line)
    }
}

pub fn prompt(line: &str, default: &str) -> (s: String)
    ensures
        s@ == answer_of(line@, default@),
{
    let value = trim(line);
    if value.as_str().is_empty() {
        default.to_owned()
    } else {
        value
    }
}

/// An answer that must not be blank; `None` if it is.
pub open spec fn required_of(line: Seq<char>, default: Seq<char>) -> Option<Seq<char>> {
    let value = answer_of(line, default);
    if trimmed(value).len() == 0 {
        None
    } else {
        Some(value)
    }
}

pub fn prompt_required_value(line: &str, default: &str) -> (r: Option<String>)
    ensures
        r.deep_view() == required_of(line@, default@),
{
    let value = prompt(line, default);
    if trim(&value).as_str().is_empty() {
        None
    } else {
        Some(value)
    }
}

pub fn prompt_required(line: &str) -> (r: Option<String>)
    ensures
        r.deep_view() == required_of(line@, seq![]),
{
    proof {
        crate::text::lemma_empty_line();
    }
    prompt_required_value(line, "")
}

/// An answer that must be a whole number; `None` if it is not.
pub open spec fn number_answer(line: Seq<char>, default: u64) -> Option<u64> {
    match number_of(answer_of(line, decimal_of(default as nat))) {
        Ok(number) => Some(number),
        Err(_) => None,
    }
}

pub fn prompt_u64(line: &str, default: u64) -> (r: Option<u64>)
    ensures
        r == number_answer(line@, default),
{
    match parse_u64(&prompt(line, &decimal(default))) {
        Ok(number) => Some(number),
        Err(_) => None,
    }
}

/// The default of a yes-or-no question as it is shown.
pub open spec fn flag_default(default: bool) -> Seq<char> {
    if default {
        "Y/n"@
    } else {
        "y/N"@
    }
}

pub fn flag_default_text(default: bool) -> (s: &'static str)
    ensures
        s@ == flag_default(default),
{
    if default {
        "Y/n"
    } else {
        "y/N"
    }
}

/// An answer that must be yes or no; `None` if it is neither.
pub open spec fn flag_answer(line: Seq<char>, default: bool) -> Option<bool> {
    let word = lowered(answer_of(line, flag_default(default)));
    if word == "y"@ || word == "yes"@ {
        Some(true)
    } else if word == "n"@ || word == "no"@ {
        Some(false)
    } else if word.len() == 0 || word == "y/n"@ {
        Some(default)
    } else {
        None
    }
}

pub fn yes_no(line: &str, default: bool) -> (r: Option<bool>)
    ensures
        r == flag_answer(line@, default),
{
    let word = to_lower(&prompt(line, flag_default_text(default)));
    if same(&word, "y") || same(&word, "yes") {
        Some(true)
    } else if same(&word, "n") || same(&word, "no") {
        Some(false)
    } else if word.as_str().is_empty() || same(&word, "y/n") {
        Some(default)
    } else {
        None
    }
}

/// An answer that must be one of the choices; `None` if it is not.
pub open spec fn choice_answer(
    line: Seq<char>,
    choices: Seq<Seq<char>>,
    default: Seq<char>,
) -> Option<Seq<char>> {
    let value = answer_of(line, default);
    if choices.contains(value) {
        Some(value)
    } else {
        None
    }
}

pub fn choice(line: &str, choices: &Vec<&'static str>, default: &str) -> (r: Option<String>)
    ensures
        r.deep_view() == choice_answer(line@, choices.deep_view(), default@),
{
    let value = prompt(line, default);
    let ghost all = choices.deep_view();
    for i in 0..choices.len()
        invariant
            all == choices.deep_view(),
            value@ == answer_of(line@, default@),
            forall|k: int| 0 <= k < i ==> #[trigger] all[k] != value@,
    {
        assert(all[i as int] == choices@[i as int]@);
        if same(choices[i], &value) {
            assert(all[i as int] == value@);
            return Some(value);
        }
    }
    assert(!all.contains(value@));
    None
}

/// Texts with a separator between each two.
pub open spec fn joined(parts: Seq<Seq<char>>, sep: Seq<char>) -> Seq<char>
    decreases parts.len(),
{
    if parts.len() == 0 {
        seq![]
    } else if parts.len() == 1 {
        parts[0]
    } else {
        joined(parts.drop_last(), sep) + sep + parts.last()
    }
}

pub fn join(parts: &Vec<&'static str>, sep: &str) -> (s: String)
    ensures
        s@ == joined(parts.deep_view(), sep@),
{
    let ghost all = parts.deep_view();
    let mut s = String::new();
    for i in 0..parts.len()
        invariant
            all == parts.deep_view(),
            s@ == joined(all.take(i as int), sep@),
    {
        if i > 0 {
            s.append(sep);
        }
        s.append(parts[i]);
        proof {
            assert(all[i as int] == parts@[i as int]@);
            assert(all.take(i + 1).drop_last() == all.take(i as int));
            assert(all.take(i + 1).last() == all[i as int]);
            if i == 0 {
                assert(Seq::<char>::empty() + all[0] == all[0]);
            }
        }
    }
    assert(all.take(all.len() as int) == all);
    s
}

// Questions.

/// A question, by the kind of answer that it takes.
#[derive(Debug)]
pub enum Question {
    /// Any text.
    Text { label: String, default: String },
    /// Text that is not blank.
    Required { label: String, default: String },
    /// A whole number.
    Number { label: String, default: u64 },
    /// Yes or no.
    Flag { label: String, default: bool },
    /// One of the choices.
    Choice { label: String, choices: Vec<&'static str>, default: String },
}

#[verifier::ext_equal]
pub enum QuestionView {
    Text { label: Seq<char>, default: Seq<char> },
    Required { label: Seq<char>, default: Seq<char> },
    Number { label: Seq<char>, default: u64 },
    Flag { label: Seq<char>, default: bool },
    Choice { label: Seq<char>, choices: Seq<Seq<char>>, default: Seq<char> },
}

impl DeepView for Question {
    type V = QuestionView;

    open spec fn deep_view(&self) -> QuestionView {
        match self {
            Question::Text { label, default } => QuestionView::Text {
                label: label@,
                default: default@,
            },
            Question::Required { label, default } => QuestionView::Required {
                label: label@,
                default: default@,
            },
            Question::Number { label, default } => QuestionView::Number {
                label: label@,
                default: *default,
            },
            Question::Flag { label, default } => QuestionView::Flag {
                label: label@,
                default: *default,
            },
            Question::Choice { label, choices, default } => QuestionView::Choice {
                label: label@,
                choices: choices.deep_view(),
                default: default@,
            },
        }
    }
}

/// What a line answers.
#[derive(Debug)]
pub enum Answer {
    Text(String),
    Number(u64),
    Flag(bool),
}

#[verifier::ext_equal]
pub enum AnswerView {
    Text(Seq<char>),
    Number(u64),
    Flag(bool),
}

impl DeepView for Answer {
    type V = AnswerView;

    open spec fn deep_view(&self) -> AnswerView {
        match self {
            Answer::Text(text) => AnswerView::Text(text@),
            Answer::Number(number) => AnswerView::Number(*number),
            Answer::Flag(flag) => AnswerView::Flag(*flag),
        }
    }
}

/// A question as it is shown.
pub open spec fn shown(asked: QuestionView) -> Seq<char> {
    match asked {
        QuestionView::Text { label, default } => question_of(label, default),
        QuestionView::Required { label, default } => question_of(label, default),
        QuestionView::Number { label, default } => question_of(label, decimal_of(default as nat)),
        QuestionView::Flag { label, default } => question_of(label, flag_default(default)),
        QuestionView::Choice { label, choices, default } => question_of(
            label + " ("@ + joined(choices, "/"@) + ")"@,
            default,
        ),
    }
}

/// What a line answers to a question, or what is said to a line that does not answer it.
pub open spec fn reading(asked: QuestionView, line: Seq<char>) -> Result<AnswerView, Seq<char>> {
    match asked {
        QuestionView::Text { default, .. } => Ok(AnswerView::Text(answer_of(line, default))),
        QuestionView::Required { label, default } => match required_of(line, default) {
            Some(value) => Ok(AnswerView::Text(value)),
            None => Err(label + " is required."@),
        },
        QuestionView::Number { default, .. } => match number_answer(line, default) {
            Some(number) => Ok(AnswerView::Number(number)),
            None => Err("Enter a whole number."@),
        },
        QuestionView::Flag { default, .. } => match flag_answer(line, default) {
            Some(flag) => Ok(AnswerView::Flag(flag)),
            None => Err("Answer yes or no."@),
        },
        QuestionView::Choice { choices, default, .. } => match choice_answer(
            line,
            choices,
            default,
        ) {
            Some(value) => Ok(AnswerView::Text(value)),
            None => Err("Choose one of: "@ + joined(choices, ", "@)),
        },
    }
}

/// A result of which both sides are seen as text.
pub open spec fn reading_view(r: Result<Answer, String>) -> Result<AnswerView, Seq<char>> {
    match r {
        Ok(answer) => Ok(answer.deep_view()),
        Err(complaint) => Err(complaint@),
    }
}

impl Question {
    /// The question as it is shown.
    pub fn text(&self) -> (s: String)
        ensures
            s@ == shown(self.deep_view()),
    {
        match self {
            Question::Text { label, default } => question(label, default),
            Question::Required { label, default } => question(label, default),
            Question::Number { label, default } => question(label, &decimal(*default)),
            Question::Flag { label, default } => question(label, flag_default_text(*default)),
            Question::Choice { label, choices, default } => question(
                &label.clone().concat(" (").concat(&join(choices, "/")).concat(")"),
                default,
            ),
        }
    }

    /// Reads the answer in a line; what is wrong with the line if it holds none.
    pub fn read(&self, line: &str) -> (r: Result<Answer, String>)
        ensures
            reading_view(r) == reading(self.deep_view(), line@),
    {
        match self {
            Question::Text { default, .. } => Ok(Answer::Text(prompt(line, default))),
            Question::Required { label, default } => match prompt_required_value(line, default) {
                Some(value) => Ok(Answer::Text(value)),
                None => Err(label.clone().concat(" is required.")),
            },
            Question::Number { default, .. } => match prompt_u64(line, *default) {
                Some(number) => Ok(Answer::Number(number)),
                None => Err("Enter a whole number.".to_owned()),
            },
            Question::Flag { default, .. } => match yes_no(line, *default) {
                Some(flag) => Ok(Answer::Flag(flag)),
                None => Err("Answer yes or no.".to_owned()),
            },
            Question::Choice { choices, default, .. } => match choice(line, choices, default) {
                Some(value) => Ok(Answer::Text(value)),
                None => Err("Choose one of: ".to_owned().concat(&join(choices, ", "))),
            },
        }
    }
}

/// Nothing typed is an answer that leaves the default as it is.
pub proof fn law_nothing_typed_is_the_default(default: bool, number: u64)
    ensures
        flag_answer(seq![], default) == Some(default),
        number_answer(seq![], number) == Some(number),
        forall|text: Seq<char>| #[trigger] answer_of(seq![], text) == text,
{
    crate::facts::lemma_trimmed_iff(seq![]);
    crate::number::law_decimal_reads_back(number);
    reveal_strlit("Y/n");
    reveal_strlit("y/N");
    reveal_strlit("y/n");
    reveal_strlit("y");
    reveal_strlit("yes");
    reveal_strlit("n");
    reveal_strlit("no");
    let word = lowered(flag_default(default));
    assert(word == "y/n"@);
    assert("y/n"@.len() == 3 && "y"@.len() == 1 && "n"@.len() == 1 && "no"@.len() == 2);
    assert("y/n"@[1] != "yes"@[1]);
}

} // verus!
