//! How questions are put and how lines answer them.
use crate::number::{decimal_of, number_of};
use crate::prompt::{joined, question_of, reading, shown, AnswerView, QuestionView};
use crate::text::{lowered, trimmed};
use vstd::prelude::*;

verus! {

/// The answer that a line gives in text: what it holds without the white space around it, or what
/// is offered if it holds nothing.
pub open spec fn given(line: Seq<char>, offered: Seq<char>) -> Seq<char> {
    if trimmed(line).len() > 0 {
        trimmed(line)
    } else {
        offered
    }
}

pub open spec fn is_yes(word: Seq<char>) -> bool {
    lowered(word) == "y"@ || lowered(word) == "yes"@
}

pub open spec fn is_no(word: Seq<char>) -> bool {
    lowered(word) == "n"@ || lowered(word) == "no"@
}

/// Texts are joined with the separator between each two and nowhere else.
pub proof fn law_joining(parts: Seq<Seq<char>>, last: Seq<char>, sep: Seq<char>)
    ensures
        joined(Seq::<Seq<char>>::empty(), sep).len() == 0,
        parts.len() == 0 ==> joined(parts.push(last), sep) == last,
        parts.len() > 0 ==> joined(parts.push(last), sep) == joined(parts, sep) + sep + last,
{
    assert(parts.push(last).drop_last() == parts);
}

/// What is offered stands in square brackets behind the label, and a colon and a space end the
/// question. The choices stand in round brackets.
pub proof fn law_how_questions_are_shown(
    label: Seq<char>,
    offered: Seq<char>,
    number: u64,
    flag: bool,
    choices: Seq<Seq<char>>,
)
    ensures
        question_of(label, seq![]) == label + ": "@,
        offered.len() > 0 ==> question_of(label, offered) == label + " ["@ + offered + "]: "@,
        shown(QuestionView::Text { label, default: offered }) == question_of(label, offered),
        shown(QuestionView::Required { label, default: offered }) == question_of(label, offered),
        shown(QuestionView::Number { label, default: number }) == label + " ["@ + decimal_of(
            number as nat,
        ) + "]: "@,
        shown(QuestionView::Flag { label, default: flag }) == label + " ["@ + (if flag {
            "Y/n"@
        } else {
            "y/N"@
        }) + "]: "@,
        shown(QuestionView::Choice { label, choices, default: offered }) == question_of(
            label + " ("@ + joined(choices, "/"@) + ")"@,
            offered,
        ),
{
    crate::number::lemma_decimal_digits(number as nat);
    reveal_strlit("Y/n");
    reveal_strlit("y/N");
}

/// A text is answered by any line; one that is required by any that leaves no blank answer.
pub proof fn law_text_answers(line: Seq<char>, label: Seq<char>, offered: Seq<char>)
    ensures
        reading(QuestionView::Text { label, default: offered }, line) == Ok::<
            AnswerView,
            Seq<char>,
        >(AnswerView::Text(given(line, offered))),
        trimmed(line).len() > 0 || trimmed(offered).len() > 0 ==> reading(
            QuestionView::Required { label, default: offered },
            line,
        ) == Ok::<AnswerView, Seq<char>>(AnswerView::Text(given(line, offered))),
        trimmed(line).len() == 0 && trimmed(offered).len() == 0 ==> reading(
            QuestionView::Required { label, default: offered },
            line,
        ) == Err::<AnswerView, Seq<char>>(label + " is required."@),
{
    crate::facts::lemma_trimmed_twice(line);
}

/// A number is answered by a line that holds one, or by nothing for the one that is offered.
pub proof fn law_number_answers(line: Seq<char>, label: Seq<char>, offered: u64)
    ensures
        trimmed(line).len() == 0 ==> reading(
            QuestionView::Number { label, default: offered },
            line,
        ) == Ok::<AnswerView, Seq<char>>(AnswerView::Number(offered)),
        trimmed(line).len() > 0 ==> reading(QuestionView::Number { label, default: offered }, line)
            == match number_of(trimmed(line)) {
            Ok(number) => Ok::<AnswerView, Seq<char>>(AnswerView::Number(number)),
            Err(_) => Err::<AnswerView, Seq<char>>("Enter a whole number."@),
        },
{
    crate::number::law_decimal_reads_back(offered);
}

/// Yes and no are answered by the word or its first letter, of any size; nothing, or what is shown,
/// is what is offered; anything else is no answer.
pub proof fn law_flag_answers(line: Seq<char>, label: Seq<char>, offered: bool)
    ensures
        ({
            let read = reading(QuestionView::Flag { label, default: offered }, line);
            let word = trimmed(line);
            &&& is_yes(word) ==> read == Ok::<AnswerView, Seq<char>>(AnswerView::Flag(true))
            &&& is_no(word) ==> read == Ok::<AnswerView, Seq<char>>(AnswerView::Flag(false))
            &&& word.len() == 0 || lowered(word) == "y/n"@ ==> read == Ok::<AnswerView, Seq<char>>(
                AnswerView::Flag(offered),
            )
            &&& word.len() > 0 && !is_yes(word) && !is_no(word) && lowered(word) != "y/n"@ ==> read
                == Err::<AnswerView, Seq<char>>("Answer yes or no."@)
        }),
{
    reveal_strlit("Y/n");
    reveal_strlit("y/N");
    reveal_strlit("y/n");
    reveal_strlit("y");
    reveal_strlit("yes");
    reveal_strlit("n");
    reveal_strlit("no");
    assert(lowered("Y/n"@) == "y/n"@);
    assert(lowered("y/N"@) == "y/n"@);
    assert("y"@[0] == 'y' && "n"@[0] == 'n' && "y"@.len() == 1 && "n"@.len() == 1);
    assert("yes"@.len() == 3 && "no"@.len() == 2 && "y/n"@.len() == 3);
    assert("yes"@[1] == 'e' && "y/n"@[1] == '/');
}

/// One of the choices is answered by that choice, letter by letter, or by nothing for the one that
/// is offered.
pub proof fn law_choice_answers(
    line: Seq<char>,
    label: Seq<char>,
    choices: Seq<Seq<char>>,
    offered: Seq<char>,
)
    ensures
        choices.contains(given(line, offered)) ==> reading(
            QuestionView::Choice { label, choices, default: offered },
            line,
        ) == Ok::<AnswerView, Seq<char>>(AnswerView::Text(given(line, offered))),
        !choices.contains(given(line, offered)) ==> reading(
            QuestionView::Choice { label, choices, default: offered },
            line,
        ) == Err::<AnswerView, Seq<char>>("Choose one of: "@ + joined(choices, ", "@)),
{
}

} // verus!
