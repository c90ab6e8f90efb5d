//! What the operations on text do, said of the parts that a text is put together from.
use crate::config::{DurationView, TextCommandView};
use crate::error::ErrorView;
use crate::facts::{has_char, lemma_cut_at, lemma_pieces_one};
use crate::fold::{fold, lemma_fold_concat};
use crate::number::{digit_run, number_of, unsigned, value_of, NumberError};
use crate::settings::{is_false_word, is_true_word};
use crate::text::{
    cut, each, first_index, is_ascii_digit, is_ascii_letter, is_white_space,
    lemma_first_index_at, lemma_first_index_bounds, lemma_text_index, lemma_trimmed_end_at,
    lemma_trimmed_start_at, lemma_word_end_at, lines_of, lowered, pieces, replaced, starts_with,
    text_index, trimmed, unlines, words_of,
};
use crate::values::{
    bool_of, command_of, command_step, commands_of, duration_of, without_letters, Stop,
};
use vstd::prelude::*;

verus! {

/// Text of nothing but white space.
pub open spec fn is_blank(s: Seq<char>) -> bool {
    forall|i: int| 0 <= i < s.len() ==> is_white_space(#[trigger] s[i])
}

/// Trimming takes the white space around a text off, all of it and nothing else.
pub proof fn law_trimming(before: Seq<char>, body: Seq<char>, after: Seq<char>)
    requires
        is_blank(before),
        is_blank(after),
        body.len() > 0 ==> !is_white_space(body[0]) && !is_white_space(body.last()),
    ensures
        trimmed(before + body + after) == body,
{
    let s = before + body + after;
    let i = before.len() as int;
    if body.len() == 0 {
        assert forall|k: int| 0 <= k < s.len() implies is_white_space(#[trigger] s[k]) by {
            if k < i {
                assert(s[k] == before[k]);
            } else {
                assert(s[k] == after[k - i]);
            }
        }
        lemma_trimmed_start_at(s, s.len() as int);
        assert(s.skip(s.len() as int) == Seq::<char>::empty());
        assert(trimmed(s) == Seq::<char>::empty());
        assert(body == Seq::<char>::empty());
    } else {
        assert forall|k: int| 0 <= k < i implies is_white_space(#[trigger] s[k]) by {
            assert(s[k] == before[k]);
        }
        assert(s[i] == body[0]);
        lemma_trimmed_start_at(s, i);
        let t = s.skip(i);
        assert(t == body + after);
        let j = body.len() as int;
        assert forall|k: int| j <= k < t.len() implies is_white_space(#[trigger] t[k]) by {
            assert(t[k] == after[k - j]);
        }
        assert(t[j - 1] == body.last());
        lemma_trimmed_end_at(t, j);
        assert(t.take(j) == body);
    }
}

/// Small letters are put in place of the capital letters from A to Z, and of nothing else.
pub proof fn law_lowering(s: Seq<char>)
    ensures
        lowered(s).len() == s.len(),
        forall|i: int|
            0 <= i < s.len() ==> #[trigger] lowered(s)[i] == if 'A' <= s[i] <= 'Z' {
                (s[i] as int + 32) as char
            } else {
                s[i]
            },
{
}

/// A text is cut at the first separator, and only if there is one.
pub proof fn law_cutting(front: Seq<char>, sep: char, back: Seq<char>)
    requires
        !has_char(front, sep),
    ensures
        cut(front + seq![sep] + back, sep) == Some((front, back)),
        cut(front, sep) is None,
{
    assert(front + seq![sep] + back == front.push(sep) + back);
    lemma_cut_at(front, sep, back);
    lemma_first_index_bounds(front, sep);
    let i = first_index(front, sep);
    if i < front.len() {
        assert(front[i] == sep);
    }
}

/// A text is split at every separator.
pub proof fn law_splitting(front: Seq<char>, sep: char, back: Seq<char>)
    requires
        !has_char(front, sep),
    ensures
        pieces(front, sep) == seq![front],
        pieces(front + seq![sep] + back, sep) == seq![front] + pieces(back, sep),
{
    let s = front + seq![sep] + back;
    lemma_pieces_one(front, sep);
    assert forall|k: int| 0 <= k < front.len() implies #[trigger] s[k] != sep by {
        assert(s[k] == front[k]);
    }
    lemma_first_index_at(s, sep, front.len() as int);
    assert(s.take(front.len() as int) == front);
    assert(s.skip(front.len() as int + 1) == back);
}

/// A line ends at a line feed, with or without a carriage return before it; the last line need not
/// be ended, and nothing is no line.
pub proof fn law_line_ends(line: Seq<char>, rest: Seq<char>)
    requires
        !has_char(line, '\n'),
        line.len() == 0 || line.last() != '\r',
    ensures
        lines_of(line + seq!['\n'] + rest) == seq![line] + lines_of(rest),
        lines_of(line + seq!['\r', '\n'] + rest) == seq![line] + lines_of(rest),
        lines_of(line) == if line.len() == 0 {
            Seq::<Seq<char>>::empty()
        } else {
            seq![line]
        },
{
    let a = line + seq!['\n'] + rest;
    assert forall|k: int| 0 <= k < line.len() implies #[trigger] a[k] != '\n' by {
        assert(a[k] == line[k]);
    }
    lemma_first_index_at(a, '\n', line.len() as int);
    assert(a.take(line.len() as int) == line);
    assert(a.skip(line.len() as int + 1) == rest);
    let b = line + seq!['\r', '\n'] + rest;
    let n = line.len() as int + 1;
    assert forall|k: int| 0 <= k < n implies #[trigger] b[k] != '\n' by {
        if k < line.len() {
            assert(b[k] == line[k]);
        }
    }
    lemma_first_index_at(b, '\n', n);
    assert(b.take(n) == line.push('\r'));
    assert(line.push('\r').drop_last() == line);
    assert(b.skip(n + 1) == rest);
    lemma_first_index_at(line, '\n', line.len() as int);
}

/// A word ends at white space or at the end of the text, and what stands before it is skipped.
pub proof fn law_words(before: Seq<char>, word: Seq<char>, rest: Seq<char>)
    requires
        is_blank(before),
        word.len() > 0,
        forall|i: int| 0 <= i < word.len() ==> !is_white_space(#[trigger] word[i]),
        rest.len() == 0 || is_white_space(rest[0]),
    ensures
        words_of(before + word + rest) == seq![word] + words_of(rest),
        words_of(before).len() == 0,
{
    let s = before + word + rest;
    let i = before.len() as int;
    assert forall|k: int| 0 <= k < i implies is_white_space(#[trigger] s[k]) by {
        assert(s[k] == before[k]);
    }
    assert(s[i] == word[0]);
    lemma_trimmed_start_at(s, i);
    let t = s.skip(i);
    assert(t == word + rest);
    assert forall|k: int| 0 <= k < word.len() implies !is_white_space(#[trigger] t[k]) by {
        assert(t[k] == word[k]);
    }
    if rest.len() > 0 {
        assert(t[word.len() as int] == rest[0]);
    }
    lemma_word_end_at(t, word.len() as int);
    assert(t.take(word.len() as int) == word);
    assert(t.skip(word.len() as int) == rest);
    lemma_trimmed_start_at(before, i);
    assert(before.skip(i) == Seq::<char>::empty());
}

/// The first occurrence is replaced, and then those behind it; a text without any stays as it is.
pub proof fn law_replacing(s: Seq<char>, from: Seq<char>, to: Seq<char>)
    requires
        from.len() > 0,
    ensures
        replaced(s, from, to) == match text_index(s, from) {
            Some(i) => s.take(i) + to + replaced(s.skip(i + from.len()), from, to),
            None => s,
        },
    decreases s.len(),
{
    lemma_text_index(s, from);
    if s.len() > 0 {
        if starts_with(s, from) {
            assert(s.take(0) + to == to);
        } else {
            let rest = s.drop_first();
            law_replacing(rest, from, to);
            lemma_text_index(rest, from);
            match text_index(rest, from) {
                Some(i) => {
                    assert(rest.skip(i + from.len()) == s.skip(i + 1 + from.len()));
                    assert(seq![s[0]] + (rest.take(i) + to + replaced(
                        rest.skip(i + from.len()),
                        from,
                        to,
                    )) == s.take(i + 1) + to + replaced(s.skip(i + 1 + from.len()), from, to));
                },
                None => {
                    assert(seq![s[0]] + rest == s);
                },
            }
        }
    }
}

/// Where a text is found, it stands, and it stands nowhere before; and it is found if it stands
/// anywhere.
pub proof fn law_finding(s: Seq<char>, part: Seq<char>)
    ensures
        text_index(s, part) matches Some(i) ==> 0 <= i <= s.len() - part.len() && s.subrange(
            i,
            i + part.len(),
        ) == part,
        forall|i: int|
            0 <= i <= s.len() - part.len() && #[trigger] s.subrange(i, i + part.len()) == part
                ==> text_index(s, part) is Some && text_index(s, part)->0 <= i,
    decreases s.len(),
{
    if starts_with(s, part) {
        assert(s.subrange(0, part.len() as int) == s.take(part.len() as int));
    } else {
        if s.len() > 0 {
            let rest = s.drop_first();
            law_finding(rest, part);
            assert forall|i: int|
                0 <= i <= s.len() - part.len() && #[trigger] s.subrange(i, i + part.len())
                    == part implies text_index(s, part) is Some && text_index(s, part)->0 <= i by {
                if i == 0 {
                    assert(s.subrange(0, part.len() as int) == s.take(part.len() as int));
                } else {
                    assert(rest.subrange(i - 1, i - 1 + part.len()) == s.subrange(
                        i,
                        i + part.len(),
                    ));
                }
            }
            if let Some(i) = text_index(rest, part) {
                assert(s.subrange(i + 1, i + 1 + part.len()) == rest.subrange(i, i + part.len()));
            }
        } else {
            assert forall|i: int|
                0 <= i <= s.len() - part.len() && #[trigger] s.subrange(i, i + part.len())
                    == part implies text_index(s, part) is Some && text_index(s, part)->0 <= i by {
                assert(s.take(part.len() as int) == part);
            }
        }
    }
}

/// Each line has a line feed behind it, and items are written one behind the other.
pub proof fn law_writing<A>(
    ls: Seq<Seq<char>>,
    line: Seq<char>,
    items: Seq<A>,
    item: A,
    f: spec_fn(A) -> Seq<Seq<char>>,
)
    ensures
        unlines(Seq::<Seq<char>>::empty()).len() == 0,
        unlines(ls.push(line)) == unlines(ls) + line + seq!['\n'],
        each(Seq::<A>::empty(), f).len() == 0,
        each(items.push(item), f) == each(items, f) + f(item),
{
    assert(ls.push(line).drop_last() == ls);
    assert(unlines(ls) + line.push('\n') == unlines(ls) + line + seq!['\n']);
    assert(items.push(item).drop_last() == items);
}

// Numbers.

pub open spec fn are_digits(s: Seq<char>) -> bool {
    forall|i: int| 0 <= i < s.len() ==> '0' <= #[trigger] s[i] <= '9'
}

proof fn lemma_digit_run(s: Seq<char>)
    ensures
        0 <= digit_run(s) <= s.len(),
        are_digits(s) <==> digit_run(s) == s.len(),
        are_digits(s.take(digit_run(s))),
        digit_run(s) < s.len() ==> !('0' <= s[digit_run(s)] <= '9'),
    decreases s.len(),
{
    if s.len() > 0 && is_ascii_digit(s[0]) {
        let t = s.drop_first();
        lemma_digit_run(t);
        let n = digit_run(t);
        assert(s.take(n + 1) == seq![s[0]] + t.take(n));
        assert forall|i: int| 0 <= i < n + 1 implies '0' <= #[trigger] s.take(n + 1)[i] <= '9' by {
            if i > 0 {
                assert(s.take(n + 1)[i] == t.take(n)[i - 1]);
            }
        }
        if are_digits(s) {
            assert forall|i: int| 0 <= i < t.len() implies '0' <= #[trigger] t[i] <= '9' by {
                assert(t[i] == s[i + 1]);
            }
        }
        if are_digits(t) {
            assert forall|i: int| 0 <= i < s.len() implies '0' <= #[trigger] s[i] <= '9' by {
                if i > 0 {
                    assert(s[i] == t[i - 1]);
                }
            }
        }
    }
}

/// A number is digits, one at least, with or without a plus sign before them, that do not stand for
/// more than 64 bits can hold; and each digit counts ten times the one behind it.
pub proof fn law_numbers(s: Seq<char>, digits: Seq<char>, last: char)
    requires
        s == digits || s == seq!['+'] + digits,
        are_digits(digits),
        '0' <= last <= '9',
    ensures
        digits.len() > 0 ==> number_of(s) == if value_of(digits) <= u64::MAX {
            Ok::<u64, NumberError>(value_of(digits) as u64)
        } else {
            Err::<u64, NumberError>(NumberError::TooLarge)
        },
        value_of(digits.push(last)) == 10 * value_of(digits) + (last as int - '0' as int),
        value_of(Seq::<char>::empty()) == 0,
{
    lemma_digit_run(digits);
    if digits.len() > 0 {
        assert('0' <= digits[0] <= '9');
        if s == seq!['+'] + digits {
            assert(s.drop_first() == digits);
        }
        assert(unsigned(s) == digits);
        assert(digits.take(digits.len() as int) == digits);
    }
    assert(digits.push(last).drop_last() == digits);
}

/// Whatever is not digits behind at most one plus sign is no number; and nothing is none.
pub proof fn law_what_is_no_number(s: Seq<char>)
    ensures
        s.len() == 0 ==> number_of(s) == Err::<u64, NumberError>(NumberError::Empty),
        number_of(s) is Ok ==> s.len() > 0 && (are_digits(s) || s.len() > 1 && s[0] == '+'
            && are_digits(s.drop_first())),
        number_of(s) == Err::<u64, NumberError>(NumberError::Empty) ==> s.len() == 0,
{
    lemma_digit_run(unsigned(s));
}

/// Where something other than a digit follows, the digits before it decide what is wrong: that they
/// are too many already, or else that it is no digit. A sign alone is no number.
pub proof fn law_wrong_digit(s: Seq<char>, digits: Seq<char>, wrong: char, rest: Seq<char>)
    requires
        s == digits + seq![wrong] + rest || s == seq!['+'] + digits + seq![wrong] + rest,
        are_digits(digits),
        !('0' <= wrong <= '9'),
        wrong != '+' || digits.len() > 0 || s == seq!['+'] + digits + seq![wrong] + rest,
    ensures
        number_of(s) == Err::<u64, NumberError>(
            if value_of(digits) > u64::MAX {
                NumberError::TooLarge
            } else {
                NumberError::InvalidDigit
            },
        ),
        number_of(seq!['+']) == Err::<u64, NumberError>(NumberError::InvalidDigit),
{
    let body = digits + seq![wrong] + rest;
    if s == seq!['+'] + digits + seq![wrong] + rest {
        assert(s.drop_first() == body);
    } else {
        if digits.len() > 0 {
            assert('0' <= digits[0] <= '9');
            assert(s[0] == digits[0]);
        }
    }
    assert(unsigned(s) == body);
    lemma_digit_run(body);
    let n = digit_run(body);
    assert(body[digits.len() as int] == wrong);
    if n < digits.len() {
        assert(body[n] == digits[n]);
    } else if n > digits.len() {
        assert(body.take(n)[digits.len() as int] == wrong);
    }
    assert(body.take(n) == digits);
    let plus = seq!['+'];
    assert(plus.drop_first() == Seq::<char>::empty());
    assert(Seq::<char>::empty().take(0) == Seq::<char>::empty());
}

// Values.

pub open spec fn are_letters(s: Seq<char>) -> bool {
    forall|i: int|
        0 <= i < s.len() ==> ('a' <= #[trigger] s[i] <= 'z' || 'A' <= s[i] <= 'Z')
}

/// How many seconds a unit has, and whether it is one.
pub open spec fn is_unit(unit: Seq<char>, seconds: int) -> bool {
    let word = lowered(unit);
    ||| seconds == 1 && (word.len() == 0 || word == "s"@ || word == "sec"@ || word == "secs"@)
    ||| seconds == 60 && (word == "m"@ || word == "min"@ || word == "mins"@)
    ||| seconds == 3600 && (word == "h"@ || word == "hr"@ || word == "hrs"@)
}

proof fn lemma_unit_words()
    ensures
        "m"@.len() == 1 && "h"@.len() == 1 && "s"@.len() == 1,
        "m"@ != "s"@ && "h"@ != "s"@ && "h"@ != "m"@,
        "min"@ != "sec"@ && "hr"@.len() == 2 && "min"@.len() == 3 && "sec"@.len() == 3,
        "mins"@ != "secs"@ && "mins"@.len() == 4 && "secs"@.len() == 4 && "hrs"@.len() == 3,
        "hrs"@ != "sec"@ && "hrs"@ != "min"@,
{
    reveal_strlit("s");
    reveal_strlit("m");
    reveal_strlit("h");
    reveal_strlit("sec");
    reveal_strlit("min");
    reveal_strlit("hr");
    reveal_strlit("secs");
    reveal_strlit("mins");
    reveal_strlit("hrs");
    assert("m"@[0] == 'm' && "s"@[0] == 's' && "h"@[0] == 'h');
    assert("min"@[0] == 'm' && "sec"@[0] == 's' && "hrs"@[0] == 'h');
    assert("mins"@[0] == 'm' && "secs"@[0] == 's');
}

/// A duration is a number and, in letters of any size, a unit: seconds, minutes or hours, without
/// one seconds. It is kept as it was written, without the white space around it.
pub proof fn law_durations(
    before: Seq<char>,
    amount: Seq<char>,
    unit: Seq<char>,
    after: Seq<char>,
    seconds: int,
)
    requires
        is_blank(before),
        is_blank(after),
        number_of(amount) is Ok,
        are_letters(unit),
    ensures
        ({
            let s = before + (amount + unit) + after;
            let total = number_of(amount)->Ok_0 * seconds;
            &&& is_unit(unit, seconds) && total <= u64::MAX ==> duration_of(s) == Ok::<
                DurationView,
                Stop,
            >(DurationView { raw: amount + unit, seconds: total as u64 })
            &&& is_unit(unit, seconds) && total > u64::MAX ==> duration_of(s) == Err::<
                DurationView,
                Stop,
            >(Stop::Overflow)
            &&& !is_unit(unit, 1) && !is_unit(unit, 60) && !is_unit(unit, 3600) ==> duration_of(s)
                == Err::<DurationView, Stop>(
                Stop::Wrong(ErrorView::UnknownUnit { duration: amount + unit }),
            )
        }),
{
    let raw = amount + unit;
    lemma_unit_words();
    lemma_digit_run(unsigned(amount));
    let n = amount.len() as int;
    assert(n > 0);
    assert('0' <= amount[n - 1] <= '9') by {
        assert(unsigned(amount).last() == amount[n - 1]);
        assert(are_digits(unsigned(amount)));
        let k = unsigned(amount).len() - 1;
        assert('0' <= unsigned(amount)[k] <= '9');
    }
    assert('0' <= amount[0] <= '9' || amount[0] == '+') by {
        if amount[0] != '+' {
            assert(unsigned(amount) == amount);
        }
    }
    assert(raw[0] == amount[0]);
    if unit.len() > 0 {
        assert(raw.last() == unit[unit.len() - 1]);
    } else {
        assert(raw == amount);
    }
    law_trimming(before, raw, after);
    lemma_letters_off(amount, unit);
    assert(raw.skip(n) == unit);
}

/// What stands before the letters at the end must be a number; what is wrong with it is what is
/// wrong with the duration.
pub proof fn law_duration_without_number(
    before: Seq<char>,
    amount: Seq<char>,
    unit: Seq<char>,
    after: Seq<char>,
)
    requires
        is_blank(before),
        is_blank(after),
        are_letters(unit),
        amount.len() > 0 ==> !is_ascii_letter(amount.last()) && !is_white_space(amount[0]),
        amount.len() > 0 && unit.len() == 0 ==> !is_white_space(amount.last()),
        number_of(amount) is Err,
    ensures
        duration_of(before + (amount + unit) + after) == Err::<DurationView, Stop>(
            Stop::Wrong(ErrorView::Number { error: number_of(amount)->Err_0 }),
        ),
{
    let raw = amount + unit;
    if raw.len() > 0 {
        if amount.len() > 0 {
            assert(raw[0] == amount[0]);
        } else {
            assert(raw[0] == unit[0]);
        }
        if unit.len() > 0 {
            assert(raw.last() == unit[unit.len() - 1]);
        } else {
            assert(raw == amount);
        }
    }
    law_trimming(before, raw, after);
    if amount.len() > 0 {
        lemma_letters_off(amount, unit);
    } else {
        assert(raw == unit);
        lemma_all_letters_off(unit);
        assert(amount == Seq::<char>::empty());
    }
}

proof fn lemma_all_letters_off(letters: Seq<char>)
    requires
        are_letters(letters),
    ensures
        without_letters(letters) == Seq::<char>::empty(),
    decreases letters.len(),
{
    if letters.len() > 0 {
        let rest = letters.drop_last();
        assert(letters.last() == letters[letters.len() - 1]);
        assert forall|i: int| 0 <= i < rest.len() implies ('a' <= #[trigger] rest[i] <= 'z' || 'A'
            <= rest[i] <= 'Z') by {
            assert(rest[i] == letters[i]);
        }
        lemma_all_letters_off(rest);
    } else {
        assert(letters == Seq::<char>::empty());
    }
}

proof fn lemma_letters_off(front: Seq<char>, letters: Seq<char>)
    requires
        front.len() > 0,
        !is_ascii_letter(front.last()),
        are_letters(letters),
    ensures
        without_letters(front + letters) == front,
    decreases letters.len(),
{
    let s = front + letters;
    if letters.len() > 0 {
        let rest = letters.drop_last();
        assert(s.drop_last() == front + rest);
        assert(s.last() == letters[letters.len() - 1]);
        assert forall|i: int| 0 <= i < rest.len() implies ('a' <= #[trigger] rest[i] <= 'z' || 'A'
            <= rest[i] <= 'Z') by {
            assert(rest[i] == letters[i]);
        }
        lemma_letters_off(front, rest);
    } else {
        assert(s == front);
    }
}

/// Truth has three names, and so has its contrary; anything else is refused as it was written.
pub proof fn law_truth_values(value: Seq<char>)
    ensures
        bool_of(value) == Ok::<bool, ErrorView>(true) <==> is_true_word(value),
        bool_of(value) == Ok::<bool, ErrorView>(false) <==> is_false_word(value),
        bool_of(value) matches Err(error) ==> error == (ErrorView::InvalidBool { value }),
{
    crate::words::lemma_bools();
    reveal_strlit("true");
    reveal_strlit("yes");
    reveal_strlit("1");
    reveal_strlit("false");
    reveal_strlit("no");
    reveal_strlit("0");
    assert("1"@[0] == '1' && "0"@[0] == '0');
    assert("true"@.len() == 4 && "yes"@.len() == 3 && "false"@.len() == 5 && "no"@.len() == 2);
}

/// The commands on both sides of a semicolon come one after the other.
pub proof fn law_commands_join(front: Seq<char>, back: Seq<char>)
    requires
        !has_char(front, ';'),
    ensures
        commands_of(front + seq![';'] + back) == match (commands_of(front), commands_of(back)) {
            (Ok(a), Ok(b)) => Ok::<Seq<TextCommandView>, ErrorView>(a + b),
            (Err(error), _) => Err(error),
            (_, Err(error)) => Err(error),
        },
{
    let none = Seq::<TextCommandView>::empty();
    law_splitting(front, ';', back);
    lemma_fold_concat(none, seq![front], pieces(back, ';'), command_step());
    if let Ok(a) = commands_of(front) {
        lemma_commands_after(a, pieces(back, ';'));
    }
}

proof fn lemma_commands_after(a: Seq<TextCommandView>, ps: Seq<Seq<char>>)
    ensures
        fold(a, ps, command_step()) == match fold(
            Seq::<TextCommandView>::empty(),
            ps,
            command_step(),
        ) {
            Ok(b) => Ok::<Seq<TextCommandView>, ErrorView>(a + b),
            Err(error) => Err(error),
        },
    decreases ps.len(),
{
    if ps.len() > 0 {
        lemma_commands_after(a, ps.drop_last());
        if let Ok(b) = fold(Seq::<TextCommandView>::empty(), ps.drop_last(), command_step()) {
            if let Ok(command) = command_of(trimmed(ps.last())) {
                assert(a + b.push(command) == (a + b).push(command));
            }
        }
    } else {
        assert(a + Seq::<TextCommandView>::empty() == a);
    }
}

/// One text command is its kind, in letters of any size, a colon, and its value, with white space
/// around them or not; a blank text is none.
pub proof fn law_one_command(
    before: Seq<char>,
    kind: Seq<char>,
    value: Seq<char>,
    after: Seq<char>,
)
    requires
        is_blank(before),
        is_blank(after),
        kind.len() > 0 && !is_white_space(kind[0]),
        value.len() > 0 ==> !is_white_space(value.last()),
        !has_char(kind, ':'),
        !has_char(before + (kind + seq![':'] + value) + after, ';'),
        !has_char(before, ';'),
    ensures
        ({
            let read = commands_of(before + (kind + seq![':'] + value) + after);
            let word = lowered(trimmed(kind));
            &&& word == "type"@ ==> read == Ok::<Seq<TextCommandView>, ErrorView>(
                seq![TextCommandView::Type(trimmed(value))],
            )
            &&& word == "type_env"@ ==> read == Ok::<Seq<TextCommandView>, ErrorView>(
                seq![TextCommandView::TypeEnv(trimmed(value))],
            )
            &&& word == "key"@ ==> read == Ok::<Seq<TextCommandView>, ErrorView>(
                seq![TextCommandView::Key(trimmed(value))],
            )
            &&& word == "wait"@ ==> read == match number_of(trimmed(value)) {
                Ok(seconds) => Ok::<Seq<TextCommandView>, ErrorView>(
                    seq![TextCommandView::Wait(seconds)],
                ),
                Err(error) => Err(ErrorView::Number { error }),
            }
            &&& word != "type"@ && word != "type_env"@ && word != "key"@ && word != "wait"@
                ==> read == Err::<Seq<TextCommandView>, ErrorView>(
                ErrorView::UnknownCommand { kind },
            )
        }),
        commands_of(before) == Ok::<Seq<TextCommandView>, ErrorView>(seq![]),
{
    crate::words::lemma_commands();
    let none = Seq::<TextCommandView>::empty();
    let segment = kind + seq![':'] + value;
    let s = before + segment + after;
    assert(segment[0] == kind[0]);
    if value.len() > 0 {
        assert(segment.last() == value.last());
    } else {
        assert(segment.last() == ':');
    }
    law_trimming(before, segment, after);
    law_cutting(kind, ':', value);
    lemma_pieces_one(s, ';');
    assert(seq![s].drop_last() == Seq::<Seq<char>>::empty());
    assert(fold(none, seq![s].drop_last(), command_step()) == Ok::<
        Seq<TextCommandView>,
        ErrorView,
    >(none));
    assert(fold(none, seq![s], command_step()) == command_step()(none, s));
    assert(forall|c: TextCommandView| #[trigger] none.push(c) == seq![c]);
    lemma_pieces_one(before, ';');
    assert(seq![before].drop_last() == Seq::<Seq<char>>::empty());
    assert(fold(none, seq![before].drop_last(), command_step()) == Ok::<
        Seq<TextCommandView>,
        ErrorView,
    >(none));
    assert(fold(none, seq![before], command_step()) == command_step()(none, before));
    law_trimming(before, seq![], seq![]);
    assert(before + Seq::<char>::empty() + Seq::<char>::empty() == before);
}

/// A segment that is not blank and has no colon is refused as it is, without the white space
/// around it.
pub proof fn law_segment_without_colon(before: Seq<char>, segment: Seq<char>, after: Seq<char>)
    requires
        is_blank(before),
        is_blank(after),
        segment.len() > 0,
        !is_white_space(segment[0]),
        !is_white_space(segment.last()),
        !has_char(segment, ':'),
        !has_char(before + segment + after, ';'),
    ensures
        commands_of(before + segment + after) == Err::<Seq<TextCommandView>, ErrorView>(
            ErrorView::CommandWithoutKind { segment },
        ),
{
    let none = Seq::<TextCommandView>::empty();
    let s = before + segment + after;
    law_trimming(before, segment, after);
    law_cutting(segment, ':', seq![]);
    lemma_pieces_one(s, ';');
    assert(seq![s].drop_last() == Seq::<Seq<char>>::empty());
    assert(fold(none, seq![s].drop_last(), command_step()) == Ok::<
        Seq<TextCommandView>,
        ErrorView,
    >(none));
    assert(fold(none, seq![s], command_step()) == command_step()(none, s));
}

} // verus!
