//! The values in a config's text: durations, truth values and text commands.
use crate::config::{DurationSpec, DurationView, TextCommand, TextCommandView};
use crate::error::{outcome, Error, ErrorView};
use crate::fold::{fold, lemma_fold_all, lemma_fold_error, lemma_fold_step};
use crate::number::{number_of, parse_u64};
use crate::text::{
    ascii_letter, chars_of, cut, is_ascii_letter, lowered, pieces, same, split, split_once,
    substring, to_lower, trim, trimmed,
};
use vstd::prelude::*;

verus! {

// Durations.

/// `s` without the ASCII letters at its end.
pub open spec fn without_letters(s: Seq<char>) -> Seq<char>
    decreases s.len(),
{
    if s.len() > 0 && is_ascii_letter(s.last()) {
        without_letters(s.drop_last())
    } else {
        s
    }
}

/// The seconds in a unit of time.
pub open spec fn unit_seconds(unit: Seq<char>) -> Option<u64> {
    if unit.len() == 0 || unit == "s"@ || unit == "sec"@ || unit == "secs"@ {
        Some(1)
    } else if unit == "m"@ || unit == "min"@ || unit == "mins"@ {
        Some(60)
    } else if unit == "h"@ || unit == "hr"@ || unit == "hrs"@ {
        Some(3600)
    } else {
        None
    }
}

/// Why reading ends early.
#[verifier::ext_equal]
pub enum Stop {
    /// The text is wrong.
    Wrong(ErrorView),
    /// A duration has more seconds than 64 bits can count.
    Overflow,
}

/// The duration that `s` stands for: a number, then a unit of time in letters.
pub open spec fn duration_of(s: Seq<char>) -> Result<DurationView, Stop> {
    let raw = trimmed(s);
    let digits = without_letters(raw);
    match number_of(digits) {
        Err(error) => Err(Stop::Wrong(ErrorView::Number { error })),
        Ok(amount) => match unit_seconds(lowered(raw.skip(digits.len() as int))) {
            None => Err(Stop::Wrong(ErrorView::UnknownUnit { duration: raw })),
            Some(seconds) => if amount * seconds > u64::MAX {
                Err(Stop::Overflow)
            } else {
                Ok(DurationView { raw, seconds: (amount * seconds) as u64 })
            },
        },
    }
}

/// A result that may be missing because a duration had too many seconds.
pub open spec fn checked_outcome<T: DeepView>(r: Option<Result<T, Error>>) -> Result<T::V, Stop> {
    match r {
        None => Err(Stop::Overflow),
        Some(Ok(value)) => Ok(value.deep_view()),
        Some(Err(error)) => Err(Stop::Wrong(error.deep_view())),
    }
}

/// The same result where it is known that no duration had too many seconds.
pub open spec fn stopped<V>(r: Result<V, ErrorView>) -> Result<V, Stop> {
    match r {
        Ok(value) => Ok(value),
        Err(error) => Err(Stop::Wrong(error)),
    }
}

proof fn lemma_without_letters_at(s: Seq<char>, j: int)
    requires
        0 <= j <= s.len(),
        forall|k: int| j <= k < s.len() ==> is_ascii_letter(#[trigger] s[k]),
        j > 0 ==> !is_ascii_letter(s[j - 1]),
    ensures
        without_letters(s) == s.take(j),
    decreases s.len() - j,
{
    if j < s.len() {
        lemma_without_letters_at(s.drop_last(), j);
        assert(s.drop_last().take(j) == s.take(j));
    } else {
        assert(s.take(j) == s);
    }
}

/// Reads a duration; `None` if it has more seconds than 64 bits can count.
pub fn checked_parse_duration(value: &str) -> (r: Option<Result<DurationSpec, Error>>)
    ensures
        checked_outcome(r) == duration_of(value@),
{
    let raw = trim(value);
    let cs = chars_of(&raw);
    let mut j: usize = cs.len();
    while j > 0 && ascii_letter(cs[j - 1])
        invariant
            j <= cs.len(),
            forall|k: int| j <= k < cs.len() ==> is_ascii_letter(#[trigger] cs@[k]),
        decreases j,
    {
        j -= 1;
    }
    let digits = substring(&cs, 0, j);
    let unit = to_lower(&substring(&cs, j, cs.len()));
    proof {
        lemma_without_letters_at(cs@, j as int);
        assert(cs@.subrange(0, j as int) == cs@.take(j as int));
        assert(cs@.subrange(j as int, cs@.len() as int) == cs@.skip(j as int));
    }
    let amount: u64 = match parse_u64(&digits) {
        Ok(amount) => amount,
        Err(error) => {
            return Some(Err(Error::Number { error }));
        },
    };
    let seconds: u64 = if unit.as_str().is_empty() || same(&unit, "s") || same(&unit, "sec") || same(
        &unit,
        "secs",
    ) {
        1
    } else if same(&unit, "m") || same(&unit, "min") || same(&unit, "mins") {
        60
    } else if same(&unit, "h") || same(&unit, "hr") || same(&unit, "hrs") {
        3600
    } else {
        return Some(Err(Error::UnknownUnit { duration: raw }));
    };
    match amount.checked_mul(seconds) {
        Some(seconds) => Some(Ok(DurationSpec { raw, seconds })),
        None => None,
    }
}

/// Reads a duration.
pub fn parse_duration(value: &str) -> (r: Result<DurationSpec, Error>)
    requires
        duration_of(value@) != Err::<DurationView, Stop>(Stop::Overflow),
    ensures
        stopped(outcome(r)) == duration_of(value@),
{
    checked_parse_duration(value).unwrap()
}

// Truth values.

pub open spec fn bool_of(s: Seq<char>) -> Result<bool, ErrorView> {
    let word = lowered(s);
    if word == "true"@ || word == "yes"@ || word == "1"@ {
        Ok(true)
    } else if word == "false"@ || word == "no"@ || word == "0"@ {
        Ok(false)
    } else {
        Err(ErrorView::InvalidBool { value: s })
    }
}

pub fn parse_bool(value: &str) -> (r: Result<bool, Error>)
    ensures
        outcome(r) == bool_of(value@),
{
    let word = to_lower(value);
    if same(&word, "true") || same(&word, "yes") || same(&word, "1") {
        Ok(true)
    } else if same(&word, "false") || same(&word, "no") || same(&word, "0") {
        Ok(false)
    } else {
        Err(Error::InvalidBool { value: value.to_owned() })
    }
}

// Text commands.

/// The command that a segment without white space at its ends stands for.
pub open spec fn command_of(segment: Seq<char>) -> Result<TextCommandView, ErrorView> {
    match cut(segment, ':') {
        None => Err(ErrorView::CommandWithoutKind { segment }),
        Some((kind, payload)) => {
            let word = lowered(trimmed(kind));
            let value = trimmed(payload);
            if word == "type"@ {
                Ok(TextCommandView::Type(value))
            } else if word == "type_env"@ {
                Ok(TextCommandView::TypeEnv(value))
            } else if word == "key"@ {
                Ok(TextCommandView::Key(value))
            } else if word == "wait"@ {
                match number_of(value) {
                    Ok(seconds) => Ok(TextCommandView::Wait(seconds)),
                    Err(error) => Err(ErrorView::Number { error }),
                }
            } else {
                Err(ErrorView::UnknownCommand { kind })
            }
        },
    }
}

/// Adds the command of one piece; a blank piece has none.
pub open spec fn command_step() -> spec_fn(Seq<TextCommandView>, Seq<char>) -> Result<
    Seq<TextCommandView>,
    ErrorView,
> {
    |commands: Seq<TextCommandView>, piece: Seq<char>|
        {
            let segment = trimmed(piece);
            if segment.len() == 0 {
                Ok(commands)
            } else {
                match command_of(segment) {
                    Ok(command) => Ok(commands.push(command)),
                    Err(error) => Err(error),
                }
            }
        }
}

/// The commands of a text, one between each two semicolons.
pub open spec fn commands_of(s: Seq<char>) -> Result<Seq<TextCommandView>, ErrorView> {
    fold(Seq::<TextCommandView>::empty(), pieces(s, ';'), command_step())
}

fn parse_text_command(segment: &str) -> (r: Result<TextCommand, Error>)
    ensures
        outcome(r) == command_of(segment@),
{
    match split_once(segment, ':') {
        None => Err(Error::CommandWithoutKind { segment: segment.to_owned() }),
        Some((kind, payload)) => {
            let word = to_lower(&trim(&kind));
            let value = trim(&payload);
            if same(&word, "type") {
                Ok(TextCommand::Type(value))
            } else if same(&word, "type_env") {
                Ok(TextCommand::TypeEnv(value))
            } else if same(&word, "key") {
                Ok(TextCommand::Key(value))
            } else if same(&word, "wait") {
                match parse_u64(&value) {
                    Ok(seconds) => Ok(TextCommand::Wait(seconds)),
                    Err(error) => Err(Error::Number { error }),
                }
            } else {
                Err(Error::UnknownCommand { kind })
            }
        },
    }
}

pub fn parse_text_commands(value: &str) -> (r: Result<Vec<TextCommand>, Error>)
    ensures
        outcome(r) == commands_of(value@),
{
    let parts = split(value, ';');
    let ghost ps = pieces(value@, ';');
    let ghost start = Seq::<TextCommandView>::empty();
    let mut commands: Vec<TextCommand> = Vec::new();
    assert(commands.deep_view() == start);
    for i in 0..parts.len()
        invariant
            parts.deep_view() == ps,
            start == Seq::<TextCommandView>::empty(),
            ps == pieces(value@, ';'),
            fold(start, ps.take(i as int), command_step()) == Ok::<Seq<TextCommandView>, ErrorView>(
                commands.deep_view(),
            ),
    {
        let segment = trim(&parts[i]);
        assert(ps[i as int] == parts@[i as int]@);
        proof {
            lemma_fold_step(start, ps, i as int, command_step());
        }
        if !segment.as_str().is_empty() {
            let ghost before = commands;
            match parse_text_command(&segment) {
                Ok(command) => {
                    commands.push(command);
                    assert(commands.deep_view() == before.deep_view().push(command.deep_view()));
                },
                Err(error) => {
                    proof {
                        lemma_fold_error(start, ps, i + 1, command_step());
                    }
                    return Err(error);
                },
            }
        }
    }
    proof {
        lemma_fold_all(start, ps, command_step());
    }
    Ok(commands)
}

} // verus!
