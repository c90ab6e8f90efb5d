//! Text as a POSIX shell takes it: quoting, and names that are safe in files and variables.
use crate::error::{outcome, Error, ErrorView};
use crate::text::{
    ascii_alphanumeric, ascii_letter, chars_of, first_index, is_ascii_alphanumeric,
    is_ascii_letter, lemma_first_index_at, lemma_first_index_bounds, replace, replaced,
};
use vstd::prelude::*;

verus! {

/// What stands for a single quote inside single quotes: the quotes are closed, a single quote
/// in double quotes follows, and the quotes are opened again.
pub open spec fn quote_escape() -> Seq<char> {
    seq!['\'', '"', '\'', '"', '\'']
}

/// `value` in single quotes.
pub open spec fn quoted(value: Seq<char>) -> Seq<char> {
    seq!['\''] + replaced(value, seq!['\''], quote_escape()) + seq!['\'']
}

pub fn shell_quote(value: &str) -> (s: String)
    ensures
        s@ == quoted(value@),
{
    proof {
        reveal_strlit("'");
        reveal_strlit("'\"'\"'");
        assert("'"@ == seq!['\'']);
        assert("'\"'\"'"@ == quote_escape());
    }
    "'".to_owned().concat(&replace(value, "'", "'\"'\"'")).concat("'")
}

/// A character that means itself to a shell without quotes.
pub open spec fn is_word_char(c: char) -> bool {
    is_ascii_alphanumeric(c) || c == '/' || c == '.' || c == '_' || c == '-' || c == ':' || c == '='
        || c == '@' || c == '+'
}

pub open spec fn is_plain_word(value: Seq<char>) -> bool {
    forall|i: int| 0 <= i < value.len() ==> is_word_char(#[trigger] value[i])
}

/// `value` in quotes if it needs them.
pub open spec fn worded(value: Seq<char>) -> Seq<char> {
    if is_plain_word(value) {
        value
    } else {
        quoted(value)
    }
}

pub fn shell_word(value: &str) -> (s: String)
    ensures
        s@ == worded(value@),
{
    let cs = chars_of(value);
    for i in 0..cs.len()
        invariant
            cs@ == value@,
            forall|k: int| 0 <= k < i ==> is_word_char(#[trigger] value@[k]),
    {
        let c = cs[i];
        if !(ascii_alphanumeric(c) || c == '/' || c == '.' || c == '_' || c == '-' || c == ':' || c
            == '=' || c == '@' || c == '+') {
            assert(!is_word_char(value@[i as int]));
            return shell_quote(value);
        }
    }
    value.to_owned()
}

pub open spec fn file_safe_char(c: char) -> char {
    if is_ascii_alphanumeric(c) {
        c
    } else {
        '-'
    }
}

/// `value` with a hyphen in place of everything but ASCII letters and digits.
pub open spec fn file_safe_text(value: Seq<char>) -> Seq<char> {
    Seq::new(value.len(), |i: int| file_safe_char(value[i]))
}

pub fn file_safe(value: &str) -> (s: String)
    ensures
        s@ == file_safe_text(value@),
{
    let cs = chars_of(value);
    let mut s = String::new();
    for i in 0..cs.len()
        invariant
            cs@ == value@,
            s@ == file_safe_text(value@.take(i as int)),
    {
        s.push(
            if ascii_alphanumeric(cs[i]) {
                cs[i]
            } else {
                '-'
            },
        );
        assert(file_safe_text(value@.take(i + 1)) == file_safe_text(value@.take(i as int)).push(
            file_safe_char(value@[i as int]),
        ));
    }
    assert(value@.take(value@.len() as int) == value@);
    s
}

/// A name that a shell variable can have.
pub open spec fn is_variable_name(name: Seq<char>) -> bool {
    &&& name.len() > 0
    &&& name[0] == '_' || is_ascii_letter(name[0])
    &&& forall|i: int|
        1 <= i < name.len() ==> (#[trigger] name[i]) == '_' || is_ascii_alphanumeric(name[i])
}

pub open spec fn variable_check(name: Seq<char>) -> Result<(), ErrorView> {
    if name.len() == 0 {
        Err(ErrorView::EmptyVariableName)
    } else if !is_variable_name(name) {
        Err(ErrorView::InvalidVariableName { name })
    } else {
        Ok(())
    }
}

pub fn validate_env_name(name: &str) -> (r: Result<(), Error>)
    ensures
        outcome(r) == variable_check(name@),
{
    let cs = chars_of(name);
    if cs.len() == 0 {
        return Err(Error::EmptyVariableName);
    }
    if !(cs[0] == '_' || ascii_letter(cs[0])) {
        return Err(Error::InvalidVariableName { name: name.to_owned() });
    }
    for i in 1..cs.len()
        invariant
            cs@ == name@,
            cs.len() > 0,
            name@[0] == '_' || is_ascii_letter(name@[0]),
            forall|k: int|
                1 <= k < i ==> (#[trigger] name@[k]) == '_' || is_ascii_alphanumeric(name@[k]),
    {
        if !(cs[i] == '_' || ascii_alphanumeric(cs[i])) {
            assert(!(name@[i as int] == '_' || is_ascii_alphanumeric(name@[i as int])));
            return Err(Error::InvalidVariableName { name: name.to_owned() });
        }
    }
    Ok(())
}

// How a shell reads what was quoted.

/// A character that a shell acts on inside double quotes.
pub open spec fn is_expanded(c: char) -> bool {
    c == '$' || c == '`' || c == '\\'
}

/// The value of what is left of a word made of parts in single quotes, parts in double quotes with
/// nothing to expand, and plain characters; `None` of anything else.
pub open spec fn parts_value(word: Seq<char>) -> Option<Seq<char>>
    decreases word.len(),
    via parts_value_decreases
{
    if word.len() == 0 {
        Some(seq![])
    } else if word[0] == '\'' || word[0] == '"' {
        let rest = word.drop_first();
        let end = first_index(rest, word[0]);
        let part = rest.take(end);
        if end == rest.len() {
            None
        } else if word[0] == '"' && exists|i: int|
            0 <= i < part.len() && is_expanded(#[trigger] part[i]) {
            None
        } else {
            match parts_value(rest.skip(end + 1)) {
                Some(value) => Some(part + value),
                None => None,
            }
        }
    } else if is_word_char(word[0]) {
        match parts_value(word.drop_first()) {
            Some(value) => Some(seq![word[0]] + value),
            None => None,
        }
    } else {
        None
    }
}

/// The value that a POSIX shell gives to a word, if it can be told. The word must not stand where a
/// command begins: there `a=b` is an assignment. Where nothing is written there is no word.
pub open spec fn shell_value(word: Seq<char>) -> Option<Seq<char>> {
    if word.len() == 0 {
        None
    } else {
        parts_value(word)
    }
}

#[via_fn]
proof fn parts_value_decreases(word: Seq<char>) {
    if word.len() > 0 {
        lemma_first_index_bounds(word.drop_first(), word[0]);
    }
}

/// Up to its first single quote a text is replaced by itself.
proof fn lemma_quote_escaped(value: Seq<char>)
    ensures
        ({
            let i = first_index(value, '\'');
            replaced(value, seq!['\''], quote_escape()) == if i < value.len() {
                value.take(i) + (quote_escape() + replaced(
                    value.skip(i + 1),
                    seq!['\''],
                    quote_escape(),
                ))
            } else {
                value
            }
        }),
    decreases value.len(),
{
    let q = seq!['\''];
    lemma_first_index_bounds(value, '\'');
    if value.len() > 0 {
        assert(value.take(1) == q <==> value[0] == '\'') by {
            if value[0] == '\'' {
                assert(value.take(1) == q);
            } else {
                assert(value.take(1)[0] == value[0]);
            }
        }
        if value[0] == '\'' {
            assert(value.take(0) + (quote_escape() + replaced(value.skip(1), q, quote_escape()))
                == quote_escape() + replaced(value.skip(1), q, quote_escape()));
        } else {
            let t = value.drop_first();
            lemma_quote_escaped(t);
            let i = first_index(t, '\'');
            lemma_first_index_bounds(t, '\'');
            if i < t.len() {
                assert(t.skip(i + 1) == value.skip(i + 2));
                let tail = quote_escape() + replaced(value.skip(i + 2), q, quote_escape());
                assert(seq![value[0]] + (t.take(i) + tail) == value.take(i + 1) + tail);
            } else {
                assert(seq![value[0]] + t == value);
            }
        }
    }
}

proof fn lemma_quoted_value(value: Seq<char>)
    ensures
        parts_value(quoted(value)) == Some(value),
        quoted(value).len() > 0,
    decreases value.len(),
{
    let i = first_index(value, '\'');
    lemma_first_index_bounds(value, '\'');
    lemma_quote_escaped(value);
    let word = quoted(value);
    assert(word[0] == '\'');
    let rest = word.drop_first();
    let part = value.take(i);
    if i < value.len() {
        let after = value.skip(i + 1);
        lemma_quoted_value(after);
        let tail = quoted(after);
        let middle = seq!['"', '\'', '"'] + tail;
        // the word is: ' part ' " ' " tail
        assert(rest == part + (seq!['\''] + middle));
        assert forall|k: int| 0 <= k < i implies #[trigger] rest[k] != '\'' by {
            assert(rest[k] == value[k]);
        }
        assert(rest[i] == '\'');
        lemma_first_index_at(rest, '\'', i);
        assert(rest.take(i) == part);
        assert(rest.skip(i + 1) == middle);
        let inner = middle.drop_first();
        assert(inner[0] == '\'' && inner[1] == '"');
        lemma_first_index_at(inner, '"', 1);
        assert(inner.take(1) == seq!['\'']);
        assert(inner.skip(2) == tail);
        assert(parts_value(middle) == Some(seq!['\''] + after));
        assert(part + (seq!['\''] + after) == value);
        assert(parts_value(word) == Some(value));
    } else {
        assert(part == value);
        assert(rest == value + seq!['\'']);
        assert forall|k: int| 0 <= k < i implies #[trigger] rest[k] != '\'' by {
            assert(rest[k] == value[k]);
        }
        lemma_first_index_at(rest, '\'', i);
        assert(rest.take(i) == value);
        assert(rest.skip(i + 1) == Seq::<char>::empty());
        assert(parts_value(Seq::<char>::empty()) == Some(Seq::<char>::empty()));
        assert(value + Seq::<char>::empty() == value);
        assert(parts_value(word) == Some(value));
    }
}

/// A shell reads a quoted text as the text itself, whatever it holds.
pub proof fn law_shell_reads_back_quoted(value: Seq<char>)
    ensures
        shell_value(quoted(value)) == Some(value),
{
    lemma_quoted_value(value);
}

proof fn lemma_plain_value(value: Seq<char>)
    requires
        is_plain_word(value),
    ensures
        parts_value(value) == Some(value),
    decreases value.len(),
{
    if value.len() > 0 {
        let rest = value.drop_first();
        assert forall|i: int| 0 <= i < rest.len() implies is_word_char(#[trigger] rest[i]) by {
            assert(rest[i] == value[i + 1]);
        }
        lemma_plain_value(rest);
        assert(is_word_char(value[0]));
        assert(seq![value[0]] + rest == value);
    }
}

/// A shell reads a word, where it does not begin a command, as the text that it was made from. The
/// empty text is written as nothing, which is no word.
pub proof fn law_shell_reads_back_worded(value: Seq<char>)
    ensures
        value.len() > 0 ==> shell_value(worded(value)) == Some(value),
        value.len() == 0 ==> worded(value).len() == 0 && shell_value(worded(value)) is None,
{
    if is_plain_word(value) {
        lemma_plain_value(value);
    } else {
        lemma_quoted_value(value);
    }
}

/// A name made safe for a file keeps its ASCII letters and digits, has a hyphen in place of each
/// other character, and is not changed by being made safe again.
pub proof fn law_file_safe(value: Seq<char>)
    ensures
        file_safe_text(value).len() == value.len(),
        forall|i: int|
            0 <= i < value.len() ==> is_ascii_alphanumeric(#[trigger] file_safe_text(value)[i])
                || file_safe_text(value)[i] == '-',
        forall|i: int|
            0 <= i < value.len() ==> #[trigger] file_safe_text(value)[i] == if 'a' <= value[i]
                <= 'z' || 'A' <= value[i] <= 'Z' || '0' <= value[i] <= '9' {
                value[i]
            } else {
                '-'
            },
        file_safe_text(file_safe_text(value)) == file_safe_text(value),
        is_plain_word(file_safe_text(value)),
{
}

/// A character that needs no quotes.
pub open spec fn needs_no_quotes(c: char) -> bool {
    ||| 'a' <= c <= 'z'
    ||| 'A' <= c <= 'Z'
    ||| '0' <= c <= '9'
    ||| c == '/' || c == '.' || c == '_' || c == '-' || c == ':' || c == '=' || c == '@' || c == '+'
}

/// A word stands bare if none of its characters needs quotes, and in quotes if any does. What is
/// quoted begins and ends with a single quote.
pub proof fn law_when_words_are_quoted(value: Seq<char>)
    ensures
        (forall|i: int| 0 <= i < value.len() ==> needs_no_quotes(#[trigger] value[i])) ==> worded(
            value,
        ) == value,
        (exists|i: int| 0 <= i < value.len() && !needs_no_quotes(#[trigger] value[i])) ==> worded(
            value,
        ) == quoted(value),
        quoted(value).len() >= value.len() + 2,
        quoted(value)[0] == '\'',
        quoted(value).last() == '\'',
        !(exists|i: int| 0 <= i < value.len() && #[trigger] value[i] == '\'') ==> quoted(value)
            == seq!['\''] + value + seq!['\''],
{
    assert forall|c: char| needs_no_quotes(c) <==> #[trigger] is_word_char(c) by {}
    if forall|i: int| 0 <= i < value.len() ==> needs_no_quotes(#[trigger] value[i]) {
        assert(is_plain_word(value)) by {
            assert forall|i: int| 0 <= i < value.len() implies is_word_char(#[trigger] value[i]) by {
                assert(needs_no_quotes(value[i]));
            }
        }
    }
    if exists|i: int| 0 <= i < value.len() && !needs_no_quotes(#[trigger] value[i]) {
        let i = choose|i: int| 0 <= i < value.len() && !needs_no_quotes(#[trigger] value[i]);
        assert(!is_word_char(value[i]));
    }
    lemma_quoting_lengthens(value);
    if !(exists|i: int| 0 <= i < value.len() && #[trigger] value[i] == '\'') {
        lemma_quote_escaped(value);
        lemma_first_index_bounds(value, '\'');
        let k = first_index(value, '\'');
        if k < value.len() {
            assert(value[k] == '\'');
        }
    }
}

proof fn lemma_quoting_lengthens(value: Seq<char>)
    ensures
        replaced(value, seq!['\''], quote_escape()).len() >= value.len(),
    decreases value.len(),
{
    if value.len() > 0 {
        lemma_quoting_lengthens(value.skip(1));
        lemma_quoting_lengthens(value.drop_first());
    }
}

/// A name that the shell takes for a variable: letters, digits and underscores, and no digit first.
pub open spec fn names_a_variable(name: Seq<char>) -> bool {
    &&& name.len() > 0
    &&& forall|i: int|
        0 <= i < name.len() ==> ({
            let c = #[trigger] name[i];
            'a' <= c <= 'z' || 'A' <= c <= 'Z' || c == '_' || '0' <= c <= '9' && i > 0
        })
}

/// A name is refused if it is none of a variable: an empty one as such, another by name.
pub proof fn law_variable_names(name: Seq<char>)
    ensures
        variable_check(name) is Ok <==> names_a_variable(name),
        variable_check(name) matches Err(error) ==> error == if name.len() == 0 {
            ErrorView::EmptyVariableName
        } else {
            ErrorView::InvalidVariableName { name }
        },
{
    if is_variable_name(name) {
        assert(names_a_variable(name));
    }
    if names_a_variable(name) {
        assert(name[0] == '_' || is_ascii_letter(name[0]));
        assert(is_variable_name(name));
    }
}

} // verus!
