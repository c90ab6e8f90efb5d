//! Comments and blank lines do not count.
use crate::config::ConfigView;
use crate::error::ErrorView;
use crate::facts::{has_char, lemma_lines_concat};
use crate::fold::fold;
use crate::parse::{config_of, is_comment, line_step, nothing_read, Progress};
use crate::text::{
    is_white_space, lemma_first_index_at, lines_of, trimmed, trimmed_start, without_return,
};
use crate::values::Stop;
use vstd::prelude::*;

verus! {

/// The lines that are neither comments nor blank.
pub open spec fn counted_lines(ls: Seq<Seq<char>>) -> Seq<Seq<char>> {
    ls.filter(|line: Seq<char>| !is_comment(trimmed(line)))
}

/// An error without the number of the line that it speaks of.
pub open spec fn unnumbered_error(error: ErrorView) -> ErrorView {
    match error {
        ErrorView::NotKeyValue { text, .. } => ErrorView::NotKeyValue { line: 0, text },
        ErrorView::BeforeHeader { .. } => ErrorView::BeforeHeader { line: 0 },
        _ => error,
    }
}

/// What reading a config gives, but for the number of a line in an error.
pub open spec fn unnumbered(r: Result<ConfigView, Stop>) -> Result<ConfigView, Stop> {
    match r {
        Err(Stop::Wrong(error)) => Err(Stop::Wrong(unnumbered_error(error))),
        _ => r,
    }
}

proof fn lemma_counted(a: Progress, b: Progress, ls: Seq<Seq<char>>)
    requires
        a.blocks == b.blocks,
    ensures
        match (fold(a, ls, line_step()), fold(b, counted_lines(ls), line_step())) {
            (Ok(x), Ok(y)) => x.blocks == y.blocks,
            (Err(x), Err(y)) => unnumbered_error(x) == unnumbered_error(y),
            _ => false,
        },
    decreases ls.len(),
{
    reveal(Seq::filter);
    if ls.len() > 0 {
        let front = ls.drop_last();
        lemma_counted(a, b, front);
        if !is_comment(trimmed(ls.last())) {
            assert(counted_lines(ls).drop_last() == counted_lines(front));
        }
    }
}

/// Comments and blank lines change nothing, wherever they stand and however many they are: two
/// texts with the same lines apart from those stand for the same config, or are wrong in the same
/// way, but for the number of the line that the error speaks of.
pub proof fn law_comments_are_ignored(a: Seq<char>, b: Seq<char>)
    requires
        counted_lines(lines_of(a)) == counted_lines(lines_of(b)),
    ensures
        unnumbered(config_of(a)) == unnumbered(config_of(b)),
{
    lemma_counted(nothing_read(), nothing_read(), lines_of(a));
    lemma_counted(nothing_read(), nothing_read(), lines_of(b));
}

// A line that is put in.

proof fn lemma_trimmed_start_push(s: Seq<char>, c: char)
    requires
        is_white_space(c),
    ensures
        trimmed_start(s.push(c)) == if trimmed_start(s).len() == 0 {
            Seq::<char>::empty()
        } else {
            trimmed_start(s).push(c)
        },
    decreases s.len(),
{
    if s.len() == 0 {
        assert(s.push(c).drop_first() == Seq::<char>::empty());
        assert(trimmed_start(Seq::<char>::empty()) == Seq::<char>::empty());
    } else if is_white_space(s[0]) {
        assert(s.push(c).drop_first() == s.drop_first().push(c));
        lemma_trimmed_start_push(s.drop_first(), c);
    }
}

/// White space at the end of a line is trimmed off, a carriage return too.
pub proof fn lemma_trimmed_line(raw: Seq<char>)
    ensures
        trimmed(without_return(raw)) == trimmed(raw),
{
    if raw.len() > 0 && raw.last() == '\r' {
        let front = raw.drop_last();
        assert(raw == front.push('\r'));
        lemma_trimmed_start_push(front, '\r');
        let t = trimmed_start(front);
        if t.len() > 0 {
            assert(t.push('\r').drop_last() == t);
        } else {
            assert(t == Seq::<char>::empty());
        }
    }
}

/// A comment or a blank line can be put in between any two lines.
pub proof fn law_comment_can_be_put_in(before: Seq<char>, comment: Seq<char>, after: Seq<char>)
    requires
        before.len() == 0 || before.last() == '\n',
        !has_char(comment, '\n'),
        is_comment(trimmed(comment)),
    ensures
        unnumbered(config_of(before + comment.push('\n') + after)) == unnumbered(
            config_of(before + after),
        ),
{
    let line = comment.push('\n');
    let read = without_return(comment);
    lemma_first_index_at(line, '\n', comment.len() as int);
    assert(line.take(comment.len() as int) == comment);
    assert(line.skip(comment.len() as int + 1) == Seq::<char>::empty());
    assert(lines_of(Seq::<char>::empty()) == Seq::<Seq<char>>::empty());
    assert(lines_of(line) == seq![read]);
    lemma_lines_concat(before, after);
    lemma_lines_concat(before, line);
    assert((before + line).last() == '\n');
    lemma_lines_concat(before + line, after);
    lemma_trimmed_line(comment);
    let counts = |l: Seq<char>| !is_comment(trimmed(l));
    Seq::filter_distributes_over_add(lines_of(before), lines_of(after), counts);
    Seq::filter_distributes_over_add(lines_of(before), seq![read], counts);
    Seq::filter_distributes_over_add(lines_of(before) + seq![read], lines_of(after), counts);
    assert(seq![read].filter(counts) == Seq::<Seq<char>>::empty()) by {
        reveal(Seq::filter);
        assert(seq![read].drop_last() == Seq::<Seq<char>>::empty());
        assert(seq![read].drop_last().filter(counts) == Seq::<Seq<char>>::empty());
    }
    assert(lines_of(before).filter(counts) + Seq::<Seq<char>>::empty() == lines_of(before).filter(
        counts,
    ));
    law_comments_are_ignored(before + line + after, before + after);
}

} // verus!
