//! What trimming, cutting and joining lines do to one another.
use crate::text::{
    cut, first_index, is_white_space, lemma_first_index_at, lemma_first_index_bounds,
    lemma_trimmed_start_at, lines_of, pieces, trimmed, trimmed_end, trimmed_start, unlines,
    without_return,
};
use vstd::prelude::*;

verus! {

pub open spec fn has_char(s: Seq<char>, c: char) -> bool {
    exists|i: int| 0 <= i < s.len() && #[trigger] s[i] == c
}

/// Text that fits in one line and has no white space at its ends.
pub open spec fn is_line_text(s: Seq<char>) -> bool {
    trimmed(s) == s && !has_char(s, '\n')
}

/// Text is trimmed if it has no white space at its ends, and only then.
pub proof fn lemma_trimmed_iff(s: Seq<char>)
    ensures
        trimmed(s) == s <==> (s.len() == 0 || (!is_white_space(s[0]) && !is_white_space(s.last()))),
{
    lemma_trim_range(s);
    let (i, j) = trim_range(s);
    if s.len() > 0 {
        if !is_white_space(s[0]) && !is_white_space(s.last()) {
            lemma_trimmed_start_at(s, 0);
            assert(s.skip(0) == s);
        } else if trimmed(s) == s {
            assert(s.subrange(i, j) == s);
            assert(i == 0 && j == s.len());
        }
    }
}

/// Where the trimmed text lies in the whole.
pub open spec fn trim_range(s: Seq<char>) -> (int, int) {
    let i = s.len() - trimmed_start(s).len();
    (i, i + trimmed(s).len())
}

proof fn lemma_trimmed_end_prefix(s: Seq<char>)
    ensures
        trimmed_end(s).len() <= s.len(),
        trimmed_end(s) == s.take(trimmed_end(s).len() as int),
        trimmed_end(s).len() > 0 ==> !is_white_space(trimmed_end(s).last()),
    decreases s.len(),
{
    if s.len() > 0 && is_white_space(s.last()) {
        lemma_trimmed_end_prefix(s.drop_last());
        let n = trimmed_end(s).len() as int;
        assert(s.drop_last().take(n) == s.take(n));
    } else {
        assert(s.take(s.len() as int) == s);
    }
}

proof fn lemma_trimmed_start_suffix(s: Seq<char>)
    ensures
        trimmed_start(s).len() <= s.len(),
        trimmed_start(s) == s.skip(s.len() - trimmed_start(s).len()),
        trimmed_start(s).len() > 0 ==> !is_white_space(trimmed_start(s)[0]),
    decreases s.len(),
{
    if s.len() > 0 && is_white_space(s[0]) {
        let t = s.drop_first();
        lemma_trimmed_start_suffix(t);
        let n = t.len() - trimmed_start(t).len();
        assert(t.skip(n) == s.skip(n + 1));
    } else {
        assert(s.skip(0) == s);
    }
}

/// Trimming takes a part of the text, and what it leaves has no white space at its ends.
pub proof fn lemma_trim_range(s: Seq<char>)
    ensures
        0 <= trim_range(s).0 <= trim_range(s).1 <= s.len(),
        trimmed(s) == s.subrange(trim_range(s).0, trim_range(s).1),
        trimmed(s).len() > 0 ==> !is_white_space(trimmed(s)[0]) && !is_white_space(
            trimmed(s).last(),
        ),
{
    lemma_trimmed_start_suffix(s);
    let t = trimmed_start(s);
    lemma_trimmed_end_prefix(t);
    let (i, j) = trim_range(s);
    assert(s.skip(i).take(j - i) == s.subrange(i, j));
    if trimmed(s).len() > 0 {
        assert(trimmed(s)[0] == t[0]);
    }
}

pub proof fn lemma_trimmed_twice(s: Seq<char>)
    ensures
        trimmed(trimmed(s)) == trimmed(s),
{
    lemma_trim_range(s);
    lemma_trimmed_iff(trimmed(s));
}

/// Trimming brings no new character in.
pub proof fn lemma_trimmed_chars(s: Seq<char>, c: char)
    requires
        !has_char(s, c),
    ensures
        !has_char(trimmed(s), c),
{
    lemma_trim_range(s);
    let (i, j) = trim_range(s);
    assert forall|k: int| 0 <= k < trimmed(s).len() implies #[trigger] trimmed(s)[k] != c by {
        assert(s[k + i] == trimmed(s)[k]);
    }
}

/// Text cut at a character that its front does not hold.
pub proof fn lemma_cut_at(front: Seq<char>, sep: char, back: Seq<char>)
    requires
        !has_char(front, sep),
    ensures
        cut(front.push(sep) + back, sep) == Some((front, back)),
{
    let s = front.push(sep) + back;
    assert forall|k: int| 0 <= k < front.len() implies #[trigger] s[k] != sep by {
        assert(s[k] == front[k]);
    }
    lemma_first_index_at(s, sep, front.len() as int);
    assert(s.take(front.len() as int) == front);
    assert(s.skip(front.len() as int + 1) == back);
}

pub proof fn lemma_cut_parts(s: Seq<char>, sep: char)
    requires
        cut(s, sep) is Some,
    ensures
        s == (cut(s, sep)->0).0.push(sep) + (cut(s, sep)->0).1,
        !has_char((cut(s, sep)->0).0, sep),
{
    lemma_first_index_bounds(s, sep);
    let i = first_index(s, sep);
    assert(s == s.take(i).push(sep) + s.skip(i + 1));
    assert forall|k: int| 0 <= k < i implies #[trigger] s.take(i)[k] != sep by {
        assert(s[k] != sep);
    }
}

pub proof fn lemma_concat_chars(a: Seq<char>, b: Seq<char>, c: char)
    ensures
        has_char(a + b, c) <==> has_char(a, c) || has_char(b, c),
{
    if has_char(a, c) {
        let i = choose|i: int| 0 <= i < a.len() && #[trigger] a[i] == c;
        assert((a + b)[i] == c);
    }
    if has_char(b, c) {
        let i = choose|i: int| 0 <= i < b.len() && #[trigger] b[i] == c;
        assert((a + b)[a.len() + i] == c);
    }
    if has_char(a + b, c) {
        let i = choose|i: int| 0 <= i < (a + b).len() && #[trigger] (a + b)[i] == c;
        if i < a.len() {
            assert(a[i] == c);
        } else {
            assert(b[i - a.len()] == c);
        }
    }
}

/// A text that ends at the end of a line: its lines come before those of what follows.
pub proof fn lemma_lines_concat(a: Seq<char>, b: Seq<char>)
    requires
        a.len() == 0 || a.last() == '\n',
    ensures
        lines_of(a + b) == lines_of(a) + lines_of(b),
    decreases a.len(),
{
    if a.len() == 0 {
        assert(a + b == b);
        assert(lines_of(a) + lines_of(b) == lines_of(b));
    } else {
        lemma_first_index_bounds(a, '\n');
        let i = first_index(a, '\n');
        assert(i < a.len()) by {
            if i == a.len() {
                assert(a[a.len() - 1] != '\n');
            }
        }
        let s = a + b;
        assert forall|k: int| 0 <= k < i implies #[trigger] s[k] != '\n' by {
            assert(s[k] == a[k]);
        }
        lemma_first_index_at(s, '\n', i);
        let rest = a.skip(i + 1);
        assert(s.take(i) == a.take(i));
        assert(s.skip(i + 1) == rest + b);
        if rest.len() > 0 {
            assert(rest.last() == a.last());
        }
        lemma_lines_concat(rest, b);
        let line = seq![without_return(a.take(i))];
        assert(line + (lines_of(rest) + lines_of(b)) == (line + lines_of(rest)) + lines_of(b));
    }
}

/// Lines that hold no line feed and do not end in a carriage return are read back as written.
pub proof fn lemma_lines_of_unlines(ls: Seq<Seq<char>>)
    requires
        forall|i: int|
            0 <= i < ls.len() ==> !has_char(#[trigger] ls[i], '\n') && without_return(ls[i])
                == ls[i],
    ensures
        lines_of(unlines(ls)) == ls,
        unlines(ls).len() == 0 || unlines(ls).last() == '\n',
    decreases ls.len(),
{
    if ls.len() > 0 {
        let front = ls.drop_last();
        let last = ls.last();
        assert(last == ls[ls.len() - 1]);
        assert forall|i: int| 0 <= i < front.len() implies !has_char(#[trigger] front[i], '\n')
            && without_return(front[i]) == front[i] by {
            assert(front[i] == ls[i]);
        }
        lemma_lines_of_unlines(front);
        let t = last.push('\n');
        lemma_lines_concat(unlines(front), t);
        assert forall|k: int| 0 <= k < last.len() implies #[trigger] t[k] != '\n' by {
            assert(t[k] == last[k]);
        }
        lemma_first_index_at(t, '\n', last.len() as int);
        assert(t.take(last.len() as int) == last);
        assert(t.skip(last.len() as int + 1) == Seq::<char>::empty());
        assert(lines_of(Seq::<char>::empty()) == Seq::<Seq<char>>::empty());
        assert(lines_of(t) == seq![last]);
        assert(front + seq![last] == ls);
    }
}

/// Text without a separator is one piece.
pub proof fn lemma_pieces_one(s: Seq<char>, sep: char)
    requires
        !has_char(s, sep),
    ensures
        pieces(s, sep) == seq![s],
{
    lemma_first_index_bounds(s, sep);
    let i = first_index(s, sep);
    if i < s.len() {
        assert(s[i] == sep);
    }
}

/// A separator and text without one behind it are one more piece.
pub proof fn lemma_pieces_push(s: Seq<char>, sep: char, last: Seq<char>)
    requires
        !has_char(last, sep),
    ensures
        pieces(s.push(sep) + last, sep) == pieces(s, sep).push(last),
    decreases s.len(),
{
    let whole = s.push(sep) + last;
    let i = first_index(s, sep);
    lemma_first_index_bounds(s, sep);
    if i < s.len() {
        assert forall|k: int| 0 <= k < i implies #[trigger] whole[k] != sep by {
            assert(whole[k] == s[k]);
        }
        lemma_first_index_at(whole, sep, i);
        let rest = s.skip(i + 1);
        lemma_pieces_push(rest, sep, last);
        assert(whole.take(i) == s.take(i));
        assert(whole.skip(i + 1) == rest.push(sep) + last);
        let first = seq![s.take(i)];
        assert(first + pieces(rest, sep).push(last) == (first + pieces(rest, sep)).push(last));
    } else {
        assert forall|k: int| 0 <= k < s.len() implies #[trigger] whole[k] != sep by {
            assert(whole[k] == s[k]);
        }
        lemma_first_index_at(whole, sep, s.len() as int);
        assert(whole.take(s.len() as int) == s);
        assert(whole.skip(s.len() as int + 1) == last);
        lemma_pieces_one(last, sep);
        assert(seq![s] + seq![last] == seq![s].push(last));
    }
}

/// A line holds no line feed.
pub proof fn lemma_lines_chars(s: Seq<char>)
    ensures
        forall|i: int| 0 <= i < lines_of(s).len() ==> !has_char(#[trigger] lines_of(s)[i], '\n'),
    decreases s.len(),
{
    lemma_first_index_bounds(s, '\n');
    let i = first_index(s, '\n');
    if s.len() > 0 {
        let front = s.take(i);
        assert(!has_char(front, '\n')) by {
            assert forall|k: int| 0 <= k < front.len() implies #[trigger] front[k] != '\n' by {
                assert(s[k] != '\n');
            }
        }
        if i < s.len() {
            let line = without_return(front);
            assert(!has_char(line, '\n')) by {
                assert forall|k: int| 0 <= k < line.len() implies #[trigger] line[k] != '\n' by {
                    assert(front[k] == line[k]);
                }
            }
            let rest = s.skip(i + 1);
            lemma_lines_chars(rest);
            assert forall|k: int| 0 <= k < lines_of(s).len() implies !has_char(
                #[trigger] lines_of(s)[k],
                '\n',
            ) by {
                if k > 0 {
                    assert(lines_of(s)[k] == lines_of(rest)[k - 1]);
                } else {
                    assert(lines_of(s)[0] == line);
                }
            }
        } else {
            assert(front == s);
        }
    }
}

/// A piece holds no separator, and no character that the whole does not hold.
pub proof fn lemma_pieces_chars(s: Seq<char>, sep: char, c: char)
    requires
        c == sep || !has_char(s, c),
    ensures
        forall|i: int| 0 <= i < pieces(s, sep).len() ==> !has_char(#[trigger] pieces(s, sep)[i], c),
    decreases s.len(),
{
    lemma_first_index_bounds(s, sep);
    let i = first_index(s, sep);
    let front = s.take(i);
    assert(!has_char(front, c)) by {
        assert forall|k: int| 0 <= k < front.len() implies #[trigger] front[k] != c by {
            assert(s[k] == front[k]);
            assert(s[k] != sep);
        }
    }
    if i < s.len() {
        let rest = s.skip(i + 1);
        if c != sep {
            assert forall|k: int| 0 <= k < rest.len() implies #[trigger] rest[k] != c by {
                assert(s[k + i + 1] == rest[k]);
            }
        }
        lemma_pieces_chars(rest, sep, c);
        assert forall|k: int| 0 <= k < pieces(s, sep).len() implies !has_char(
            #[trigger] pieces(s, sep)[k],
            c,
        ) by {
            if k > 0 {
                assert(pieces(s, sep)[k] == pieces(rest, sep)[k - 1]);
            } else {
                assert(pieces(s, sep)[0] == front);
            }
        }
    } else {
        assert(front == s);
    }
}

} // verus!
