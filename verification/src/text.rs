//! Text as sequences of characters: the operations that the config format and the
//! script writer are stated over, each with an executable counterpart.
use vstd::prelude::*;

verus! {

/// `String::push` puts one character at the end of the string and leaves the rest as it was.
pub assume_specification[ String::push ](s: &mut String, c: char)
    ensures
        final(s)@ == old(s)@.push(c),
;

// Character classes.

/// The characters with Unicode's White_Space property.
pub open spec fn is_white_space(c: char) -> bool {
    ||| '\u{9}' <= c <= '\u{d}'
    ||| c == ' '
    ||| c == '\u{85}'
    ||| c == '\u{a0}'
    ||| c == '\u{1680}'
    ||| '\u{2000}' <= c <= '\u{200a}'
    ||| c == '\u{2028}'
    ||| c == '\u{2029}'
    ||| c == '\u{202f}'
    ||| c == '\u{205f}'
    ||| c == '\u{3000}'
}

pub open spec fn is_ascii_upper(c: char) -> bool {
    'A' <= c <= 'Z'
}

pub open spec fn is_ascii_letter(c: char) -> bool {
    'A' <= c <= 'Z' || 'a' <= c <= 'z'
}

pub open spec fn is_ascii_digit(c: char) -> bool {
    '0' <= c <= '9'
}

pub open spec fn is_ascii_alphanumeric(c: char) -> bool {
    is_ascii_letter(c) || is_ascii_digit(c)
}

/// The lower-case form of an ASCII capital; every other character stands for itself.
pub open spec fn lowered_char(c: char) -> char {
    if is_ascii_upper(c) {
        (c as u8 + 32) as char
    } else {
        c
    }
}

pub fn white_space(c: char) -> (r: bool)
    ensures
        r == is_white_space(c),
{
    ('\u{9}' <= c && c <= '\u{d}') || c == ' ' || c == '\u{85}' || c == '\u{a0}' || c == '\u{1680}'
        || ('\u{2000}' <= c && c <= '\u{200a}') || c == '\u{2028}' || c == '\u{2029}' || c
        == '\u{202f}' || c == '\u{205f}' || c == '\u{3000}'
}

pub fn ascii_letter(c: char) -> (r: bool)
    ensures
        r == is_ascii_letter(c),
{
    ('A' <= c && c <= 'Z') || ('a' <= c && c <= 'z')
}

pub fn ascii_digit(c: char) -> (r: bool)
    ensures
        r == is_ascii_digit(c),
{
    '0' <= c && c <= '9'
}

pub fn ascii_alphanumeric(c: char) -> (r: bool)
    ensures
        r == is_ascii_alphanumeric(c),
{
    ascii_letter(c) || ascii_digit(c)
}

pub fn lower_char(c: char) -> (r: char)
    ensures
        r == lowered_char(c),
{
    if 'A' <= c && c <= 'Z' {
        (c as u8 + 32) as char
    } else {
        c
    }
}

// Between strings and vectors of characters.

pub fn chars_of(s: &str) -> (cs: Vec<char>)
    ensures
        cs@ == s@,
{
    let mut cs: Vec<char> = Vec::new();
    for c in it: s.chars()
        invariant
            cs@ == s@.take(it.index()),
            it.seq() == s@,
    {
        cs.push(c);
    }
    cs
}

pub fn substring(cs: &Vec<char>, from: usize, to: usize) -> (s: String)
    requires
        from <= to <= cs.len(),
    ensures
        s@ == cs@.subrange(from as int, to as int),
{
    let mut s = String::new();
    for i in from..to
        invariant
            from <= to <= cs.len(),
            s@ == cs@.subrange(from as int, i as int),
    {
        s.push(cs[i]);
    }
    s
}

pub fn same(a: &str, b: &str) -> (r: bool)
    ensures
        r == (a@ == b@),
{
    let xs = chars_of(a);
    let ys = chars_of(b);
    if xs.len() != ys.len() {
        return false;
    }
    for i in 0..xs.len()
        invariant
            xs@ == a@,
            ys@ == b@,
            xs.len() == ys.len(),
            xs@.take(i as int) == ys@.take(i as int),
    {
        if xs[i] != ys[i] {
            assert(xs@[i as int] != ys@[i as int]);
            return false;
        }
        assert(xs@.take(i + 1) == xs@.take(i as int).push(xs@[i as int]));
        assert(ys@.take(i + 1) == ys@.take(i as int).push(ys@[i as int]));
    }
    assert(xs@ == xs@.take(xs.len() as int));
    assert(ys@ == ys@.take(xs.len() as int));
    true
}

// Letter case.

pub open spec fn lowered(s: Seq<char>) -> Seq<char> {
    Seq::new(s.len(), |i: int| lowered_char(s[i]))
}

pub fn to_lower(s: &str) -> (r: String)
    ensures
        r@ == lowered(s@),
{
    let cs = chars_of(s);
    let mut r = String::new();
    for i in 0..cs.len()
        invariant
            cs@ == s@,
            r@ == lowered(s@.take(i as int)),
    {
        r.push(lower_char(cs[i]));
        assert(lowered(s@.take(i + 1)) == lowered(s@.take(i as int)).push(lowered_char(s@[i as int])));
    }
    assert(s@.take(s@.len() as int) == s@);
    r
}

// White space at the ends.

pub open spec fn trimmed_start(s: Seq<char>) -> Seq<char>
    decreases s.len(),
{
    if s.len() > 0 && is_white_space(s[0]) {
        trimmed_start(s.drop_first())
    } else {
        s
    }
}

pub open spec fn trimmed_end(s: Seq<char>) -> Seq<char>
    decreases s.len(),
{
    if s.len() > 0 && is_white_space(s.last()) {
        trimmed_end(s.drop_last())
    } else {
        s
    }
}

/// `s` without the white space at its two ends.
pub open spec fn trimmed(s: Seq<char>) -> Seq<char> {
    trimmed_end(trimmed_start(s))
}

pub proof fn lemma_trimmed_start_at(s: Seq<char>, i: int)
    requires
        0 <= i <= s.len(),
        forall|k: int| 0 <= k < i ==> is_white_space(#[trigger] s[k]),
        i < s.len() ==> !is_white_space(s[i]),
    ensures
        trimmed_start(s) == s.skip(i),
    decreases i,
{
    if i > 0 {
        let t = s.drop_first();
        assert forall|k: int| 0 <= k < i - 1 implies is_white_space(#[trigger] t[k]) by {
            assert(t[k] == s[k + 1]);
        }
        lemma_trimmed_start_at(t, i - 1);
        assert(t.skip(i - 1) == s.skip(i));
    } else {
        assert(s.skip(0) == s);
    }
}

pub proof fn lemma_trimmed_end_at(s: Seq<char>, j: int)
    requires
        0 <= j <= s.len(),
        forall|k: int| j <= k < s.len() ==> is_white_space(#[trigger] s[k]),
        j > 0 ==> !is_white_space(s[j - 1]),
    ensures
        trimmed_end(s) == s.take(j),
    decreases s.len() - j,
{
    if j < s.len() {
        lemma_trimmed_end_at(s.drop_last(), j);
        assert(s.drop_last().take(j) == s.take(j));
    } else {
        assert(s.take(j) == s);
    }
}

fn leading_white_space(cs: &Vec<char>) -> (i: usize)
    ensures
        i <= cs.len(),
        trimmed_start(cs@) == cs@.skip(i as int),
        i < cs.len() ==> !is_white_space(cs@[i as int]),
{
    let mut i: usize = 0;
    while i < cs.len() && white_space(cs[i])
        invariant
            i <= cs.len(),
            forall|k: int| 0 <= k < i ==> is_white_space(#[trigger] cs@[k]),
        decreases cs.len() - i,
    {
        i += 1;
    }
    proof {
        lemma_trimmed_start_at(cs@, i as int);
    }
    i
}

pub fn trim(s: &str) -> (r: String)
    ensures
        r@ == trimmed(s@),
{
    let cs = chars_of(s);
    let i = leading_white_space(&cs);
    let mut j: usize = cs.len();
    while j > i && white_space(cs[j - 1])
        invariant
            i <= j <= cs.len(),
            forall|k: int| j <= k < cs.len() ==> is_white_space(#[trigger] cs@[k]),
        decreases j,
    {
        j -= 1;
    }
    proof {
        let t = cs@.skip(i as int);
        assert forall|k: int| j - i <= k < t.len() implies is_white_space(#[trigger] t[k]) by {
            assert(t[k] == cs@[k + i]);
        }
        lemma_trimmed_end_at(t, j - i);
        assert(t.take(j - i) == cs@.subrange(i as int, j as int));
    }
    substring(&cs, i, j)
}

// Prefixes and suffixes.

pub open spec fn starts_with(s: Seq<char>, prefix: Seq<char>) -> bool {
    prefix.len() <= s.len() && s.take(prefix.len() as int) == prefix
}

pub fn has_prefix(s: &str, prefix: &str) -> (r: bool)
    ensures
        r == starts_with(s@, prefix@),
{
    let cs = chars_of(s);
    let ps = chars_of(prefix);
    assert(cs@.skip(0) == cs@);
    prefix_at(&cs, 0, &ps)
}

/// Whether `ps` stands in `cs` at index `at`.
pub fn prefix_at(cs: &Vec<char>, at: usize, ps: &Vec<char>) -> (r: bool)
    requires
        at <= cs.len(),
    ensures
        r == starts_with(cs@.skip(at as int), ps@),
{
    if cs.len() - at < ps.len() {
        return false;
    }
    let ghost rest = cs@.skip(at as int);
    for i in 0..ps.len()
        invariant
            at + ps.len() <= cs.len(),
            rest == cs@.skip(at as int),
            forall|k: int| 0 <= k < i ==> rest[k] == ps@[k],
    {
        if cs[at + i] != ps[i] {
            assert(rest[i as int] != ps@[i as int]);
            assert(rest.take(ps.len() as int)[i as int] == rest[i as int]);
            return false;
        }
        assert(rest[i as int] == cs@[at + i]);
    }
    assert(rest.take(ps.len() as int) == ps@);
    true
}

// Where a character or a text first stands.

/// The least index at which `c` stands in `s`; the length of `s` if it stands nowhere.
pub open spec fn first_index(s: Seq<char>, c: char) -> int
    decreases s.len(),
{
    if s.len() == 0 || s[0] == c {
        0
    } else {
        1 + first_index(s.drop_first(), c)
    }
}

pub proof fn lemma_first_index_bounds(s: Seq<char>, c: char)
    ensures
        0 <= first_index(s, c) <= s.len(),
        first_index(s, c) < s.len() ==> s[first_index(s, c)] == c,
        forall|k: int| 0 <= k < first_index(s, c) ==> #[trigger] s[k] != c,
    decreases s.len(),
{
    if s.len() > 0 && s[0] != c {
        let t = s.drop_first();
        lemma_first_index_bounds(t, c);
        assert forall|k: int| 0 <= k < first_index(s, c) implies #[trigger] s[k] != c by {
            if k > 0 {
                assert(t[k - 1] == s[k]);
            }
        }
    }
}

pub proof fn lemma_first_index_at(s: Seq<char>, c: char, i: int)
    requires
        0 <= i <= s.len(),
        forall|k: int| 0 <= k < i ==> #[trigger] s[k] != c,
        i < s.len() ==> s[i] == c,
    ensures
        first_index(s, c) == i,
{
    lemma_first_index_bounds(s, c);
    let j = first_index(s, c);
    if j < i {
        assert(s[j] != c);
    } else if i < j {
        assert(s[i] != c);
    }
}

/// The least index from `start` on at which `c` stands.
pub fn find_from(cs: &Vec<char>, start: usize, c: char) -> (i: usize)
    requires
        start <= cs.len(),
    ensures
        start <= i <= cs.len(),
        first_index(cs@.skip(start as int), c) == i - start,
{
    let ghost rest = cs@.skip(start as int);
    let mut i = start;
    while i < cs.len() && cs[i] != c
        invariant
            start <= i <= cs.len(),
            rest == cs@.skip(start as int),
            forall|k: int| 0 <= k < i - start ==> #[trigger] rest[k] != c,
        decreases cs.len() - i,
    {
        assert(rest[i - start] == cs@[i as int]);
        i += 1;
    }
    proof {
        if i < cs.len() {
            assert(rest[i - start] == cs@[i as int]);
        }
        lemma_first_index_at(rest, c, i - start);
    }
    i
}

/// The least index at which `part` stands in `s`; `None` if it stands nowhere.
pub open spec fn text_index(s: Seq<char>, part: Seq<char>) -> Option<int>
    decreases s.len(),
{
    if starts_with(s, part) {
        Some(0)
    } else if s.len() == 0 {
        None
    } else {
        match text_index(s.drop_first(), part) {
            Some(i) => Some(i + 1),
            None => None,
        }
    }
}

/// Whether `part` stands somewhere in `s`.
pub open spec fn holds_text(s: Seq<char>, part: Seq<char>) -> bool {
    exists|i: int| 0 <= i <= s.len() && starts_with(#[trigger] s.skip(i), part)
}

pub proof fn lemma_text_index(s: Seq<char>, part: Seq<char>)
    ensures
        match text_index(s, part) {
            Some(i) => {
                &&& 0 <= i
                &&& i + part.len() <= s.len()
                &&& starts_with(s.skip(i), part)
                &&& forall|k: int| 0 <= k < i ==> !starts_with(#[trigger] s.skip(k), part)
            },
            None => forall|k: int| 0 <= k <= s.len() ==> !starts_with(#[trigger] s.skip(k), part),
        },
    decreases s.len(),
{
    assert(s.skip(0) == s);
    if !starts_with(s, part) {
        if s.len() > 0 {
            let t = s.drop_first();
            lemma_text_index(t, part);
            assert forall|k: int| 1 <= k <= s.len() implies #[trigger] s.skip(k) == t.skip(k - 1) by {}
        }
    }
}

/// The least index from `start` on at which `part` stands.
pub fn find_text_from(cs: &Vec<char>, start: usize, part: &Vec<char>) -> (r: Option<usize>)
    requires
        start <= cs.len(),
    ensures
        match r {
            Some(i) => start <= i && i + part.len() <= cs.len() && text_index(
                cs@.skip(start as int),
                part@,
            ) == Some(i - start),
            None => text_index(cs@.skip(start as int), part@) is None,
        },
{
    let ghost rest = cs@.skip(start as int);
    let mut i = start;
    proof {
        lemma_text_index(rest, part@);
    }
    loop
        invariant
            start <= i <= cs.len(),
            rest == cs@.skip(start as int),
            forall|k: int| 0 <= k < i - start ==> !starts_with(#[trigger] rest.skip(k), part@),
            match text_index(rest, part@) {
                Some(j) => {
                    &&& 0 <= j
                    &&& j + part.len() <= rest.len()
                    &&& starts_with(rest.skip(j), part@)
                    &&& forall|k: int| 0 <= k < j ==> !starts_with(#[trigger] rest.skip(k), part@)
                },
                None => forall|k: int|
                    0 <= k <= rest.len() ==> !starts_with(#[trigger] rest.skip(k), part@),
            },
        decreases cs.len() - i,
    {
        assert(rest.skip(i - start) == cs@.skip(i as int));
        if prefix_at(cs, i, part) {
            return Some(i);
        }
        if i == cs.len() {
            return None;
        }
        i += 1;
    }
}

pub fn has_text(s: &str, part: &str) -> (r: bool)
    ensures
        r == holds_text(s@, part@),
{
    let cs = chars_of(s);
    let ps = chars_of(part);
    proof {
        assert(cs@.skip(0) == cs@);
        lemma_text_index(s@, part@);
    }
    match find_text_from(&cs, 0, &ps) {
        Some(_) => true,
        None => false,
    }
}

/// `s` cut at the first `sep`: what stands before it and what stands after it.
pub open spec fn cut(s: Seq<char>, sep: char) -> Option<(Seq<char>, Seq<char>)> {
    let i = first_index(s, sep);
    if i < s.len() {
        Some((s.take(i), s.skip(i + 1)))
    } else {
        None
    }
}

pub fn split_once(s: &str, sep: char) -> (r: Option<(String, String)>)
    ensures
        r.deep_view() == cut(s@, sep),
{
    let cs = chars_of(s);
    let i = find_from(&cs, 0, sep);
    assert(cs@.skip(0) == cs@);
    if i < cs.len() {
        let before = substring(&cs, 0, i);
        let after = substring(&cs, i + 1, cs.len());
        assert(before@ == s@.take(i as int));
        assert(after@ == s@.skip(i + 1));
        Some((before, after))
    } else {
        None
    }
}

/// The pieces of `s` between the occurrences of `sep`.
pub open spec fn pieces(s: Seq<char>, sep: char) -> Seq<Seq<char>>
    decreases s.len(),
    via pieces_decreases
{
    let i = first_index(s, sep);
    if i < s.len() {
        seq![s.take(i)] + pieces(s.skip(i + 1), sep)
    } else {
        seq![s]
    }
}

#[via_fn]
proof fn pieces_decreases(s: Seq<char>, sep: char) {
    lemma_first_index_bounds(s, sep);
}

pub fn split(s: &str, sep: char) -> (r: Vec<String>)
    ensures
        r.deep_view() == pieces(s@, sep),
{
    let cs = chars_of(s);
    let mut r: Vec<String> = Vec::new();
    let mut start: usize = 0;
    assert(cs@.skip(0) == cs@);
    assert(r.deep_view() + pieces(cs@, sep) == pieces(cs@, sep));
    loop
        invariant
            cs@ == s@,
            start <= cs.len(),
            r.deep_view() + pieces(cs@.skip(start as int), sep) == pieces(s@, sep),
        decreases cs.len() - start,
    {
        let i = find_from(&cs, start, sep);
        let piece = substring(&cs, start, i);
        let ghost before = r;
        let ghost rest = cs@.skip(start as int);
        r.push(piece);
        assert(r.deep_view() == before.deep_view().push(piece@));
        assert(piece@ == rest.take(i - start));
        if i == cs.len() {
            assert(rest.take(i - start) == rest);
            assert(pieces(rest, sep) == seq![rest]);
            assert(before.deep_view().push(rest) == before.deep_view() + seq![rest]);
            return r;
        }
        proof {
            assert(rest.skip(i - start + 1) == cs@.skip(i + 1));
            assert(before.deep_view().push(piece@) + pieces(cs@.skip(i + 1), sep) == before.deep_view() + (seq![
                piece@,
            ] + pieces(cs@.skip(i + 1), sep)));
        }
        start = i + 1;
    }
}

// Lines.

/// A line without the carriage return that belongs to its line ending.
pub open spec fn without_return(s: Seq<char>) -> Seq<char> {
    if s.len() > 0 && s.last() == '\r' {
        s.drop_last()
    } else {
        s
    }
}

/// The lines of `s`: a line ends at a line feed, or at a carriage return with a line feed
/// behind it. What stands after the last line feed is a line if it is not empty.
pub open spec fn lines_of(s: Seq<char>) -> Seq<Seq<char>>
    decreases s.len(),
    via lines_of_decreases
{
    let i = first_index(s, '\n');
    if s.len() == 0 {
        seq![]
    } else if i < s.len() {
        seq![without_return(s.take(i))] + lines_of(s.skip(i + 1))
    } else {
        seq![s]
    }
}

#[via_fn]
proof fn lines_of_decreases(s: Seq<char>) {
    lemma_first_index_bounds(s, '\n');
}

pub fn lines(s: &str) -> (r: Vec<String>)
    ensures
        r.deep_view() == lines_of(s@),
{
    let cs = chars_of(s);
    let mut r: Vec<String> = Vec::new();
    let mut start: usize = 0;
    assert(cs@.skip(0) == cs@);
    assert(r.deep_view() + lines_of(cs@) == lines_of(cs@));
    while start < cs.len()
        invariant
            cs@ == s@,
            start <= cs.len(),
            r.deep_view() + lines_of(cs@.skip(start as int)) == lines_of(s@),
        decreases cs.len() - start,
    {
        let i = find_from(&cs, start, '\n');
        let ghost before = r;
        let ghost rest = cs@.skip(start as int);
        if i == cs.len() {
            let line = substring(&cs, start, i);
            r.push(line);
            proof {
                assert(r.deep_view() == before.deep_view().push(line@));
                assert(line@ == rest);
                assert(lines_of(rest) == seq![rest]);
                assert(cs@.skip(i as int) == Seq::<char>::empty());
                assert(before.deep_view().push(rest) + Seq::<Seq<char>>::empty() == before.deep_view() + seq![rest]);
            }
            start = i;
        } else {
            let end: usize = if i > start && cs[i - 1] == '\r' {
                i - 1
            } else {
                i
            };
            let line = substring(&cs, start, end);
            r.push(line);
            proof {
                assert(r.deep_view() == before.deep_view().push(line@));
                let whole = rest.take(i - start);
                assert(whole.len() > 0 ==> whole.last() == cs@[i - 1]);
                assert(line@ == without_return(whole));
                assert(rest.skip(i - start + 1) == cs@.skip(i + 1));
                assert(before.deep_view().push(line@) + lines_of(cs@.skip(i + 1)) == before.deep_view() + (seq![
                    line@,
                ] + lines_of(cs@.skip(i + 1))));
            }
            start = i + 1;
        }
    }
    assert(cs@.skip(start as int) == Seq::<char>::empty());
    assert(r.deep_view() + Seq::<Seq<char>>::empty() == r.deep_view());
    r
}

/// The text of which these are the lines, each with a line feed behind it.
pub open spec fn unlines(ls: Seq<Seq<char>>) -> Seq<char>
    decreases ls.len(),
{
    if ls.len() == 0 {
        seq![]
    } else {
        unlines(ls.drop_last()) + ls.last().push('\n')
    }
}

pub proof fn lemma_unlines_concat(a: Seq<Seq<char>>, b: Seq<Seq<char>>)
    ensures
        unlines(a + b) == unlines(a) + unlines(b),
    decreases b.len(),
{
    if b.len() == 0 {
        assert(a + b == a);
    } else {
        assert((a + b).drop_last() == a + b.drop_last());
        lemma_unlines_concat(a, b.drop_last());
    }
}

pub proof fn lemma_unlines_one(line: Seq<char>)
    ensures
        unlines(seq![line]) == line.push('\n'),
{
    assert(seq![line].drop_last() == Seq::<Seq<char>>::empty());
    assert(unlines(Seq::<Seq<char>>::empty()) == Seq::<char>::empty());
}

/// Lines put behind lines: the lines so far with the new ones, and what that makes of the text.
pub proof fn grown(start: Seq<char>, so_far: Seq<Seq<char>>, more: Seq<Seq<char>>) -> (all: Seq<
    Seq<char>,
>)
    ensures
        all == so_far + more,
        start + unlines(all) == start + unlines(so_far) + unlines(more),
{
    lemma_unlines_concat(so_far, more);
    so_far + more
}

pub proof fn lemma_empty_line()
    ensures
        ""@ == Seq::<char>::empty(),
{
    reveal_strlit("");
}

/// Puts a line and its line feed at the end of `output`.
pub fn put_line(output: &mut String, line: &str)
    ensures
        final(output)@ == old(output)@ + unlines(seq![line@]),
{
    output.append(line);
    output.push('\n');
    proof {
        lemma_unlines_one(line@);
    }
}

/// What the items stand for, one after the other.
pub open spec fn each<A, T>(items: Seq<A>, f: spec_fn(A) -> Seq<T>) -> Seq<T>
    decreases items.len(),
{
    if items.len() == 0 {
        seq![]
    } else {
        each(items.drop_last(), f) + f(items.last())
    }
}

pub proof fn lemma_each_step<A, T>(items: Seq<A>, i: int, f: spec_fn(A) -> Seq<T>)
    requires
        0 <= i < items.len(),
    ensures
        each(items.take(i + 1), f) == each(items.take(i), f) + f(items[i]),
{
    assert(items.take(i + 1).drop_last() == items.take(i));
}

// Words.

/// The least index at which white space stands in `s`; the length of `s` if there is none.
pub open spec fn word_end(s: Seq<char>) -> int
    decreases s.len(),
{
    if s.len() == 0 || is_white_space(s[0]) {
        0
    } else {
        1 + word_end(s.drop_first())
    }
}

pub proof fn lemma_word_end_at(s: Seq<char>, i: int)
    requires
        0 <= i <= s.len(),
        forall|k: int| 0 <= k < i ==> !is_white_space(#[trigger] s[k]),
        i < s.len() ==> is_white_space(s[i]),
    ensures
        word_end(s) == i,
    decreases i,
{
    if i > 0 {
        let t = s.drop_first();
        assert forall|k: int| 0 <= k < i - 1 implies !is_white_space(#[trigger] t[k]) by {
            assert(t[k] == s[k + 1]);
        }
        lemma_word_end_at(t, i - 1);
    }
}

/// The words of `s`: its longest runs of characters that are not white space.
pub open spec fn words_of(s: Seq<char>) -> Seq<Seq<char>>
    decreases s.len(),
    via words_of_decreases
{
    let t = trimmed_start(s);
    if t.len() == 0 {
        seq![]
    } else {
        seq![t.take(word_end(t))] + words_of(t.skip(word_end(t)))
    }
}

proof fn lemma_trimmed_start_len(s: Seq<char>)
    ensures
        trimmed_start(s).len() <= s.len(),
        trimmed_start(s).len() > 0 ==> !is_white_space(trimmed_start(s)[0]),
    decreases s.len(),
{
    if s.len() > 0 && is_white_space(s[0]) {
        lemma_trimmed_start_len(s.drop_first());
    }
}

proof fn lemma_word_end_bounds(s: Seq<char>)
    ensures
        0 <= word_end(s) <= s.len(),
        s.len() > 0 && !is_white_space(s[0]) ==> word_end(s) > 0,
    decreases s.len(),
{
    if s.len() > 0 && !is_white_space(s[0]) {
        lemma_word_end_bounds(s.drop_first());
    }
}

#[via_fn]
proof fn words_of_decreases(s: Seq<char>) {
    lemma_trimmed_start_len(s);
    lemma_word_end_bounds(trimmed_start(s));
}

pub fn words(s: &str) -> (r: Vec<String>)
    ensures
        r.deep_view() == words_of(s@),
{
    let cs = chars_of(s);
    let mut r: Vec<String> = Vec::new();
    let mut at: usize = 0;
    assert(cs@.skip(0) == cs@);
    assert(r.deep_view() + words_of(cs@) == words_of(cs@));
    loop
        invariant
            cs@ == s@,
            at <= cs.len(),
            r.deep_view() + words_of(cs@.skip(at as int)) == words_of(s@),
        decreases cs.len() - at,
    {
        let ghost rest = cs@.skip(at as int);
        let mut start = at;
        while start < cs.len() && white_space(cs[start])
            invariant
                at <= start <= cs.len(),
                rest == cs@.skip(at as int),
                forall|k: int| 0 <= k < start - at ==> is_white_space(#[trigger] rest[k]),
            decreases cs.len() - start,
        {
            assert(rest[start - at] == cs@[start as int]);
            start += 1;
        }
        let ghost t = cs@.skip(start as int);
        proof {
            if start < cs.len() {
                assert(rest[start - at] == cs@[start as int]);
            }
            lemma_trimmed_start_at(rest, start - at);
            assert(rest.skip(start - at) == t);
        }
        if start == cs.len() {
            assert(r.deep_view() + Seq::<Seq<char>>::empty() == r.deep_view());
            return r;
        }
        let mut end = start;
        while end < cs.len() && !white_space(cs[end])
            invariant
                start <= end <= cs.len(),
                t == cs@.skip(start as int),
                forall|k: int| 0 <= k < end - start ==> !is_white_space(#[trigger] t[k]),
            decreases cs.len() - end,
        {
            assert(t[end - start] == cs@[end as int]);
            end += 1;
        }
        let word = substring(&cs, start, end);
        let ghost before = r;
        r.push(word);
        proof {
            if end < cs.len() {
                assert(t[end - start] == cs@[end as int]);
            }
            lemma_word_end_at(t, end - start);
            assert(t[0] == cs@[start as int]);
            assert(word@ == t.take(end - start));
            assert(t.skip(end - start) == cs@.skip(end as int));
            assert(r.deep_view() == before.deep_view().push(word@));
            assert(before.deep_view().push(word@) + words_of(cs@.skip(end as int)) == before.deep_view() + (seq![
                word@,
            ] + words_of(cs@.skip(end as int))));
        }
        at = end;
    }
}

// Replacement.

/// `s` with each occurrence of `from` turned into `to`, taken from the left and without overlap.
pub open spec fn replaced(s: Seq<char>, from: Seq<char>, to: Seq<char>) -> Seq<char>
    recommends
        from.len() > 0,
    decreases s.len(),
{
    if s.len() == 0 || from.len() == 0 {
        s
    } else if starts_with(s, from) {
        to + replaced(s.skip(from.len() as int), from, to)
    } else {
        seq![s[0]] + replaced(s.drop_first(), from, to)
    }
}

pub fn replace(s: &str, from: &str, to: &str) -> (r: String)
    requires
        from@.len() > 0,
    ensures
        r@ == replaced(s@, from@, to@),
{
    let cs = chars_of(s);
    let fs = chars_of(from);
    let mut r = String::new();
    let mut at: usize = 0;
    assert(cs@.skip(0) == cs@);
    assert(r@ + replaced(cs@, from@, to@) == replaced(cs@, from@, to@));
    while at < cs.len()
        invariant
            cs@ == s@,
            fs@ == from@,
            fs.len() > 0,
            at <= cs.len(),
            r@ + replaced(cs@.skip(at as int), from@, to@) == replaced(s@, from@, to@),
        decreases cs.len() - at,
    {
        let ghost before = r@;
        let ghost rest = cs@.skip(at as int);
        if prefix_at(&cs, at, &fs) {
            r.append(to);
            proof {
                assert(rest.skip(fs.len() as int) == cs@.skip(at + fs.len()));
                let tail = replaced(cs@.skip(at + fs.len()), from@, to@);
                assert((before + to@) + tail == before + (to@ + tail));
            }
            at += fs.len();
        } else {
            r.push(cs[at]);
            proof {
                assert(rest.drop_first() == cs@.skip(at + 1));
                assert(rest[0] == cs@[at as int]);
                let tail = replaced(cs@.skip(at + 1), from@, to@);
                assert(before.push(rest[0]) + tail == before + (seq![rest[0]] + tail));
            }
            at += 1;
        }
    }
    assert(cs@.skip(at as int) == Seq::<char>::empty());
    assert(r@ + Seq::<char>::empty() == r@);
    r
}

} // verus!
