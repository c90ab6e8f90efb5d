//! Which pages are found in a response, and which of them is picked.
use crate::devtools::{picked_url, text_before, unescaped, url_key, urls_in};
use crate::facts::has_char;
use crate::number::{decimal_of, law_decimal_reads_back, number_of};
use crate::text::{
    is_white_space, lemma_first_index_at, lemma_trimmed_start_at, replaced, starts_with,
    text_index,
};
use crate::text_laws::is_blank;
use vstd::prelude::*;

verus! {

/// A text that begins with the protocol of the web, with or without encryption.
pub open spec fn is_page(url: Seq<char>) -> bool {
    starts_with(url, "http://"@) || starts_with(url, "https://"@)
}

/// What stands between the quotes behind the first key for a page is a page, if it is one of the
/// web; and then the rest of the response is gone through in the same way.
pub proof fn law_page_is_found(
    front: Seq<char>,
    gap: Seq<char>,
    space: Seq<char>,
    body: Seq<char>,
    rest: Seq<char>,
)
    requires
        text_index(
            front + "\"url\""@ + gap + seq![':'] + space + seq!['"'] + body + seq!['"'] + rest,
            "\"url\""@,
        ) == Some(front.len() as int),
        !has_char(gap, ':'),
        is_blank(space),
        !has_char(body, '"'),
    ensures
        urls_in(
            front + "\"url\""@ + gap + seq![':'] + space + seq!['"'] + body + seq!['"'] + rest,
        ) == if is_page(unescaped(body)) {
            seq![unescaped(body)] + urls_in(rest)
        } else {
            urls_in(rest)
        },
{
    reveal_strlit("\"url\"");
    let key = "\"url\""@;
    assert(key == url_key());
    assert(key.len() == 5);
    let text = front + key + gap + seq![':'] + space + seq!['"'] + body + seq!['"'] + rest;
    let at = front.len() as int;
    let after_key = text.skip(at + 5);
    let tail = space + seq!['"'] + body + seq!['"'] + rest;
    assert(after_key == gap + seq![':'] + tail);
    let g = gap.len() as int;
    assert forall|k: int| 0 <= k < g implies #[trigger] after_key[k] != ':' by {
        assert(after_key[k] == gap[k]);
    }
    lemma_first_index_at(after_key, ':', g);
    let raw = after_key.skip(g + 1);
    assert(raw == tail);
    let n = space.len() as int;
    assert forall|k: int| 0 <= k < n implies is_white_space(#[trigger] raw[k]) by {
        assert(raw[k] == space[k]);
    }
    assert(raw[n] == '"');
    lemma_trimmed_start_at(raw, n);
    let value = raw.skip(n);
    assert(value == seq!['"'] + body + seq!['"'] + rest);
    let inside = value.skip(1);
    assert(inside == body + seq!['"'] + rest);
    let m = body.len() as int;
    assert forall|k: int| 0 <= k < m implies #[trigger] inside[k] != '"' by {
        assert(inside[k] == body[k]);
    }
    lemma_first_index_at(inside, '"', m);
    assert(inside.take(m) == body);
    assert(inside.skip(m + 1) == rest);
}

/// A response without the key has no pages; and a key with something other than a string behind its
/// colon is passed over.
pub proof fn law_no_page_is_found(
    front: Seq<char>,
    gap: Seq<char>,
    space: Seq<char>,
    rest: Seq<char>,
)
    requires
        !has_char(gap, ':'),
        is_blank(space),
        rest.len() > 0 ==> rest[0] != '"' && !is_white_space(rest[0]),
    ensures
        text_index(front, "\"url\""@) is None ==> urls_in(front).len() == 0,
        text_index(front + "\"url\""@ + gap + seq![':'] + space + rest, "\"url\""@) == Some(
            front.len() as int,
        ) ==> urls_in(front + "\"url\""@ + gap + seq![':'] + space + rest) == urls_in(rest),
{
    reveal_strlit("\"url\"");
    let key = "\"url\""@;
    assert(key == url_key());
    assert(key.len() == 5);
    let text = front + key + gap + seq![':'] + space + rest;
    if text_index(text, key) == Some(front.len() as int) {
        let after_key = text.skip(front.len() as int + 5);
        assert(after_key == gap + seq![':'] + (space + rest));
        let g = gap.len() as int;
        assert forall|k: int| 0 <= k < g implies #[trigger] after_key[k] != ':' by {
            assert(after_key[k] == gap[k]);
        }
        lemma_first_index_at(after_key, ':', g);
        let raw = after_key.skip(g + 1);
        assert(raw == space + rest);
        let n = space.len() as int;
        assert forall|k: int| 0 <= k < n implies is_white_space(#[trigger] raw[k]) by {
            assert(raw[k] == space[k]);
        }
        if rest.len() > 0 {
            assert(raw[n] == rest[0]);
        }
        lemma_trimmed_start_at(raw, n);
        assert(raw.skip(n) == rest);
    }
}

/// A string with no backslash in it stands for itself; of an escaped slash or quote the backslash
/// goes, and of two backslashes one.
pub proof fn law_escapes(front: Seq<char>, back: Seq<char>)
    requires
        !has_char(front, '\\'),
        !has_char(back, '\\'),
    ensures
        unescaped(front) == front,
        unescaped(front + seq!['\\', '/'] + back) == front + seq!['/'] + back,
        unescaped(front + seq!['\\', '"'] + back) == front + seq!['"'] + back,
        back.len() == 0 || back[0] != '/' && back[0] != '"' ==> unescaped(
            front + seq!['\\', '\\'] + back,
        ) == front + seq!['\\'] + back,
{
    lemma_unescaped_plain(front);
    lemma_unescaped_plain(front + seq!['/'] + back);
    lemma_unescaped_plain(front + seq!['"'] + back);
    lemma_escape(front, '/', back, '/', seq!['/']);
    lemma_escape(front, '"', back, '/', seq!['/']);
    lemma_escape(front, '"', back, '"', seq!['"']);
    lemma_escape(front, '\\', back, '/', seq!['/']);
    lemma_escape(front, '\\', back, '"', seq!['"']);
    lemma_escape(front, '\\', back, '\\', seq!['\\']);
}

proof fn lemma_no_backslash(s: Seq<char>, c: char, to: Seq<char>)
    requires
        !has_char(s, '\\'),
    ensures
        replaced(s, seq!['\\', c], to) == s,
    decreases s.len(),
{
    if s.len() > 0 {
        let rest = s.drop_first();
        let from = seq!['\\', c];
        assert forall|i: int| 0 <= i < rest.len() implies #[trigger] rest[i] != '\\' by {
            assert(rest[i] == s[i + 1]);
        }
        lemma_no_backslash(rest, c, to);
        assert(s[0] != '\\');
        assert(!starts_with(s, from)) by {
            if s.len() >= 2 {
                assert(s.take(2)[0] == s[0]);
                assert(from[0] == '\\');
            }
        }
        assert(seq![s[0]] + rest == s);
    }
}

proof fn lemma_unescaped_plain(s: Seq<char>)
    requires
        !has_char(s, '\\'),
    ensures
        replaced(s, seq!['\\', '/'], seq!['/']) == s,
        replaced(s, seq!['\\', '"'], seq!['"']) == s,
        replaced(s, seq!['\\', '\\'], seq!['\\']) == s,
{
    lemma_no_backslash(s, '/', seq!['/']);
    lemma_no_backslash(s, '"', seq!['"']);
    lemma_no_backslash(s, '\\', seq!['\\']);
}

/// What replacing the escape of one character does to a text with one escape in it.
proof fn lemma_escape(front: Seq<char>, c: char, back: Seq<char>, d: char, to: Seq<char>)
    requires
        !has_char(front, '\\'),
        !has_char(back, '\\'),
    ensures
        c == d ==> replaced(front + seq!['\\', c] + back, seq!['\\', d], to) == front + to + back,
        c != d && (c != '\\' || (back.len() > 0 ==> back[0] != d)) ==> replaced(
            front + seq!['\\', c] + back,
            seq!['\\', d],
            to,
        ) == front + seq!['\\', c] + back,
    decreases front.len(),
{
    let s = front + seq!['\\', c] + back;
    let from = seq!['\\', d];
    lemma_no_backslash(back, d, to);
    if front.len() > 0 {
        let rest = front.drop_first();
        assert forall|i: int| 0 <= i < rest.len() implies #[trigger] rest[i] != '\\' by {
            assert(rest[i] == front[i + 1]);
        }
        lemma_escape(rest, c, back, d, to);
        assert(s[0] == front[0]);
        assert(front[0] != '\\');
        assert(!starts_with(s, from)) by {
            assert(s.take(2)[0] == s[0]);
        }
        assert(s.drop_first() == rest + seq!['\\', c] + back);
        assert(seq![front[0]] + (rest + to + back) == front + to + back);
        assert(seq![front[0]] + (rest + seq!['\\', c] + back) == s);
    } else {
        assert(s == seq!['\\', c] + back);
        assert(s.take(2) == seq!['\\', c]);
        if c == d {
            assert(starts_with(s, from));
            assert(s.skip(2) == back);
            assert(front + to + back == to + back);
        } else {
            assert(!starts_with(s, from)) by {
                assert(seq!['\\', c][1] != from[1]);
            }
            let t = s.drop_first();
            assert(t == seq![c] + back);
            if c != '\\' || back.len() == 0 || back[0] != d {
                assert(!starts_with(t, from)) by {
                    assert(from[0] == '\\' && from[1] == d);
                    if t.len() >= 2 {
                        assert(t.take(2)[0] == c);
                        assert(t.take(2)[1] == back[0]);
                    }
                }
                assert(t.drop_first() == back);
                assert(seq![t[0]] + back == t);
                assert(replaced(t, from, to) == t);
                assert(seq![s[0]] + t == s);
            }
        }
    }
}

// Picking.

/// A page is picked by its number, counted from one; zero picks the first too. A number that no page
/// has, and anything that is no number, is itself the page.
pub proof fn law_picking(urls: Seq<Seq<char>>, number: u64, text: Seq<char>)
    ensures
        1 <= number <= urls.len() ==> picked_url(urls, decimal_of(number as nat)) == urls[number
            - 1],
        number == 0 && urls.len() > 0 ==> picked_url(urls, decimal_of(number as nat)) == urls[0],
        number > urls.len() || urls.len() == 0 ==> picked_url(urls, decimal_of(number as nat))
            == decimal_of(number as nat),
        number_of(text) is Err ==> picked_url(urls, text) == text,
        number_of(text) == number_of(decimal_of(number as nat)) && number <= urls.len()
            && urls.len() > 0 ==> picked_url(urls, text) == picked_url(
            urls,
            decimal_of(number as nat),
        ),
{
    law_decimal_reads_back(number);
}

// Order.

/// Texts are ordered by the first character in which they differ, and a text stands before a longer
/// one that begins with it.
pub proof fn law_order(front: Seq<char>, a: Seq<char>, b: Seq<char>)
    ensures
        a.len() > 0 && b.len() > 0 && a[0] != b[0] ==> (text_before(front + a, front + b) <==> a[0]
            < b[0]),
        b.len() > 0 ==> text_before(front, front + b),
        !text_before(front + a, front),
    decreases front.len(),
{
    if front.len() > 0 {
        let rest = front.drop_first();
        law_order(rest, a, b);
        assert((front + a).drop_first() == rest + a);
        assert((front + b).drop_first() == rest + b);
    } else {
        assert(front + a == a);
        assert(front + b == b);
    }
}

} // verus!
