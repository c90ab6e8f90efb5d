//! The pages that a running Chromium says it has open.
use crate::number::{number_of, parse_u64};
use crate::text::{
    chars_of, find_from, find_text_from, first_index, has_prefix, lemma_first_index_bounds,
    lemma_text_index, lemma_trimmed_start_at, replace, replaced, starts_with, substring,
    text_index, trimmed_start, white_space, is_white_space,
};
use vstd::prelude::*;

verus! {

// Escapes.

/// A JSON string with its escaped slashes, quotes and backslashes turned back, in that order.
pub open spec fn unescaped(value: Seq<char>) -> Seq<char> {
    replaced(
        replaced(replaced(value, seq!['\\', '/'], seq!['/']), seq!['\\', '"'], seq!['"']),
        seq!['\\', '\\'],
        seq!['\\'],
    )
}

pub fn unescape_json_string(value: &str) -> (s: String)
    ensures
        s@ == unescaped(value@),
{
    proof {
        reveal_strlit("\\/");
        reveal_strlit("/");
        reveal_strlit("\\\"");
        reveal_strlit("\"");
        reveal_strlit("\\\\");
        reveal_strlit("\\");
        assert("\\/"@ == seq!['\\', '/']);
        assert("/"@ == seq!['/']);
        assert("\\\""@ == seq!['\\', '"']);
        assert("\""@ == seq!['"']);
        assert("\\\\"@ == seq!['\\', '\\']);
        assert("\\"@ == seq!['\\']);
    }
    let slashes = replace(value, "\\/", "/");
    let quotes = replace(&slashes, "\\\"", "\"");
    replace(&quotes, "\\\\", "\\")
}

// Finding the URLs.

/// The key before a URL.
pub open spec fn url_key() -> Seq<char> {
    seq!['"', 'u', 'r', 'l', '"']
}

pub open spec fn is_web_url(url: Seq<char>) -> bool {
    starts_with(url, "http://"@) || starts_with(url, "https://"@)
}

/// The web URLs in a response, in order: of each key `"url"`, the string behind the colon that
/// follows it.
pub open spec fn urls_in(text: Seq<char>) -> Seq<Seq<char>>
    decreases text.len(),
    via urls_in_decreases
{
    match text_index(text, url_key()) {
        None => seq![],
        Some(at) => {
            let after_key = text.skip(at + 5);
            let colon = first_index(after_key, ':');
            if colon == after_key.len() {
                seq![]
            } else {
                let value = trimmed_start(after_key.skip(colon + 1));
                if value.len() == 0 || value[0] != '"' {
                    urls_in(value)
                } else {
                    let inside = value.skip(1);
                    let end = first_index(inside, '"');
                    if end == inside.len() {
                        seq![]
                    } else {
                        let url = unescaped(inside.take(end));
                        let rest = urls_in(inside.skip(end + 1));
                        if is_web_url(url) {
                            seq![url] + rest
                        } else {
                            rest
                        }
                    }
                }
            }
        },
    }
}

proof fn lemma_trimmed_start_shorter(s: Seq<char>)
    ensures
        trimmed_start(s).len() <= s.len(),
    decreases s.len(),
{
    if s.len() > 0 && is_white_space(s[0]) {
        lemma_trimmed_start_shorter(s.drop_first());
    }
}

/// The parts of a text around the first URL in it lie where they should.
proof fn lemma_url_parts(text: Seq<char>)
    ensures
        text_index(text, url_key()) matches Some(at) ==> {
            let after_key = text.skip(at + 5);
            let colon = first_index(after_key, ':');
            let value = trimmed_start(after_key.skip(colon + 1));
            &&& 0 <= at <= text.len() - 5
            &&& 0 <= colon <= after_key.len()
            &&& colon < after_key.len() ==> value.len() < after_key.len()
            &&& value.len() > 0 ==> 0 <= first_index(value.skip(1), '"') < value.len()
        },
{
    lemma_text_index(text, url_key());
    if let Some(at) = text_index(text, url_key()) {
        let after_key = text.skip(at + 5);
        let colon = first_index(after_key, ':');
        let value = trimmed_start(after_key.skip(colon + 1));
        lemma_first_index_bounds(after_key, ':');
        lemma_trimmed_start_shorter(after_key.skip(colon + 1));
        if value.len() > 0 {
            lemma_first_index_bounds(value.skip(1), '"');
        }
    }
}

#[via_fn]
proof fn urls_in_decreases(text: Seq<char>) {
    lemma_url_parts(text);
}

/// Every URL that is found is one of the web.
pub proof fn law_found_urls_are_web(text: Seq<char>)
    ensures
        forall|i: int| 0 <= i < urls_in(text).len() ==> is_web_url(#[trigger] urls_in(text)[i]),
    decreases text.len(),
{
    lemma_url_parts(text);
    if let Some(at) = text_index(text, url_key()) {
        let after_key = text.skip(at + 5);
        let colon = first_index(after_key, ':');
        if colon < after_key.len() {
            let value = trimmed_start(after_key.skip(colon + 1));
            if value.len() == 0 || value[0] != '"' {
                law_found_urls_are_web(value);
                assert(urls_in(text) == urls_in(value));
            } else {
                let inside = value.skip(1);
                let end = first_index(inside, '"');
                if end < inside.len() {
                    let rest = urls_in(inside.skip(end + 1));
                    law_found_urls_are_web(inside.skip(end + 1));
                    assert forall|i: int| 0 <= i < urls_in(text).len() implies is_web_url(
                        #[trigger] urls_in(text)[i],
                    ) by {
                        if urls_in(text).len() == rest.len() {
                            assert(urls_in(text)[i] == rest[i]);
                        } else if i > 0 {
                            assert(urls_in(text)[i] == rest[i - 1]);
                        }
                    }
                } else {
                    assert(urls_in(text).len() == 0);
                }
            }
        } else {
            assert(urls_in(text).len() == 0);
        }
    } else {
        assert(urls_in(text).len() == 0);
    }
}

fn find_urls(response: &str) -> (r: Vec<String>)
    ensures
        r.deep_view() == urls_in(response@),
{
    let cs = chars_of(response);
    let key = chars_of("\"url\"");
    proof {
        reveal_strlit("\"url\"");
        assert(key@ == url_key());
        assert(cs@.skip(0) == cs@);
    }
    let mut r: Vec<String> = Vec::new();
    let mut at: usize = 0;
    assert(r.deep_view() + urls_in(cs@) == urls_in(cs@));
    loop
        invariant
            cs@ == response@,
            key@ == url_key(),
            at <= cs.len(),
            r.deep_view() + urls_in(cs@.skip(at as int)) == urls_in(response@),
        decreases cs.len() - at,
    {
        let ghost text = cs@.skip(at as int);
        let ghost none = Seq::<Seq<char>>::empty();
        assert(r.deep_view() + none == r.deep_view());
        let start = match find_text_from(&cs, at, &key) {
            Some(i) => i + key.len(),
            None => {
                return r;
            },
        };
        let ghost after_key = cs@.skip(start as int);
        assert(text.skip(start - at) == after_key);
        let colon = find_from(&cs, start, ':');
        if colon == cs.len() {
            return r;
        }
        let mut value = colon + 1;
        let ghost raw = cs@.skip(value as int);
        assert(after_key.skip(colon - start + 1) == raw);
        while value < cs.len() && white_space(cs[value])
            invariant
                colon < value <= cs.len(),
                raw == cs@.skip(colon + 1),
                forall|k: int| 0 <= k < value - colon - 1 ==> is_white_space(#[trigger] raw[k]),
            decreases cs.len() - value,
        {
            assert(raw[value - colon - 1] == cs@[value as int]);
            value += 1;
        }
        proof {
            if value < cs.len() {
                assert(raw[value - colon - 1] == cs@[value as int]);
            }
            lemma_trimmed_start_at(raw, value - colon - 1);
            assert(raw.skip(value - colon - 1) == cs@.skip(value as int));
        }
        if value == cs.len() || cs[value] != '"' {
            at = value;
            continue;
        }
        let ghost inside = cs@.skip(value + 1);
        assert(cs@.skip(value as int).skip(1) == inside);
        let end = find_from(&cs, value + 1, '"');
        if end == cs.len() {
            return r;
        }
        let url = unescape_json_string(&substring(&cs, value + 1, end));
        proof {
            assert(cs@.subrange(value + 1, end as int) == inside.take(end - value - 1));
            assert(inside.skip(end - value) == cs@.skip(end + 1));
        }
        let ghost before = r.deep_view();
        let ghost rest = urls_in(cs@.skip(end + 1));
        if has_prefix(&url, "http://") || has_prefix(&url, "https://") {
            r.push(url);
            proof {
                assert(r.deep_view() == before.push(url@));
                assert(before.push(url@) + rest == before + (seq![url@] + rest));
            }
        }
        at = end + 1;
    }
}

// Sorting.

/// Whether `a` comes before `b`: at the first place where they differ, the smaller character
/// does; a text comes before those that it begins.
pub open spec fn text_before(a: Seq<char>, b: Seq<char>) -> bool
    decreases a.len(),
{
    if b.len() == 0 {
        false
    } else if a.len() == 0 {
        true
    } else if a[0] != b[0] {
        a[0] < b[0]
    } else {
        text_before(a.drop_first(), b.drop_first())
    }
}

/// Each text comes before those behind it; so none occurs twice.
pub open spec fn is_sorted(texts: Seq<Seq<char>>) -> bool {
    forall|i: int, j: int|
        0 <= i < j < texts.len() ==> text_before(#[trigger] texts[i], #[trigger] texts[j])
}

pub proof fn lemma_before_transitive(a: Seq<char>, b: Seq<char>, c: Seq<char>)
    requires
        text_before(a, b),
        text_before(b, c),
    ensures
        text_before(a, c),
    decreases a.len(),
{
    if a.len() > 0 && b.len() > 0 && a[0] == b[0] && b[0] == c[0] {
        lemma_before_transitive(a.drop_first(), b.drop_first(), c.drop_first());
    }
}

pub proof fn lemma_before_total(a: Seq<char>, b: Seq<char>)
    ensures
        a == b || text_before(a, b) || text_before(b, a),
        a == b ==> !text_before(a, b),
        text_before(a, b) ==> !text_before(b, a),
    decreases a.len(),
{
    if a.len() > 0 && b.len() > 0 {
        if a[0] == b[0] {
            lemma_before_total(a.drop_first(), b.drop_first());
            if a.drop_first() == b.drop_first() {
                assert(a == seq![a[0]] + a.drop_first());
                assert(b == seq![b[0]] + b.drop_first());
            }
        }
    } else if a.len() == 0 && b.len() == 0 {
        assert(a == b);
    }
}

/// How two texts stand to each other.
#[derive(Clone, Copy, PartialEq, Eq, Structural)]
enum Place {
    Before,
    Same,
    After,
}

fn place_of(a: &str, b: &str) -> (r: Place)
    ensures
        r == Place::Before <==> text_before(a@, b@),
        r == Place::Same <==> a@ == b@,
        r == Place::After <==> text_before(b@, a@),
{
    let xs = chars_of(a);
    let ys = chars_of(b);
    let mut i: usize = 0;
    proof {
        assert(xs@.skip(0) == xs@);
        assert(ys@.skip(0) == ys@);
        lemma_before_total(a@, b@);
    }
    loop
        invariant
            xs@ == a@,
            ys@ == b@,
            i <= xs.len(),
            i <= ys.len(),
            text_before(xs@.skip(i as int), ys@.skip(i as int)) == text_before(a@, b@),
            text_before(ys@.skip(i as int), xs@.skip(i as int)) == text_before(b@, a@),
            a@ == b@ || text_before(a@, b@) || text_before(b@, a@),
            a@ == b@ ==> !text_before(a@, b@) && !text_before(b@, a@),
            text_before(a@, b@) ==> !text_before(b@, a@),
        decreases xs.len() - i,
    {
        if i == xs.len() {
            return if i == ys.len() {
                Place::Same
            } else {
                Place::Before
            };
        }
        if i == ys.len() {
            return Place::After;
        }
        assert(xs@.skip(i as int)[0] == xs@[i as int]);
        assert(ys@.skip(i as int)[0] == ys@[i as int]);
        if xs[i] < ys[i] {
            return Place::Before;
        }
        if ys[i] < xs[i] {
            return Place::After;
        }
        assert(xs@.skip(i as int).drop_first() == xs@.skip(i + 1));
        assert(ys@.skip(i as int).drop_first() == ys@.skip(i + 1));
        i += 1;
    }
}

/// Puts a text where it belongs among sorted ones, unless it is there already.
fn insert_sorted(sorted: &mut Vec<String>, text: String)
    requires
        is_sorted(old(sorted).deep_view()),
    ensures
        is_sorted(final(sorted).deep_view()),
        forall|t: Seq<char>|
            final(sorted).deep_view().contains(t) <==> old(sorted).deep_view().contains(t) || t
                == text@,
{
    let ghost all = sorted.deep_view();
    let mut i: usize = 0;
    while i < sorted.len()
        invariant
            all == sorted.deep_view(),
            all == old(sorted).deep_view(),
            *sorted == *old(sorted),
            is_sorted(all),
            i <= sorted.len(),
            forall|k: int| 0 <= k < i ==> text_before(#[trigger] all[k], text@),
        ensures
            all == sorted.deep_view(),
            *sorted == *old(sorted),
            i <= sorted.len(),
            forall|k: int| 0 <= k < i ==> text_before(#[trigger] all[k], text@),
            i < sorted.len() ==> text_before(text@, all[i as int]),
        decreases sorted.len() - i,
    {
        assert(all[i as int] == sorted@[i as int]@);
        match place_of(&sorted[i], &text) {
            Place::Before => {
                i += 1;
            },
            Place::Same => {
                assert(all.contains(text@));
                return ;
            },
            Place::After => {
                break;
            },
        }
    }
    let ghost n = i as int;
    let ghost t = text@;
    sorted.insert(i, text);
    proof {
        let after = sorted.deep_view();
        assert(after == all.insert(n, t));
        assert forall|j: int, k: int| 0 <= j < k < after.len() implies text_before(
            #[trigger] after[j],
            #[trigger] after[k],
        ) by {
            if j < n && k > n {
                assert(after[j] == all[j] && after[k] == all[k - 1]);
            } else if j < n && k < n {
                assert(after[j] == all[j] && after[k] == all[k]);
            } else if j < n {
                assert(after[j] == all[j] && after[k] == t);
            } else if j > n {
                assert(after[j] == all[j - 1] && after[k] == all[k - 1]);
            } else {
                assert(after[j] == t && after[k] == all[k - 1]);
                if k - 1 > n {
                    assert(text_before(all[n], all[k - 1]));
                    lemma_before_transitive(t, all[n], all[k - 1]);
                }
            }
        }
        assert forall|u: Seq<char>| after.contains(u) <==> all.contains(u) || u == t by {
            if all.contains(u) {
                let k = choose|k: int| 0 <= k < all.len() && all[k] == u;
                if k < n {
                    assert(after[k] == u);
                } else {
                    assert(after[k + 1] == u);
                }
            }
            if u == t {
                assert(after[n] == u);
            }
            if after.contains(u) && u != t {
                let k = choose|k: int| 0 <= k < after.len() && after[k] == u;
                if k < n {
                    assert(all[k] == u);
                } else {
                    assert(all[k - 1] == u);
                }
            }
        }
    }
}

/// The web URLs in a response of Chromium's DevTools port, each once, in order.
pub fn chromium_debug_urls(response: &str) -> (r: Vec<String>)
    ensures
        is_sorted(r.deep_view()),
        forall|url: Seq<char>| r.deep_view().contains(url) <==> urls_in(response@).contains(url),
{
    let found = find_urls(response);
    let ghost all = found.deep_view();
    let mut r: Vec<String> = Vec::new();
    for i in 0..found.len()
        invariant
            all == found.deep_view(),
            is_sorted(r.deep_view()),
            forall|url: Seq<char>|
                r.deep_view().contains(url) <==> all.take(i as int).contains(url),
    {
        let ghost before = r.deep_view();
        insert_sorted(&mut r, found[i].clone());
        proof {
            assert(all[i as int] == found@[i as int]@);
            let front = all.take(i as int);
            let longer = all.take(i + 1);
            assert(longer == front.push(all[i as int]));
            assert forall|url: Seq<char>| r.deep_view().contains(url) <==> longer.contains(url) by {
                if longer.contains(url) {
                    let k = choose|k: int| 0 <= k < longer.len() && longer[k] == url;
                    if k < i {
                        assert(front[k] == url);
                    }
                }
                if front.contains(url) {
                    let k = choose|k: int| 0 <= k < front.len() && front[k] == url;
                    assert(longer[k] == url);
                }
                if url == all[i as int] {
                    assert(longer[i as int] == url);
                }
            }
        }
    }
    assert(all.take(all.len() as int) == all);
    r
}

/// Two sorted sequences that hold the same texts are the same.
pub proof fn law_sorted_is_unique(a: Seq<Seq<char>>, b: Seq<Seq<char>>)
    requires
        is_sorted(a),
        is_sorted(b),
        forall|t: Seq<char>| a.contains(t) <==> b.contains(t),
    ensures
        a == b,
    decreases a.len(),
{
    if a.len() == 0 {
        if b.len() > 0 {
            assert(b.contains(b[0]));
            assert(a.contains(b[0]));
        }
        assert(a == b);
    } else {
        assert(a.contains(a[0]));
        assert(b.contains(a[0]));
        assert(b.len() > 0);
        assert(b.contains(b[0]));
        assert(a.contains(b[0]));
        let j = choose|j: int| 0 <= j < b.len() && b[j] == a[0];
        let k = choose|k: int| 0 <= k < a.len() && a[k] == b[0];
        if a[0] != b[0] {
            assert(text_before(a[0], a[k]));
            assert(text_before(b[0], b[j]));
            lemma_before_total(a[0], b[0]);
        }
        let x = a.drop_first();
        let y = b.drop_first();
        assert forall|t: Seq<char>| x.contains(t) <==> y.contains(t) by {
            if x.contains(t) {
                let i = choose|i: int| 0 <= i < x.len() && x[i] == t;
                assert(a[i + 1] == t);
                assert(text_before(a[0], a[i + 1]));
                lemma_before_total(a[0], t);
                assert(a.contains(t));
                let m = choose|m: int| 0 <= m < b.len() && b[m] == t;
                assert(y[m - 1] == t);
            }
            if y.contains(t) {
                let i = choose|i: int| 0 <= i < y.len() && y[i] == t;
                assert(b[i + 1] == t);
                assert(text_before(b[0], b[i + 1]));
                lemma_before_total(b[0], t);
                assert(b.contains(t));
                let m = choose|m: int| 0 <= m < a.len() && a[m] == t;
                assert(x[m - 1] == t);
            }
        }
        assert forall|m: int, n: int| 0 <= m < n < x.len() implies text_before(
            #[trigger] x[m],
            #[trigger] x[n],
        ) by {
            assert(text_before(a[m + 1], a[n + 1]));
        }
        assert forall|m: int, n: int| 0 <= m < n < y.len() implies text_before(
            #[trigger] y[m],
            #[trigger] y[n],
        ) by {
            assert(text_before(b[m + 1], b[n + 1]));
        }
        law_sorted_is_unique(x, y);
        assert(a == seq![a[0]] + x);
        assert(b == seq![b[0]] + y);
    }
}

// Picking one.

/// The URL that an answer picks: the one of that number, counted from 1, or else the answer
/// itself. The number 0 picks the first.
pub open spec fn picked_url(urls: Seq<Seq<char>>, choice: Seq<char>) -> Seq<char> {
    match number_of(choice) {
        Err(_) => choice,
        Ok(number) => {
            let index = if number == 0 {
                0
            } else {
                number - 1
            };
            if index < urls.len() {
                urls[index]
            } else {
                choice
            }
        },
    }
}

pub fn choose_web_url(urls: &Vec<String>, choice: &str) -> (url: String)
    ensures
        url@ == picked_url(urls.deep_view(), choice@),
{
    if let Ok(number) = parse_u64(choice) {
        let index: u64 = if number == 0 {
            0
        } else {
            number - 1
        };
        if index < urls.len() as u64 {
            assert(urls.deep_view()[index as int] == urls@[index as int]@);
            return urls[index as usize].clone();
        }
    }
    choice.to_owned()
}

} // verus!
