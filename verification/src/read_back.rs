//! What reading a config gives back of what writing it put down.
use crate::config::{
    no_config, no_text_entry, no_timed_event, AppKind, AppView, BlockView, ConfigView,
    DurationView, KillRuleView, TextCommandView, TextEntryView, TimedEventView,
};
use crate::error::ErrorView;
use crate::facts::{
    has_char, is_line_text, lemma_concat_chars, lemma_cut_at, lemma_cut_parts,
    lemma_lines_of_unlines, lemma_pieces_chars, lemma_pieces_one, lemma_pieces_push,
    lemma_trimmed_chars, lemma_trimmed_iff, lemma_trimmed_twice,
};
use crate::fold::{fold, lemma_fold_concat, lemma_fold_keeps};
use crate::format::{
    action_text, app_lines, app_writer, bool_text, command_text, commands_text, config_lines,
    config_text, entry_lines, entry_writer, event_lines,
    event_writer, kill_lines, kill_writer, kind_lines, kind_text, pair_lines, rerun_lines, title_lines,
};
use crate::number::{
    decimal_of, law_decimal_reads_back, lemma_decimal_digits, lemma_number_chars,
};
use crate::parse::{
    app_of, app_pair_step, block_step, config_of, entry_of, entry_pair_step, event_of, event_pair_step, fresh_app,
    fresh_kill, header_block, is_comment, is_header, kill_of, kill_pair_step, line_effect,
    line_step, nothing_read, rerun_of, with_pair, Pair, Progress,
};
use crate::text::{
    cut, each, is_ascii_digit, is_ascii_letter, is_white_space, lemma_trimmed_start_at, pieces,
    trimmed, without_return,
};
use crate::validate::{
    app_check, config_check, is_named, is_valid, law_validation_is_complete,
};
use crate::values::{
    command_of, command_step, commands_of, duration_of, without_letters, Stop,
};
use crate::words::{
    is_plain, lemma_actions, lemma_app_keys, lemma_block_names, lemma_bools, lemma_command_texts,
    lemma_commands, lemma_headers, lemma_kill_keys, lemma_kinds, lemma_plain, lemma_refresh_keys,
    lemma_text_keys, lemma_titles,
};
use vstd::prelude::*;

verus! {

// Lines to blocks.

/// Reading `ls` after any number of lines turns the blocks `before` into the blocks `after`.
pub open spec fn reads(ls: Seq<Seq<char>>, before: Seq<BlockView>, after: Seq<BlockView>) -> bool {
    forall|n: nat|
        #[trigger] fold(Progress { count: n, blocks: before }, ls, line_step()) == Ok::<
            Progress,
            ErrorView,
        >(Progress { count: n + ls.len(), blocks: after })
}

proof fn lemma_reads_concat(
    a: Seq<Seq<char>>,
    b: Seq<Seq<char>>,
    x: Seq<BlockView>,
    y: Seq<BlockView>,
    z: Seq<BlockView>,
)
    requires
        reads(a, x, y),
        reads(b, y, z),
    ensures
        reads(a + b, x, z),
{
    assert forall|n: nat|
        #[trigger] fold(Progress { count: n, blocks: x }, a + b, line_step()) == Ok::<
            Progress,
            ErrorView,
        >(Progress { count: n + (a + b).len(), blocks: z }) by {
        let p = Progress { count: n, blocks: x };
        let q = Progress { count: n + a.len(), blocks: y };
        lemma_fold_concat(p, a, b, line_step());
        assert(fold(p, a, line_step()) == Ok::<Progress, ErrorView>(q));
        assert(fold(q, b, line_step()) == Ok::<Progress, ErrorView>(
            Progress { count: n + a.len() + b.len(), blocks: z },
        ));
    }
}

proof fn lemma_reads_nothing(x: Seq<BlockView>)
    ensures
        reads(seq![], x, x),
{
}

/// One line is read as its effect says, if that is the same whatever its number.
proof fn lemma_reads_line(line: Seq<char>, x: Seq<BlockView>, y: Seq<BlockView>)
    requires
        forall|n: nat|
            #[trigger] line_effect(x, n, line) == Ok::<Seq<BlockView>, ErrorView>(y),
    ensures
        reads(seq![line], x, y),
{
    let ls = seq![line];
    assert(ls.drop_last() == Seq::<Seq<char>>::empty());
    assert forall|n: nat|
        #[trigger] fold(Progress { count: n, blocks: x }, ls, line_step()) == Ok::<
            Progress,
            ErrorView,
        >(Progress { count: n + ls.len(), blocks: y }) by {
        let p = Progress { count: n, blocks: x };
        assert(fold(p, ls.drop_last(), line_step()) == Ok::<Progress, ErrorView>(p));
        assert(line_effect(x, n + 1, line) == Ok::<Seq<BlockView>, ErrorView>(y));
    }
}

/// The pairs that a written pair is read as: none if it has no value.
pub open spec fn pairs_of(key: Seq<char>, value: Seq<char>) -> Seq<Pair> {
    if value.len() == 0 {
        seq![]
    } else {
        seq![(key, value)]
    }
}

/// The last block with more pairs.
pub open spec fn extended(blocks: Seq<BlockView>, pairs: Seq<Pair>) -> Seq<BlockView> {
    blocks.drop_last().push(
        BlockView { name: blocks.last().name, pairs: blocks.last().pairs + pairs },
    )
}

proof fn lemma_reads_pair(key: Seq<char>, value: Seq<char>, blocks: Seq<BlockView>)
    requires
        is_plain(key),
        trimmed(value) == value,
        blocks.len() > 0,
    ensures
        reads(pair_lines(key, value), blocks, extended(blocks, pairs_of(key, value))),
{
    if value.len() == 0 {
        assert(extended(blocks, seq![]) == blocks) by {
            assert(blocks.last().pairs + Seq::<Pair>::empty() == blocks.last().pairs);
        }
        lemma_reads_nothing(blocks);
    } else {
        let line = key.push('=') + value;
        lemma_plain(key);
        lemma_trimmed_iff(value);
        assert(line[0] == key[0]);
        assert(line.last() == value.last());
        lemma_trimmed_iff(line);
        lemma_cut_at(key, '=', value);
        let after = extended(blocks, pairs_of(key, value));
        assert(after == blocks.drop_last().push(with_pair(blocks.last(), key, value))) by {
            assert(blocks.last().pairs + seq![(key, value)] == blocks.last().pairs.push(
                (key, value),
            ));
        }
        assert forall|n: nat|
            #[trigger] line_effect(blocks, n, line) == Ok::<Seq<BlockView>, ErrorView>(after) by {
            assert(!is_comment(line));
            assert(!is_header(line));
        }
        lemma_reads_line(line, blocks, after);
    }
}

proof fn lemma_reads_header(name: Seq<char>, line: Seq<char>, blocks: Seq<BlockView>)
    requires
        is_plain(name),
        line == seq!['['] + name + seq![']'],
    ensures
        reads(seq![line], blocks, blocks.push(BlockView { name, pairs: seq![] })),
{
    lemma_plain(name);
    assert(line[0] == '[');
    assert(line.last() == ']');
    lemma_trimmed_iff(line);
    assert(line.subrange(1, line.len() - 1) == name);
    let after = blocks.push(BlockView { name, pairs: seq![] });
    assert(header_block(line) == BlockView { name, pairs: seq![] });
    assert forall|n: nat|
        #[trigger] line_effect(blocks, n, line) == Ok::<Seq<BlockView>, ErrorView>(after) by {}
    lemma_reads_line(line, blocks, after);
}

proof fn lemma_reads_comment(line: Seq<char>, blocks: Seq<BlockView>)
    requires
        is_comment(trimmed(line)),
    ensures
        reads(seq![line], blocks, blocks),
{
    assert forall|n: nat|
        #[trigger] line_effect(blocks, n, line) == Ok::<Seq<BlockView>, ErrorView>(blocks) by {}
    lemma_reads_line(line, blocks, blocks);
}

/// Lines that make one new block, and the block.
pub open spec fn makes(ls: Seq<Seq<char>>, block: BlockView) -> bool {
    forall|blocks: Seq<BlockView>| #[trigger] reads(ls, blocks, blocks.push(block))
}

proof fn lemma_makes_header(name: Seq<char>, line: Seq<char>)
    requires
        is_plain(name),
        line == seq!['['] + name + seq![']'],
    ensures
        makes(seq![line], BlockView { name, pairs: seq![] }),
{
    let block = BlockView { name, pairs: seq![] };
    assert forall|blocks: Seq<BlockView>| #[trigger] reads(seq![line], blocks, blocks.push(block)) by {
        lemma_reads_header(name, line, blocks);
    }
}

proof fn lemma_makes_pair(ls: Seq<Seq<char>>, block: BlockView, key: Seq<char>, value: Seq<char>)
    requires
        makes(ls, block),
        is_plain(key),
        trimmed(value) == value,
    ensures
        makes(
            ls + pair_lines(key, value),
            BlockView { name: block.name, pairs: block.pairs + pairs_of(key, value) },
        ),
{
    let after = BlockView { name: block.name, pairs: block.pairs + pairs_of(key, value) };
    assert forall|blocks: Seq<BlockView>|
        #[trigger] reads(ls + pair_lines(key, value), blocks, blocks.push(after)) by {
        let mid = blocks.push(block);
        assert(reads(ls, blocks, mid));
        lemma_reads_pair(key, value, mid);
        assert(mid.drop_last() == blocks);
        assert(extended(mid, pairs_of(key, value)) == blocks.push(after));
        lemma_reads_concat(ls, pair_lines(key, value), blocks, mid, blocks.push(after));
    }
}

proof fn lemma_makes_blank(ls: Seq<Seq<char>>, block: BlockView)
    requires
        makes(ls, block),
    ensures
        makes(ls + seq![seq![]], block),
{
    let blank = seq![Seq::<char>::empty()];
    assert forall|blocks: Seq<BlockView>|
        #[trigger] reads(ls + blank, blocks, blocks.push(block)) by {
        assert(reads(ls, blocks, blocks.push(block)));
        lemma_trimmed_iff(Seq::<char>::empty());
        lemma_reads_comment(Seq::<char>::empty(), blocks.push(block));
        lemma_reads_concat(ls, blank, blocks, blocks.push(block), blocks.push(block));
    }
}

/// Items that each make a block make their blocks one after the other.
proof fn lemma_makes_each<A>(
    items: Seq<A>,
    writer: spec_fn(A) -> Seq<Seq<char>>,
    block: spec_fn(A) -> BlockView,
    before: Seq<BlockView>,
)
    requires
        forall|i: int| 0 <= i < items.len() ==> makes(writer(#[trigger] items[i]), block(items[i])),
    ensures
        reads(each(items, writer), before, before + items.map_values(block)),
    decreases items.len(),
{
    if items.len() == 0 {
        lemma_reads_nothing(before);
        assert(before + items.map_values(block) == before);
    } else {
        let front = items.drop_last();
        assert forall|i: int| 0 <= i < front.len() implies makes(
            writer(#[trigger] front[i]),
            block(front[i]),
        ) by {
            assert(front[i] == items[i]);
        }
        lemma_makes_each(front, writer, block, before);
        let mid = before + front.map_values(block);
        let last = items[items.len() - 1];
        assert(makes(writer(last), block(last)));
        assert(reads(writer(last), mid, mid.push(block(last))));
        assert(mid.push(block(last)) == before + items.map_values(block));
        lemma_reads_concat(
            each(front, writer),
            writer(last),
            before,
            mid,
            mid.push(block(last)),
        );
    }
}

// Written lines hold no line ending of their own.

pub open spec fn is_whole_line(line: Seq<char>) -> bool {
    !has_char(line, '\n') && without_return(line) == line
}

pub open spec fn are_whole_lines(ls: Seq<Seq<char>>) -> bool {
    forall|i: int| 0 <= i < ls.len() ==> is_whole_line(#[trigger] ls[i])
}

proof fn lemma_whole_concat(a: Seq<Seq<char>>, b: Seq<Seq<char>>)
    requires
        are_whole_lines(a),
        are_whole_lines(b),
    ensures
        are_whole_lines(a + b),
{
    assert forall|i: int| 0 <= i < (a + b).len() implies is_whole_line(#[trigger] (a + b)[i]) by {
        if i < a.len() {
            assert((a + b)[i] == a[i]);
        } else {
            assert((a + b)[i] == b[i - a.len()]);
        }
    }
}

proof fn lemma_whole_pair(key: Seq<char>, value: Seq<char>)
    requires
        is_plain(key),
        is_line_text(value),
    ensures
        are_whole_lines(pair_lines(key, value)),
{
    if value.len() > 0 {
        let line = key.push('=') + value;
        lemma_plain(key);
        lemma_trimmed_iff(value);
        assert(!has_char(key, '\n'));
        assert(!has_char(key.push('='), '\n'));
        lemma_concat_chars(key.push('='), value, '\n');
        assert(line.last() == value.last());
        assert(pair_lines(key, value) == seq![line]);
    }
}

proof fn lemma_whole_header(name: Seq<char>, line: Seq<char>)
    requires
        is_plain(name),
        line == seq!['['] + name + seq![']'],
    ensures
        are_whole_lines(seq![line]),
{
    lemma_plain(name);
    assert(!has_char(name, '\n'));
    assert(!has_char(seq!['['], '\n'));
    assert(!has_char(seq![']'], '\n'));
    lemma_concat_chars(seq!['['], name, '\n');
    lemma_concat_chars(seq!['['] + name, seq![']'], '\n');
    assert(line.last() == ']');
}

proof fn lemma_whole_blank()
    ensures
        are_whole_lines(seq![Seq::<char>::empty()]),
{
}

proof fn lemma_whole_each<A>(items: Seq<A>, writer: spec_fn(A) -> Seq<Seq<char>>)
    requires
        forall|i: int| 0 <= i < items.len() ==> are_whole_lines(writer(#[trigger] items[i])),
    ensures
        are_whole_lines(each(items, writer)),
    decreases items.len(),
{
    if items.len() > 0 {
        let front = items.drop_last();
        assert forall|i: int| 0 <= i < front.len() implies are_whole_lines(
            writer(#[trigger] front[i]),
        ) by {
            assert(front[i] == items[i]);
        }
        lemma_whole_each(front, writer);
        assert(are_whole_lines(writer(items[items.len() - 1])));
        lemma_whole_concat(each(front, writer), writer(items.last()));
    }
}

// Blocks to values.

/// One more pair: a pair without a value changes nothing.
proof fn lemma_fold_pair<S, E>(
    start: S,
    front: Seq<Pair>,
    step: spec_fn(S, Pair) -> Result<S, E>,
    key: Seq<char>,
    value: Seq<char>,
    mid: S,
    after: S,
)
    requires
        fold(start, front, step) == Ok::<S, E>(mid),
        value.len() == 0 ==> after == mid,
        value.len() > 0 ==> step(mid, (key, value)) == Ok::<S, E>(after),
    ensures
        fold(start, front + pairs_of(key, value), step) == Ok::<S, E>(after),
{
    if value.len() == 0 {
        assert(front + pairs_of(key, value) == front);
    } else {
        let all = front + pairs_of(key, value);
        assert(all.drop_last() == front);
        assert(all.last() == (key, value));
    }
}

proof fn lemma_no_text(s: Seq<char>)
    ensures
        s.len() == 0 ==> s == Seq::<char>::empty(),
{
}

/// Lines that add pairs to the block before them.
#[verifier::opaque]
pub open spec fn adds(ls: Seq<Seq<char>>, pairs: Seq<Pair>) -> bool {
    forall|front: Seq<Seq<char>>, block: BlockView| #[trigger]
        makes(front, block) ==> makes(
            front + ls,
            BlockView { name: block.name, pairs: block.pairs + pairs },
        )
}

proof fn lemma_adds(ls: Seq<Seq<char>>, pairs: Seq<Pair>, front: Seq<Seq<char>>, block: BlockView)
    requires
        adds(ls, pairs),
        makes(front, block),
    ensures
        makes(front + ls, BlockView { name: block.name, pairs: block.pairs + pairs }),
{
    reveal(adds);
}

proof fn lemma_adds_pair(key: Seq<char>, value: Seq<char>)
    requires
        is_plain(key),
        is_line_text(value),
    ensures
        adds(pair_lines(key, value), pairs_of(key, value)),
        are_whole_lines(pair_lines(key, value)),
{
    assert forall|front: Seq<Seq<char>>, block: BlockView| #[trigger] makes(
        front,
        block,
    ) implies makes(
        front + pair_lines(key, value),
        BlockView { name: block.name, pairs: block.pairs + pairs_of(key, value) },
    ) by {
        lemma_makes_pair(front, block, key, value);
    }
    reveal(adds);
    lemma_whole_pair(key, value);
}

proof fn lemma_adds_concat(
    a: Seq<Seq<char>>,
    p: Seq<Pair>,
    b: Seq<Seq<char>>,
    q: Seq<Pair>,
)
    requires
        adds(a, p),
        adds(b, q),
        are_whole_lines(a),
        are_whole_lines(b),
    ensures
        adds(a + b, p + q),
        are_whole_lines(a + b),
{
    assert forall|front: Seq<Seq<char>>, block: BlockView| #[trigger] makes(
        front,
        block,
    ) implies makes(
        front + (a + b),
        BlockView { name: block.name, pairs: block.pairs + (p + q) },
    ) by {
        let mid = BlockView { name: block.name, pairs: block.pairs + p };
        lemma_adds(a, p, front, block);
        lemma_adds(b, q, front + a, mid);
        assert((front + a) + b == front + (a + b));
        assert((block.pairs + p) + q == block.pairs + (p + q));
    }
    assert(adds(a + b, p + q)) by {
        reveal(adds);
    }
    lemma_whole_concat(a, b);
}

/// A header and the pairs below it make a block.
proof fn lemma_makes_block(name: Seq<char>, line: Seq<char>, ls: Seq<Seq<char>>, pairs: Seq<Pair>)
    requires
        is_plain(name),
        line == seq!['['] + name + seq![']'],
        adds(ls, pairs),
        are_whole_lines(ls),
    ensures
        makes(seq![line] + ls, BlockView { name, pairs }),
        makes(seq![line] + ls + seq![seq![]], BlockView { name, pairs }),
        are_whole_lines(seq![line] + ls),
        are_whole_lines(seq![line] + ls + seq![seq![]]),
{
    lemma_makes_header(name, line);
    lemma_whole_header(name, line);
    let empty = BlockView { name, pairs: seq![] };
    lemma_adds(ls, pairs, seq![line], empty);
    assert(empty.pairs + pairs == pairs);
    lemma_makes_blank(seq![line] + ls, BlockView { name, pairs });
    lemma_whole_blank();
    lemma_whole_concat(seq![line], ls);
    lemma_whole_concat(seq![line] + ls, seq![Seq::<char>::empty()]);
}

/// One more pair below a header.
proof fn lemma_adds_one(ls: Seq<Seq<char>>, pairs: Seq<Pair>, key: Seq<char>, value: Seq<char>)
    requires
        adds(ls, pairs),
        are_whole_lines(ls),
        is_plain(key),
        is_line_text(value),
    ensures
        adds(ls + pair_lines(key, value), pairs + pairs_of(key, value)),
        are_whole_lines(ls + pair_lines(key, value)),
{
    lemma_adds_pair(key, value);
    lemma_adds_concat(ls, pairs, pair_lines(key, value), pairs_of(key, value));
}

// Kill rules.

pub open spec fn kill_block(kill: KillRuleView) -> BlockView {
    BlockView {
        name: "kill"@,
        pairs: pairs_of("name"@, kill.name) + pairs_of("pattern"@, kill.pattern) + pairs_of(
            "signal"@,
            kill.signal,
        ),
    }
}

/// A kill rule as it is read back.
pub open spec fn restored_kill(kill: KillRuleView) -> KillRuleView {
    KillRuleView {
        signal: if kill.signal.len() == 0 {
            "TERM"@
        } else {
            kill.signal
        },
        ..kill
    }
}

/// A kill rule of which every text fits in one line and which has a pattern.
pub open spec fn is_writable_kill(kill: KillRuleView) -> bool {
    &&& is_line_text(kill.name)
    &&& is_line_text(kill.pattern)
    &&& is_line_text(kill.signal)
    &&& kill.pattern.len() > 0
}

proof fn lemma_kill_lines(kill: KillRuleView)
    requires
        is_writable_kill(kill),
    ensures
        makes(kill_lines(kill), kill_block(kill)),
        are_whole_lines(kill_lines(kill)),
{
    lemma_headers();
    lemma_block_names();
    lemma_kill_keys();
    let l1 = pair_lines("name"@, kill.name);
    let p1 = pairs_of("name"@, kill.name);
    lemma_adds_pair("name"@, kill.name);
    let l2 = l1 + pair_lines("pattern"@, kill.pattern);
    let p2 = p1 + pairs_of("pattern"@, kill.pattern);
    lemma_adds_one(l1, p1, "pattern"@, kill.pattern);
    let l3 = l2 + pair_lines("signal"@, kill.signal);
    lemma_adds_one(l2, p2, "signal"@, kill.signal);
    lemma_makes_block("kill"@, "[kill]"@, l3, kill_block(kill).pairs);
    assert(kill_lines(kill) == seq!["[kill]"@] + l3 + seq![seq![]]);
}

proof fn lemma_kill_read(kill: KillRuleView)
    requires
        is_writable_kill(kill),
    ensures
        kill_of(kill_block(kill)) == Ok::<KillRuleView, ErrorView>(restored_kill(kill)),
{
    lemma_kill_keys();
    lemma_no_text(kill.name);
    let step = kill_pair_step();
    let p0 = Seq::<Pair>::empty();
    let k0 = fresh_kill();
    let p1 = pairs_of("name"@, kill.name);
    assert(p0 + p1 == p1);
    let k1 = KillRuleView { name: kill.name, ..k0 };
    lemma_fold_pair(k0, p0, step, "name"@, kill.name, k0, k1);
    let p2 = p1 + pairs_of("pattern"@, kill.pattern);
    let k2 = KillRuleView { pattern: kill.pattern, ..k1 };
    lemma_fold_pair(k0, p1, step, "pattern"@, kill.pattern, k1, k2);
    lemma_fold_pair(k0, p2, step, "signal"@, kill.signal, k2, restored_kill(kill));
}

// Apps.

pub open spec fn kind_pairs(app: AppView) -> Seq<Pair> {
    match app.kind {
        AppKind::Web => pairs_of("url"@, app.url) + pairs_of("browser"@, app.browser) + pairs_of(
            "browser_args"@,
            app.browser_args,
        ) + pairs_of("profile"@, app.profile),
        AppKind::Native => pairs_of("command"@, app.command) + pairs_of("args"@, app.args),
    }
}

pub open spec fn app_block(app: AppView) -> BlockView {
    BlockView {
        name: "app"@,
        pairs: pairs_of("name"@, app.name) + pairs_of("kind"@, kind_text(app.kind)) + kind_pairs(
            app,
        ) + pairs_of("workspace"@, app.workspace) + pairs_of("match"@, app.match_criteria)
            + pairs_of("layout"@, app.layout) + pairs_of(
            "startup_delay"@,
            decimal_of(app.startup_delay as nat),
        ),
    }
}

/// An app as it is read back: what is only for apps of the other kind is not written.
pub open spec fn restored_app(app: AppView) -> AppView {
    match app.kind {
        AppKind::Web => AppView {
            command: seq![],
            args: seq![],
            browser: if app.browser.len() == 0 {
                "chromium-browser"@
            } else {
                app.browser
            },
            ..app
        },
        AppKind::Native => AppView {
            url: seq![],
            browser: "chromium-browser"@,
            browser_args: seq![],
            profile: seq![],
            ..app
        },
    }
}

/// An app that can be started and of which every text fits in one line.
pub open spec fn is_writable_app(app: AppView) -> bool {
    &&& is_line_text(app.name)
    &&& is_line_text(app.command)
    &&& is_line_text(app.args)
    &&& is_line_text(app.url)
    &&& is_line_text(app.browser)
    &&& is_line_text(app.browser_args)
    &&& is_line_text(app.profile)
    &&& is_line_text(app.workspace)
    &&& is_line_text(app.match_criteria)
    &&& is_line_text(app.layout)
    &&& app_check(app) is Ok
}

/// A number's digits fit in one line.
proof fn lemma_decimal_text(n: u64)
    ensures
        is_line_text(decimal_of(n as nat)),
        decimal_of(n as nat).len() > 0,
{
    lemma_decimal_digits(n as nat);
    let s = decimal_of(n as nat);
    assert(is_ascii_digit(s[0]));
    assert(is_ascii_digit(s[s.len() - 1]));
    lemma_trimmed_iff(s);
    assert forall|i: int| 0 <= i < s.len() implies #[trigger] s[i] != '\n' by {
        assert(is_ascii_digit(s[i]));
    }
}

proof fn lemma_plain_text(word: Seq<char>)
    requires
        is_plain(word),
    ensures
        is_line_text(word),
{
    lemma_plain(word);
    assert(!has_char(word, '\n'));
}

proof fn lemma_kind_lines(app: AppView)
    requires
        is_writable_app(app),
    ensures
        adds(kind_lines(app), kind_pairs(app)),
        are_whole_lines(kind_lines(app)),
{
    lemma_app_keys();
    match app.kind {
        AppKind::Web => {
            let l1 = pair_lines("url"@, app.url);
            let p1 = pairs_of("url"@, app.url);
            lemma_adds_pair("url"@, app.url);
            let l2 = l1 + pair_lines("browser"@, app.browser);
            let p2 = p1 + pairs_of("browser"@, app.browser);
            lemma_adds_one(l1, p1, "browser"@, app.browser);
            let l3 = l2 + pair_lines("browser_args"@, app.browser_args);
            let p3 = p2 + pairs_of("browser_args"@, app.browser_args);
            lemma_adds_one(l2, p2, "browser_args"@, app.browser_args);
            lemma_adds_one(l3, p3, "profile"@, app.profile);
        },
        AppKind::Native => {
            lemma_adds_pair("command"@, app.command);
            lemma_adds_one(
                pair_lines("command"@, app.command),
                pairs_of("command"@, app.command),
                "args"@,
                app.args,
            );
        },
    }
}

proof fn lemma_app_lines(app: AppView)
    requires
        is_writable_app(app),
    ensures
        makes(app_lines(app), app_block(app)),
        are_whole_lines(app_lines(app)),
{
    lemma_headers();
    lemma_block_names();
    lemma_app_keys();
    lemma_kinds();
    let kind = kind_text(app.kind);
    let delay = decimal_of(app.startup_delay as nat);
    lemma_plain_text(kind);
    lemma_decimal_text(app.startup_delay);
    let l1 = pair_lines("name"@, app.name);
    let p1 = pairs_of("name"@, app.name);
    lemma_adds_pair("name"@, app.name);
    let l2 = l1 + pair_lines("kind"@, kind);
    let p2 = p1 + pairs_of("kind"@, kind);
    lemma_adds_one(l1, p1, "kind"@, kind);
    let l3 = l2 + kind_lines(app);
    let p3 = p2 + kind_pairs(app);
    lemma_kind_lines(app);
    lemma_adds_concat(l2, p2, kind_lines(app), kind_pairs(app));
    let l4 = l3 + pair_lines("workspace"@, app.workspace);
    let p4 = p3 + pairs_of("workspace"@, app.workspace);
    lemma_adds_one(l3, p3, "workspace"@, app.workspace);
    let l5 = l4 + pair_lines("match"@, app.match_criteria);
    let p5 = p4 + pairs_of("match"@, app.match_criteria);
    lemma_adds_one(l4, p4, "match"@, app.match_criteria);
    let l6 = l5 + pair_lines("layout"@, app.layout);
    let p6 = p5 + pairs_of("layout"@, app.layout);
    lemma_adds_one(l5, p5, "layout"@, app.layout);
    let l7 = l6 + pair_lines("startup_delay"@, delay);
    lemma_adds_one(l6, p6, "startup_delay"@, delay);
    lemma_makes_block("app"@, "[app]"@, l7, app_block(app).pairs);
    assert(app_lines(app) == seq!["[app]"@] + l7 + seq![seq![]]);
}

/// Reading the pairs that only an app of this kind has.
proof fn lemma_kind_read(app: AppView, front: Seq<Pair>, before: AppView)
    requires
        is_writable_app(app),
        fold(fresh_app(), front, app_pair_step()) == Ok::<AppView, ErrorView>(before),
        before == (AppView { name: app.name, kind: app.kind, ..fresh_app() }),
    ensures
        fold(fresh_app(), front + kind_pairs(app), app_pair_step()) == Ok::<AppView, ErrorView>(
            AppView {
                workspace: seq![],
                match_criteria: seq![],
                layout: seq![],
                startup_delay: 0,
                ..restored_app(app)
            },
        ),
{
    lemma_app_keys();
    lemma_no_text(app.url);
    lemma_no_text(app.browser_args);
    lemma_no_text(app.profile);
    lemma_no_text(app.command);
    lemma_no_text(app.args);
    let start = fresh_app();
    let step = app_pair_step();
    match app.kind {
        AppKind::Web => {
            let p1 = front + pairs_of("url"@, app.url);
            let a1 = AppView { url: app.url, ..before };
            lemma_fold_pair(start, front, step, "url"@, app.url, before, a1);
            let p2 = p1 + pairs_of("browser"@, app.browser);
            let a2 = AppView { browser: restored_app(app).browser, ..a1 };
            lemma_fold_pair(start, p1, step, "browser"@, app.browser, a1, a2);
            let p3 = p2 + pairs_of("browser_args"@, app.browser_args);
            let a3 = AppView { browser_args: app.browser_args, ..a2 };
            lemma_fold_pair(start, p2, step, "browser_args"@, app.browser_args, a2, a3);
            let p4 = p3 + pairs_of("profile"@, app.profile);
            let a4 = AppView { profile: app.profile, ..a3 };
            lemma_fold_pair(start, p3, step, "profile"@, app.profile, a3, a4);
            assert(front + kind_pairs(app) == p4);
        },
        AppKind::Native => {
            let p1 = front + pairs_of("command"@, app.command);
            let a1 = AppView { command: app.command, ..before };
            lemma_fold_pair(start, front, step, "command"@, app.command, before, a1);
            let p2 = p1 + pairs_of("args"@, app.args);
            let a2 = AppView { args: app.args, ..a1 };
            lemma_fold_pair(start, p1, step, "args"@, app.args, a1, a2);
            assert(front + kind_pairs(app) == p2);
        },
    }
}

proof fn lemma_app_read(app: AppView)
    requires
        is_writable_app(app),
    ensures
        app_of(app_block(app)) == Ok::<AppView, ErrorView>(restored_app(app)),
{
    lemma_app_keys();
    lemma_kinds();
    lemma_no_text(app.name);
    lemma_no_text(app.workspace);
    lemma_no_text(app.match_criteria);
    lemma_no_text(app.layout);
    lemma_decimal_text(app.startup_delay);
    law_decimal_reads_back(app.startup_delay);
    let start = fresh_app();
    let step = app_pair_step();
    let kind = kind_text(app.kind);
    let delay = decimal_of(app.startup_delay as nat);
    lemma_plain(kind);
    let p0 = Seq::<Pair>::empty();
    let p1 = pairs_of("name"@, app.name);
    let a1 = AppView { name: app.name, ..start };
    assert(p0 + p1 == p1);
    lemma_fold_pair(start, p0, step, "name"@, app.name, start, a1);
    let p2 = p1 + pairs_of("kind"@, kind);
    let a2 = AppView { kind: app.kind, ..a1 };
    lemma_fold_pair(start, p1, step, "kind"@, kind, a1, a2);
    let p3 = p2 + kind_pairs(app);
    let a3 = AppView {
        workspace: seq![],
        match_criteria: seq![],
        layout: seq![],
        startup_delay: 0,
        ..restored_app(app)
    };
    lemma_kind_read(app, p2, a2);
    let p4 = p3 + pairs_of("workspace"@, app.workspace);
    let a4 = AppView { workspace: app.workspace, ..a3 };
    lemma_fold_pair(start, p3, step, "workspace"@, app.workspace, a3, a4);
    let p5 = p4 + pairs_of("match"@, app.match_criteria);
    let a5 = AppView { match_criteria: app.match_criteria, ..a4 };
    lemma_fold_pair(start, p4, step, "match"@, app.match_criteria, a4, a5);
    let p6 = p5 + pairs_of("layout"@, app.layout);
    let a6 = AppView { layout: app.layout, ..a5 };
    lemma_fold_pair(start, p5, step, "layout"@, app.layout, a5, a6);
    let a7 = AppView { startup_delay: app.startup_delay, ..a6 };
    lemma_fold_pair(start, p6, step, "startup_delay"@, delay, a6, a7);
    assert(a7 == restored_app(app));
}

// Text commands.

/// A text that can be the value of a text command: it has no white space at its ends and holds no
/// semicolon.
pub open spec fn is_command_value(s: Seq<char>) -> bool {
    trimmed(s) == s && !has_char(s, ';')
}

pub open spec fn is_readable_command(command: TextCommandView) -> bool {
    match command {
        TextCommandView::Type(text) => is_command_value(text),
        TextCommandView::TypeEnv(name) => is_command_value(name),
        TextCommandView::Key(key) => is_command_value(key),
        TextCommandView::Wait(_) => true,
    }
}

/// A text command that can be read back and fits in one line.
pub open spec fn is_writable_command(command: TextCommandView) -> bool {
    is_readable_command(command) && match command {
        TextCommandView::Type(text) => !has_char(text, '\n'),
        TextCommandView::TypeEnv(name) => !has_char(name, '\n'),
        TextCommandView::Key(key) => !has_char(key, '\n'),
        TextCommandView::Wait(_) => true,
    }
}

/// Text that begins and ends with something other than white space.
pub open spec fn is_solid(s: Seq<char>) -> bool {
    &&& s.len() > 0
    &&& !is_white_space(s[0])
    &&& !is_white_space(s.last())
}

proof fn lemma_kind_value(kind: Seq<char>, value: Seq<char>)
    requires
        is_plain(kind),
        is_command_value(value),
    ensures
        cut(kind.push(':') + value, ':') == Some((kind, value)),
        is_solid(kind.push(':') + value),
        !has_char(kind.push(':') + value, ';'),
        !has_char(value, '\n') ==> !has_char(kind.push(':') + value, '\n'),
{
    let s = kind.push(':') + value;
    lemma_plain(kind);
    assert(!has_char(kind, ':') && !has_char(kind, ';') && !has_char(kind, '\n'));
    assert(!has_char(kind.push(':'), ';'));
    assert(!has_char(kind.push(':'), '\n'));
    lemma_concat_chars(kind.push(':'), value, ';');
    lemma_concat_chars(kind.push(':'), value, '\n');
    lemma_cut_at(kind, ':', value);
    lemma_trimmed_iff(value);
    assert(s[0] == kind[0]);
    if value.len() > 0 {
        assert(s.last() == value.last());
    } else {
        assert(s.last() == ':');
    }
}

proof fn lemma_decimal_value(n: u64)
    ensures
        is_command_value(decimal_of(n as nat)),
        !has_char(decimal_of(n as nat), '\n'),
{
    lemma_decimal_text(n);
    lemma_decimal_digits(n as nat);
    let s = decimal_of(n as nat);
    assert forall|i: int| 0 <= i < s.len() implies #[trigger] s[i] != ';' by {
        assert(is_ascii_digit(s[i]));
    }
}

proof fn lemma_command_read(command: TextCommandView)
    requires
        is_readable_command(command),
    ensures
        command_of(command_text(command)) == Ok::<TextCommandView, ErrorView>(command),
        is_solid(command_text(command)),
        !has_char(command_text(command), ';'),
        is_writable_command(command) ==> !has_char(command_text(command), '\n'),
{
    lemma_commands();
    lemma_command_texts();
    match command {
        TextCommandView::Type(text) => {
            lemma_plain("type"@);
            lemma_kind_value("type"@, text);
        },
        TextCommandView::TypeEnv(name) => {
            lemma_plain("type_env"@);
            lemma_kind_value("type_env"@, name);
        },
        TextCommandView::Key(key) => {
            lemma_plain("key"@);
            lemma_kind_value("key"@, key);
        },
        TextCommandView::Wait(seconds) => {
            lemma_plain("wait"@);
            lemma_decimal_value(seconds);
            lemma_kind_value("wait"@, decimal_of(seconds as nat));
            law_decimal_reads_back(seconds);
        },
    }
}

pub open spec fn are_readable_commands(commands: Seq<TextCommandView>) -> bool {
    forall|i: int| 0 <= i < commands.len() ==> is_readable_command(#[trigger] commands[i])
}

pub open spec fn are_writable_commands(commands: Seq<TextCommandView>) -> bool {
    forall|i: int| 0 <= i < commands.len() ==> is_writable_command(#[trigger] commands[i])
}

proof fn lemma_commands_read(commands: Seq<TextCommandView>)
    requires
        are_readable_commands(commands),
    ensures
        commands_of(commands_text(commands)) == Ok::<Seq<TextCommandView>, ErrorView>(commands),
        commands.len() > 0 ==> is_solid(commands_text(commands)),
        are_writable_commands(commands) ==> !has_char(commands_text(commands), '\n'),
    decreases commands.len(),
{
    let none = Seq::<TextCommandView>::empty();
    let text = commands_text(commands);
    let step = command_step();
    if commands.len() == 0 {
        lemma_pieces_one(text, ';');
        lemma_trimmed_iff(text);
        assert(seq![text].drop_last() == Seq::<Seq<char>>::empty());
        assert(fold(none, seq![text].drop_last(), step) == Ok::<Seq<TextCommandView>, ErrorView>(
            none,
        ));
        assert(commands == none);
    } else {
        let front = commands.drop_last();
        let last = commands.last();
        let t = command_text(last);
        assert(last == commands[commands.len() - 1]);
        assert forall|i: int| 0 <= i < front.len() implies is_readable_command(
            #[trigger] front[i],
        ) by {
            assert(front[i] == commands[i]);
        }
        if are_writable_commands(commands) {
            assert forall|i: int| 0 <= i < front.len() implies is_writable_command(
                #[trigger] front[i],
            ) by {
                assert(front[i] == commands[i]);
            }
        }
        lemma_commands_read(front);
        lemma_command_read(last);
        lemma_trimmed_iff(t);
        assert(front.push(last) == commands);
        if commands.len() == 1 {
            assert(text == t);
            assert(front == none);
            lemma_pieces_one(t, ';');
            assert(seq![t].drop_last() == Seq::<Seq<char>>::empty());
            assert(fold(none, seq![t].drop_last(), step) == Ok::<Seq<TextCommandView>, ErrorView>(
                none,
            ));
        } else {
            lemma_command_texts();
            let before = commands_text(front);
            let piece = seq![' '] + t;
            assert(text == before.push(';') + piece);
            assert(!has_char(seq![' '], ';'));
            lemma_concat_chars(seq![' '], t, ';');
            lemma_pieces_push(before, ';', piece);
            let ps = pieces(before, ';');
            assert(ps.push(piece).drop_last() == ps);
            assert(trimmed(piece) == t) by {
                assert(piece[0] == ' ');
                assert(piece[1] == t[0]);
                lemma_trimmed_start_at(piece, 1);
                assert(piece.skip(1) == t);
                lemma_trimmed_start_at(t, 0);
                assert(t.skip(0) == t);
            }
            assert(is_solid(text)) by {
                assert(text[0] == before[0]);
                assert(text.last() == t.last());
            }
            if are_writable_commands(commands) {
                assert(!has_char(seq![' '], '\n'));
                lemma_concat_chars(seq![' '], t, '\n');
                assert(!has_char(before.push(';'), '\n'));
                lemma_concat_chars(before.push(';'), piece, '\n');
            }
        }
    }
}

/// What is read from a segment without a semicolon can be read back.
proof fn lemma_read_command(segment: Seq<char>)
    requires
        !has_char(segment, ';'),
        command_of(segment) is Ok,
    ensures
        is_readable_command(command_of(segment)->Ok_0),
{
    lemma_cut_parts(segment, ':');
    let (kind, payload) = cut(segment, ':')->0;
    lemma_concat_chars(kind.push(':'), payload, ';');
    lemma_trimmed_chars(payload, ';');
    lemma_trimmed_twice(payload);
}

/// Whatever text commands are read from, they can be read back.
proof fn lemma_read_commands(value: Seq<char>)
    requires
        commands_of(value) is Ok,
    ensures
        are_readable_commands(commands_of(value)->Ok_0),
{
    let inv = |commands: Seq<TextCommandView>| are_readable_commands(commands);
    let ok = |piece: Seq<char>| !has_char(piece, ';');
    let all = pieces(value, ';');
    lemma_pieces_chars(value, ';', ';');
    assert forall|i: int| 0 <= i < all.len() implies ok(#[trigger] all[i]) by {}
    assert forall|commands: Seq<TextCommandView>, piece: Seq<char>|
        inv(commands) && ok(piece) && (#[trigger] command_step()(commands, piece)) is Ok implies inv(
        command_step()(commands, piece)->Ok_0,
    ) by {
        let segment = trimmed(piece);
        lemma_trimmed_chars(piece, ';');
        if segment.len() > 0 {
            lemma_read_command(segment);
        }
    }
    lemma_fold_keeps(Seq::<TextCommandView>::empty(), all, command_step(), inv, ok);
}

/// Reading the text of text commands gives the commands back if none of their values has white
/// space at its ends or holds a semicolon, and only then.
pub proof fn law_commands_read_back(commands: Seq<TextCommandView>)
    ensures
        commands_of(commands_text(commands)) == Ok::<Seq<TextCommandView>, ErrorView>(commands)
            <==> are_readable_commands(commands),
{
    if are_readable_commands(commands) {
        lemma_commands_read(commands);
    }
    if commands_of(commands_text(commands)) == Ok::<Seq<TextCommandView>, ErrorView>(commands) {
        lemma_read_commands(commands_text(commands));
    }
}

// Text entries.

pub open spec fn entry_block(entry: TextEntryView) -> BlockView {
    BlockView {
        name: "text"@,
        pairs: pairs_of("target"@, entry.target) + pairs_of(
            "delay"@,
            decimal_of(entry.delay as nat),
        ) + pairs_of("commands"@, commands_text(entry.commands)),
    }
}

/// A text entry with a target that fits in one line and commands that can be written.
pub open spec fn is_writable_entry(entry: TextEntryView) -> bool {
    &&& is_line_text(entry.target)
    &&& entry.target.len() > 0
    &&& entry.commands.len() > 0
    &&& are_writable_commands(entry.commands)
}

proof fn lemma_entry(entry: TextEntryView)
    requires
        is_writable_entry(entry),
    ensures
        makes(entry_lines(entry), entry_block(entry)),
        are_whole_lines(entry_lines(entry)),
        entry_of(entry_block(entry)) == Ok::<TextEntryView, ErrorView>(entry),
{
    lemma_headers();
    lemma_block_names();
    lemma_text_keys();
    let delay = decimal_of(entry.delay as nat);
    let commands = commands_text(entry.commands);
    lemma_decimal_text(entry.delay);
    law_decimal_reads_back(entry.delay);
    lemma_commands_read(entry.commands);
    lemma_trimmed_iff(commands);
    let l1 = pair_lines("target"@, entry.target);
    let p1 = pairs_of("target"@, entry.target);
    lemma_adds_pair("target"@, entry.target);
    let l2 = l1 + pair_lines("delay"@, delay);
    let p2 = p1 + pairs_of("delay"@, delay);
    lemma_adds_one(l1, p1, "delay"@, delay);
    let l3 = l2 + pair_lines("commands"@, commands);
    lemma_adds_one(l2, p2, "commands"@, commands);
    lemma_makes_block("text"@, "[text]"@, l3, entry_block(entry).pairs);
    assert(entry_lines(entry) == seq!["[text]"@] + l3 + seq![seq![]]);
    let step = entry_pair_step();
    let start = no_text_entry();
    let p0 = Seq::<Pair>::empty();
    assert(p0 + p1 == p1);
    let e1 = TextEntryView { target: entry.target, ..start };
    lemma_fold_pair(start, p0, step, "target"@, entry.target, start, e1);
    let e2 = TextEntryView { delay: entry.delay, ..e1 };
    lemma_fold_pair(start, p1, step, "delay"@, delay, e1, e2);
    lemma_fold_pair(start, p2, step, "commands"@, commands, e2, entry);
}

// Timers.

/// A duration whose text stands for its seconds.
pub open spec fn is_written_duration(duration: DurationView) -> bool {
    duration_of(duration.raw) == Ok::<DurationView, Stop>(duration)
}

proof fn lemma_without_letters(s: Seq<char>)
    ensures
        without_letters(s).len() <= s.len(),
        without_letters(s) == s.take(without_letters(s).len() as int),
        forall|i: int|
            without_letters(s).len() <= i < s.len() ==> is_ascii_letter(#[trigger] s[i]),
    decreases s.len(),
{
    if s.len() > 0 && is_ascii_letter(s.last()) {
        let t = s.drop_last();
        lemma_without_letters(t);
        let n = without_letters(t).len() as int;
        assert(t.take(n) == s.take(n));
        assert forall|i: int| n <= i < s.len() implies is_ascii_letter(#[trigger] s[i]) by {
            if i < t.len() {
                assert(t[i] == s[i]);
            }
        }
    } else {
        assert(s.take(s.len() as int) == s);
    }
}

/// The text of a duration fits in one line.
proof fn lemma_duration_text(duration: DurationView)
    requires
        is_written_duration(duration),
    ensures
        is_line_text(duration.raw),
        duration.raw.len() > 0,
{
    let raw = duration.raw;
    let digits = without_letters(raw);
    assert(trimmed(raw) == raw);
    lemma_without_letters(raw);
    lemma_number_chars(digits);
    assert forall|i: int| 0 <= i < raw.len() implies #[trigger] raw[i] != '\n' by {
        if i < digits.len() {
            assert(digits[i] == raw[i]);
            assert(is_ascii_digit(digits[i]) || digits[i] == '+');
        }
    }
}

pub open spec fn event_block(event: TimedEventView) -> BlockView {
    BlockView {
        name: "refresh"@,
        pairs: pairs_of("target"@, event.target) + pairs_of("after"@, event.after.raw) + pairs_of(
            "action"@,
            action_text(event.action),
        ) + pairs_of("repeat"@, bool_text(event.repeat)),
    }
}

/// A timer with a target that fits in one line and a duration that its text stands for.
pub open spec fn is_writable_event(event: TimedEventView) -> bool {
    &&& is_line_text(event.target)
    &&& event.target.len() > 0
    &&& event.after.seconds > 0
    &&& is_written_duration(event.after)
}

proof fn lemma_event(event: TimedEventView)
    requires
        is_writable_event(event),
    ensures
        makes(event_lines(event), event_block(event)),
        are_whole_lines(event_lines(event)),
        event_of(event_block(event)) == Ok::<TimedEventView, Stop>(event),
{
    lemma_headers();
    lemma_block_names();
    lemma_refresh_keys();
    lemma_actions();
    lemma_bools();
    lemma_duration_text(event.after);
    let after = event.after.raw;
    let action = action_text(event.action);
    let repeat = bool_text(event.repeat);
    lemma_plain(action);
    lemma_plain_text(action);
    lemma_plain(repeat);
    lemma_plain_text(repeat);
    let l1 = pair_lines("target"@, event.target);
    let p1 = pairs_of("target"@, event.target);
    lemma_adds_pair("target"@, event.target);
    let l2 = l1 + pair_lines("after"@, after);
    let p2 = p1 + pairs_of("after"@, after);
    lemma_adds_one(l1, p1, "after"@, after);
    let l3 = l2 + pair_lines("action"@, action);
    let p3 = p2 + pairs_of("action"@, action);
    lemma_adds_one(l2, p2, "action"@, action);
    let l4 = l3 + pair_lines("repeat"@, repeat);
    lemma_adds_one(l3, p3, "repeat"@, repeat);
    lemma_makes_block("refresh"@, "[refresh]"@, l4, event_block(event).pairs);
    assert(event_lines(event) == seq!["[refresh]"@] + l4 + seq![seq![]]);
    let step = event_pair_step();
    let start = no_timed_event();
    let p0 = Seq::<Pair>::empty();
    assert(p0 + p1 == p1);
    let e1 = TimedEventView { target: event.target, ..start };
    lemma_fold_pair(start, p0, step, "target"@, event.target, start, e1);
    let e2 = TimedEventView { after: event.after, ..e1 };
    lemma_fold_pair(start, p1, step, "after"@, after, e1, e2);
    let e3 = TimedEventView { action: event.action, ..e2 };
    lemma_fold_pair(start, p2, step, "action"@, action, e2, e3);
    lemma_fold_pair(start, p3, step, "repeat"@, repeat, e3, event);
}

pub open spec fn rerun_block(after: DurationView) -> BlockView {
    BlockView { name: "rerun"@, pairs: pairs_of("after"@, after.raw) }
}

proof fn lemma_rerun(after: DurationView)
    requires
        is_written_duration(after),
    ensures
        makes(rerun_lines(Some(after)), rerun_block(after)),
        are_whole_lines(rerun_lines(Some(after))),
        rerun_of(rerun_block(after)) == Ok::<DurationView, Stop>(after),
{
    lemma_headers();
    lemma_block_names();
    lemma_refresh_keys();
    lemma_duration_text(after);
    lemma_adds_pair("after"@, after.raw);
    lemma_makes_block(
        "rerun"@,
        "[rerun]"@,
        pair_lines("after"@, after.raw),
        pairs_of("after"@, after.raw),
    );
}

// The whole config.

/// A config that can be written: every text in it fits in its place, every duration is what its
/// text stands for, and every text entry and timer is for an app that there is.
pub open spec fn is_writable(config: ConfigView) -> bool {
    &&& forall|i: int| 0 <= i < config.kills.len() ==> is_writable_kill(#[trigger] config.kills[i])
    &&& forall|i: int| 0 <= i < config.apps.len() ==> is_writable_app(#[trigger] config.apps[i])
    &&& forall|i: int|
        0 <= i < config.text_entries.len() ==> is_writable_entry(#[trigger] config.text_entries[i])
    &&& forall|i: int|
        0 <= i < config.refreshes.len() ==> is_writable_event(#[trigger] config.refreshes[i])
    &&& config.rerun is Some ==> is_written_duration(config.rerun->0)
    &&& is_valid(config)
}

/// A config as it is read back.
pub open spec fn restored(config: ConfigView) -> ConfigView {
    ConfigView {
        kills: config.kills.map_values(|item: KillRuleView| restored_kill(item)),
        apps: config.apps.map_values(|item: AppView| restored_app(item)),
        ..config
    }
}

proof fn lemma_read_kills(config: ConfigView, items: Seq<KillRuleView>)
    requires
        forall|i: int| 0 <= i < items.len() ==> is_writable_kill(#[trigger] items[i]),
    ensures
        fold(config, items.map_values(|item: KillRuleView| kill_block(item)), block_step()) == Ok::<
            ConfigView,
            Stop,
        >(ConfigView { kills: config.kills + items.map_values(|item: KillRuleView| restored_kill(item)), ..config }),
    decreases items.len(),
{
    let block = |item: KillRuleView| kill_block(item);
    let blocks = items.map_values(block);
    lemma_block_names();
    if items.len() == 0 {
        assert(config.kills + items.map_values(|item: KillRuleView| restored_kill(item)) == config.kills);
    } else {
        let front = items.drop_last();
        let last = items.last();
        assert(last == items[items.len() - 1]);
        assert forall|i: int| 0 <= i < front.len() implies is_writable_kill(#[trigger] front[i]) by {
            assert(front[i] == items[i]);
        }
        lemma_read_kills(config, front);
        lemma_kill_read(last);
        assert(blocks.drop_last() == front.map_values(block));
        assert(blocks.last() == kill_block(last));
        assert(config.kills + items.map_values(|item: KillRuleView| restored_kill(item)) == (config.kills + front.map_values(|item: KillRuleView| restored_kill(item))).push(restored_kill(last)));
    }
}

proof fn lemma_read_apps(config: ConfigView, items: Seq<AppView>)
    requires
        forall|i: int| 0 <= i < items.len() ==> is_writable_app(#[trigger] items[i]),
    ensures
        fold(config, items.map_values(|item: AppView| app_block(item)), block_step()) == Ok::<
            ConfigView,
            Stop,
        >(ConfigView { apps: config.apps + items.map_values(|item: AppView| restored_app(item)), ..config }),
    decreases items.len(),
{
    let block = |item: AppView| app_block(item);
    let blocks = items.map_values(block);
    lemma_block_names();
    if items.len() == 0 {
        assert(config.apps + items.map_values(|item: AppView| restored_app(item)) == config.apps);
    } else {
        let front = items.drop_last();
        let last = items.last();
        assert(last == items[items.len() - 1]);
        assert forall|i: int| 0 <= i < front.len() implies is_writable_app(#[trigger] front[i]) by {
            assert(front[i] == items[i]);
        }
        lemma_read_apps(config, front);
        lemma_app_read(last);
        assert(blocks.drop_last() == front.map_values(block));
        assert(blocks.last() == app_block(last));
        assert(config.apps + items.map_values(|item: AppView| restored_app(item)) == (config.apps + front.map_values(|item: AppView| restored_app(item))).push(restored_app(last)));
    }
}

proof fn lemma_read_text_entries(config: ConfigView, items: Seq<TextEntryView>)
    requires
        forall|i: int| 0 <= i < items.len() ==> is_writable_entry(#[trigger] items[i]),
    ensures
        fold(config, items.map_values(|item: TextEntryView| entry_block(item)), block_step()) == Ok::<
            ConfigView,
            Stop,
        >(ConfigView { text_entries: config.text_entries + items, ..config }),
    decreases items.len(),
{
    let block = |item: TextEntryView| entry_block(item);
    let blocks = items.map_values(block);
    lemma_block_names();
    if items.len() == 0 {
        assert(config.text_entries + items == config.text_entries);
    } else {
        let front = items.drop_last();
        let last = items.last();
        assert(last == items[items.len() - 1]);
        assert forall|i: int| 0 <= i < front.len() implies is_writable_entry(#[trigger] front[i]) by {
            assert(front[i] == items[i]);
        }
        lemma_read_text_entries(config, front);
        lemma_entry(last);
        assert(blocks.drop_last() == front.map_values(block));
        assert(blocks.last() == entry_block(last));
        assert(config.text_entries + items == (config.text_entries + front).push(last));
    }
}

proof fn lemma_read_refreshes(config: ConfigView, items: Seq<TimedEventView>)
    requires
        forall|i: int| 0 <= i < items.len() ==> is_writable_event(#[trigger] items[i]),
    ensures
        fold(config, items.map_values(|item: TimedEventView| event_block(item)), block_step()) == Ok::<
            ConfigView,
            Stop,
        >(ConfigView { refreshes: config.refreshes + items, ..config }),
    decreases items.len(),
{
    let block = |item: TimedEventView| event_block(item);
    let blocks = items.map_values(block);
    lemma_block_names();
    if items.len() == 0 {
        assert(config.refreshes + items == config.refreshes);
    } else {
        let front = items.drop_last();
        let last = items.last();
        assert(last == items[items.len() - 1]);
        assert forall|i: int| 0 <= i < front.len() implies is_writable_event(#[trigger] front[i]) by {
            assert(front[i] == items[i]);
        }
        lemma_read_refreshes(config, front);
        lemma_event(last);
        assert(blocks.drop_last() == front.map_values(block));
        assert(blocks.last() == event_block(last));
        assert(config.refreshes + items == (config.refreshes + front).push(last));
    }
}

pub open spec fn rerun_blocks(rerun: Option<DurationView>) -> Seq<BlockView> {
    match rerun {
        None => seq![],
        Some(after) => seq![rerun_block(after)],
    }
}

/// The blocks of a written config.
pub open spec fn config_blocks(config: ConfigView) -> Seq<BlockView> {
    config.kills.map_values(|item: KillRuleView| kill_block(item)) + config.apps.map_values(
        |item: AppView| app_block(item),
    ) + config.text_entries.map_values(|item: TextEntryView| entry_block(item))
        + config.refreshes.map_values(|item: TimedEventView| event_block(item)) + rerun_blocks(
        config.rerun,
    )
}

proof fn lemma_title_lines()
    ensures
        reads(title_lines(), seq![], seq![]),
        are_whole_lines(title_lines()),
{
    let none = Seq::<BlockView>::empty();
    let blank = Seq::<char>::empty();
    let first = "# i3-controller config"@;
    let second = "# Created by `i3-controller wizard`."@;
    lemma_titles();
    lemma_trimmed_iff(first);
    lemma_trimmed_iff(second);
    lemma_trimmed_iff(blank);
    lemma_reads_comment(first, none);
    lemma_reads_comment(second, none);
    lemma_reads_comment(blank, none);
    lemma_reads_concat(seq![first], seq![second], none, none, none);
    lemma_reads_concat(seq![first] + seq![second], seq![blank], none, none, none);
    assert(title_lines() == seq![first] + seq![second] + seq![blank]);
}

proof fn lemma_config_lines(config: ConfigView)
    requires
        is_writable(config),
    ensures
        reads(config_lines(config), seq![], config_blocks(config)),
        are_whole_lines(config_lines(config)),
{
    let kill = |item: KillRuleView| kill_block(item);
    let app = |item: AppView| app_block(item);
    let entry = |item: TextEntryView| entry_block(item);
    let event = |item: TimedEventView| event_block(item);
    assert forall|i: int| 0 <= i < config.kills.len() implies makes(
        kill_writer()(#[trigger] config.kills[i]),
        kill(config.kills[i]),
    ) && are_whole_lines(kill_writer()(config.kills[i])) by {
        lemma_kill_lines(config.kills[i]);
    }
    assert forall|i: int| 0 <= i < config.apps.len() implies makes(
        app_writer()(#[trigger] config.apps[i]),
        app(config.apps[i]),
    ) && are_whole_lines(app_writer()(config.apps[i])) by {
        lemma_app_lines(config.apps[i]);
    }
    assert forall|i: int| 0 <= i < config.text_entries.len() implies makes(
        entry_writer()(#[trigger] config.text_entries[i]),
        entry(config.text_entries[i]),
    ) && are_whole_lines(entry_writer()(config.text_entries[i])) by {
        lemma_entry(config.text_entries[i]);
    }
    assert forall|i: int| 0 <= i < config.refreshes.len() implies makes(
        event_writer()(#[trigger] config.refreshes[i]),
        event(config.refreshes[i]),
    ) && are_whole_lines(event_writer()(config.refreshes[i])) by {
        lemma_event(config.refreshes[i]);
    }
    let none = Seq::<BlockView>::empty();
    lemma_title_lines();
    let l0 = title_lines();
    let l1 = l0 + each(config.kills, kill_writer());
    let b1 = none + config.kills.map_values(kill);
    lemma_makes_each(config.kills, kill_writer(), kill, none);
    lemma_reads_concat(l0, each(config.kills, kill_writer()), none, none, b1);
    lemma_whole_each(config.kills, kill_writer());
    lemma_whole_concat(l0, each(config.kills, kill_writer()));
    let l2 = l1 + each(config.apps, app_writer());
    let b2 = b1 + config.apps.map_values(app);
    lemma_makes_each(config.apps, app_writer(), app, b1);
    lemma_reads_concat(l1, each(config.apps, app_writer()), none, b1, b2);
    lemma_whole_each(config.apps, app_writer());
    lemma_whole_concat(l1, each(config.apps, app_writer()));
    let l3 = l2 + each(config.text_entries, entry_writer());
    let b3 = b2 + config.text_entries.map_values(entry);
    lemma_makes_each(config.text_entries, entry_writer(), entry, b2);
    lemma_reads_concat(l2, each(config.text_entries, entry_writer()), none, b2, b3);
    lemma_whole_each(config.text_entries, entry_writer());
    lemma_whole_concat(l2, each(config.text_entries, entry_writer()));
    let l4 = l3 + each(config.refreshes, event_writer());
    let b4 = b3 + config.refreshes.map_values(event);
    lemma_makes_each(config.refreshes, event_writer(), event, b3);
    lemma_reads_concat(l3, each(config.refreshes, event_writer()), none, b3, b4);
    lemma_whole_each(config.refreshes, event_writer());
    lemma_whole_concat(l3, each(config.refreshes, event_writer()));
    let b5 = b4 + rerun_blocks(config.rerun);
    match config.rerun {
        Some(after) => {
            lemma_rerun(after);
            assert(b5 == b4.push(rerun_block(after)));
            assert(reads(rerun_lines(config.rerun), b4, b5));
        },
        None => {
            lemma_reads_nothing(b4);
            assert(b5 == b4);
        },
    }
    lemma_reads_concat(l4, rerun_lines(config.rerun), none, b4, b5);
    lemma_whole_concat(l4, rerun_lines(config.rerun));
    assert(none + config.kills.map_values(kill) == config.kills.map_values(kill));
}

proof fn lemma_restored_valid(config: ConfigView)
    requires
        is_writable(config),
    ensures
        config_check(restored(config)) is Ok,
{
    let after = restored(config);
    assert forall|i: int| 0 <= i < after.apps.len() implies app_check(#[trigger] after.apps[i]) is Ok by {
        assert(after.apps[i] == restored_app(config.apps[i]));
        assert(is_writable_app(config.apps[i]));
    }
    assert forall|name: Seq<char>| #[trigger] is_named(config.apps, name) implies is_named(
        after.apps,
        name,
    ) by {
        let i = choose|i: int| 0 <= i < config.apps.len() && (#[trigger] config.apps[i]).name == name;
        assert(after.apps[i] == restored_app(config.apps[i]));
        assert(after.apps[i].name == name);
    }
    assert forall|i: int| 0 <= i < after.text_entries.len() implies is_named(
        after.apps,
        (#[trigger] after.text_entries[i]).target,
    ) by {
        assert(is_named(config.apps, config.text_entries[i].target));
    }
    assert forall|i: int| 0 <= i < after.refreshes.len() implies is_named(
        after.apps,
        (#[trigger] after.refreshes[i]).target,
    ) by {
        assert(is_named(config.apps, config.refreshes[i].target));
    }
    law_validation_is_complete(after);
}

proof fn lemma_config_blocks(config: ConfigView)
    requires
        is_writable(config),
    ensures
        fold(no_config(), config_blocks(config), block_step()) == Ok::<ConfigView, Stop>(
            restored(config),
        ),
{
    let step = block_step();
    let kills = config.kills.map_values(|item: KillRuleView| kill_block(item));
    let apps = config.apps.map_values(|item: AppView| app_block(item));
    let entries = config.text_entries.map_values(|item: TextEntryView| entry_block(item));
    let events = config.refreshes.map_values(|item: TimedEventView| event_block(item));
    let after = restored(config);
    let c0 = no_config();
    let c1 = ConfigView { kills: after.kills, ..c0 };
    lemma_read_kills(c0, config.kills);
    assert(c0.kills + after.kills == after.kills);
    let c2 = ConfigView { apps: after.apps, ..c1 };
    lemma_read_apps(c1, config.apps);
    assert(c1.apps + after.apps == after.apps);
    lemma_fold_concat(c0, kills, apps, step);
    let c3 = ConfigView { text_entries: config.text_entries, ..c2 };
    lemma_read_text_entries(c2, config.text_entries);
    assert(c2.text_entries + config.text_entries == config.text_entries);
    lemma_fold_concat(c0, kills + apps, entries, step);
    let c4 = ConfigView { refreshes: config.refreshes, ..c3 };
    lemma_read_refreshes(c3, config.refreshes);
    assert(c3.refreshes + config.refreshes == config.refreshes);
    lemma_fold_concat(c0, kills + apps + entries, events, step);
    let rerun = rerun_blocks(config.rerun);
    lemma_fold_concat(c0, kills + apps + entries + events, rerun, step);
    match config.rerun {
        Some(span) => {
            lemma_block_names();
            lemma_rerun(span);
            assert(rerun.drop_last() == Seq::<BlockView>::empty());
            assert(fold(c4, rerun.drop_last(), step) == Ok::<ConfigView, Stop>(c4));
        },
        None => {},
    }
}

/// Reading a written config gives it back, with what is not written of it at its default.
pub proof fn law_written_config_is_restored(config: ConfigView)
    requires
        is_writable(config),
    ensures
        config_of(config_text(config)) == Ok::<ConfigView, Stop>(restored(config)),
{
    lemma_config_lines(config);
    lemma_lines_of_unlines(config_lines(config));
    let progress = nothing_read();
    assert(progress == Progress { count: 0, blocks: seq![] });
    assert(fold(progress, config_lines(config), line_step()) == Ok::<Progress, ErrorView>(
        Progress { count: config_lines(config).len(), blocks: config_blocks(config) },
    ));
    lemma_config_blocks(config);
    lemma_restored_valid(config);
}

} // verus!
