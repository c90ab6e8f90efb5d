//! What holds of every config that has been read from a text.
use crate::config::{
    no_config, no_text_entry, no_timed_event, AppView, BlockView, ConfigView, KillRuleView,
    TextCommandView, TextEntryView, TimedEventView,
};
use crate::facts::{
    has_char, is_line_text, lemma_concat_chars, lemma_cut_parts, lemma_lines_chars,
    lemma_pieces_chars, lemma_trimmed_chars, lemma_trimmed_iff, lemma_trimmed_twice,
};
use crate::fold::lemma_fold_keeps;
use crate::format::config_text;
use crate::parse::{
    app_of, app_pair_step, block_effect, block_step, blocks_of, config_of, entry_of,
    entry_pair_step, event_of, event_pair_step, fresh_app, fresh_kill, kill_of, kill_pair_step,
    line_effect, line_step, nothing_read, Pair, Progress,
};
use crate::read_back::{
    are_writable_commands, is_command_value, is_writable, is_writable_app, is_writable_command,
    is_writable_entry, is_writable_event, is_writable_kill, is_written_duration,
    law_written_config_is_restored, restored,
};
use crate::text::{cut, lines_of, pieces, trimmed};
use crate::validate::law_validation_is_complete;
use crate::values::{command_of, command_step, commands_of, duration_of, Stop};
use vstd::prelude::*;

verus! {

/// A block of which every value fits in one line.
pub open spec fn is_read_block(block: BlockView) -> bool {
    forall|i: int| 0 <= i < block.pairs.len() ==> is_line_text((#[trigger] block.pairs[i]).1)
}

pub open spec fn are_read_blocks(blocks: Seq<BlockView>) -> bool {
    forall|i: int| 0 <= i < blocks.len() ==> is_read_block(#[trigger] blocks[i])
}

proof fn lemma_line_effect(blocks: Seq<BlockView>, number: nat, raw: Seq<char>)
    requires
        are_read_blocks(blocks),
        !has_char(raw, '\n'),
        line_effect(blocks, number, raw) is Ok,
    ensures
        are_read_blocks(line_effect(blocks, number, raw)->Ok_0),
{
    let line = trimmed(raw);
    let after = line_effect(blocks, number, raw)->Ok_0;
    lemma_trimmed_chars(raw, '\n');
    if cut(line, '=') is Some {
        lemma_cut_parts(line, '=');
        let (key, value) = cut(line, '=')->0;
        lemma_concat_chars(key.push('='), value, '\n');
        lemma_trimmed_chars(value, '\n');
        lemma_trimmed_twice(value);
        assert(is_line_text(trimmed(value)));
    }
    assert forall|i: int| 0 <= i < after.len() implies is_read_block(#[trigger] after[i]) by {
        if i < blocks.len() - 1 {
            assert(after[i] == blocks[i]);
        } else if i < blocks.len() {
            assert(is_read_block(blocks[i]));
            assert(blocks.last() == blocks[i]);
        }
    }
}

proof fn lemma_blocks_read(text: Seq<char>)
    requires
        blocks_of(text) is Ok,
    ensures
        are_read_blocks(blocks_of(text)->Ok_0),
{
    let inv = |progress: Progress| are_read_blocks(progress.blocks);
    let ok = |line: Seq<char>| !has_char(line, '\n');
    let all = lines_of(text);
    lemma_lines_chars(text);
    assert forall|i: int| 0 <= i < all.len() implies ok(#[trigger] all[i]) by {}
    assert forall|progress: Progress, line: Seq<char>|
        inv(progress) && ok(line) && (#[trigger] line_step()(progress, line)) is Ok implies inv(
        line_step()(progress, line)->Ok_0,
    ) by {
        lemma_line_effect(progress.blocks, progress.count + 1, line);
    }
    lemma_fold_keeps(nothing_read(), all, line_step(), inv, ok);
}

proof fn lemma_pairs_ok(block: BlockView, ok: spec_fn(Pair) -> bool)
    requires
        is_read_block(block),
        ok == (|pair: Pair| is_line_text(pair.1)),
    ensures
        forall|i: int| 0 <= i < block.pairs.len() ==> ok(#[trigger] block.pairs[i]),
{
}

proof fn lemma_no_text_fits()
    ensures
        is_line_text(Seq::<char>::empty()),
        is_line_text("TERM"@),
        is_line_text("chromium-browser"@),
{
    lemma_trimmed_iff(Seq::<char>::empty());
    reveal_strlit("TERM");
    reveal_strlit("chromium-browser");
    assert("TERM"@ == seq!['T', 'E', 'R', 'M']);
    assert("chromium-browser"@ == seq![
        'c', 'h', 'r', 'o', 'm', 'i', 'u', 'm', '-', 'b', 'r', 'o', 'w', 's', 'e', 'r',
    ]);
    lemma_trimmed_iff("TERM"@);
    lemma_trimmed_iff("chromium-browser"@);
}

pub proof fn lemma_kill_is_writable(block: BlockView)
    requires
        is_read_block(block),
        kill_of(block) is Ok,
    ensures
        is_writable_kill(kill_of(block)->Ok_0),
{
    let inv = |kill: KillRuleView|
        is_line_text(kill.name) && is_line_text(kill.pattern) && is_line_text(kill.signal);
    let ok = |pair: Pair| is_line_text(pair.1);
    lemma_pairs_ok(block, ok);
    lemma_no_text_fits();
    lemma_fold_keeps(fresh_kill(), block.pairs, kill_pair_step(), inv, ok);
}

/// Every text of the app fits in one line.
pub open spec fn has_line_texts(app: AppView) -> bool {
    &&& is_line_text(app.name)
    &&& is_line_text(app.command)
    &&& is_line_text(app.args)
    &&& is_line_text(app.url)
    &&& is_line_text(app.browser)
    &&& is_line_text(app.browser_args)
    &&& is_line_text(app.profile)
    &&& is_line_text(app.workspace)
    &&& is_line_text(app.match_criteria)
    &&& is_line_text(app.layout)
}

pub proof fn lemma_app_is_writable(block: BlockView)
    requires
        is_read_block(block),
        app_of(block) is Ok,
    ensures
        is_writable_app(app_of(block)->Ok_0),
{
    let inv = |app: AppView| has_line_texts(app);
    let ok = |pair: Pair| is_line_text(pair.1);
    lemma_pairs_ok(block, ok);
    lemma_no_text_fits();
    lemma_fold_keeps(fresh_app(), block.pairs, app_pair_step(), inv, ok);
}

proof fn lemma_command_is_writable(segment: Seq<char>)
    requires
        !has_char(segment, ';'),
        !has_char(segment, '\n'),
        command_of(segment) is Ok,
    ensures
        is_writable_command(command_of(segment)->Ok_0),
{
    lemma_cut_parts(segment, ':');
    let (kind, payload) = cut(segment, ':')->0;
    lemma_concat_chars(kind.push(':'), payload, '\n');
    lemma_concat_chars(kind.push(':'), payload, ';');
    lemma_trimmed_chars(payload, '\n');
    lemma_trimmed_chars(payload, ';');
    lemma_trimmed_twice(payload);
    assert(is_command_value(trimmed(payload)));
}

pub proof fn lemma_commands_are_writable(value: Seq<char>)
    requires
        !has_char(value, '\n'),
        commands_of(value) is Ok,
    ensures
        are_writable_commands(commands_of(value)->Ok_0),
{
    let inv = |commands: Seq<TextCommandView>| are_writable_commands(commands);
    let ok = |piece: Seq<char>| !has_char(piece, ';') && !has_char(piece, '\n');
    let all = pieces(value, ';');
    lemma_pieces_chars(value, ';', ';');
    lemma_pieces_chars(value, ';', '\n');
    assert forall|i: int| 0 <= i < all.len() implies ok(#[trigger] all[i]) by {}
    assert forall|commands: Seq<TextCommandView>, piece: Seq<char>|
        inv(commands) && ok(piece) && (#[trigger] command_step()(commands, piece)) is Ok implies inv(
        command_step()(commands, piece)->Ok_0,
    ) by {
        let segment = trimmed(piece);
        lemma_trimmed_chars(piece, ';');
        lemma_trimmed_chars(piece, '\n');
        if segment.len() > 0 {
            lemma_command_is_writable(segment);
        }
    }
    lemma_fold_keeps(Seq::<TextCommandView>::empty(), all, command_step(), inv, ok);
}

pub proof fn lemma_entry_is_writable(block: BlockView)
    requires
        is_read_block(block),
        entry_of(block) is Ok,
    ensures
        is_writable_entry(entry_of(block)->Ok_0),
{
    let inv = |entry: TextEntryView|
        is_line_text(entry.target) && are_writable_commands(entry.commands);
    let ok = |pair: Pair| is_line_text(pair.1);
    lemma_pairs_ok(block, ok);
    lemma_no_text_fits();
    assert forall|entry: TextEntryView, pair: Pair|
        inv(entry) && ok(pair) && (#[trigger] entry_pair_step()(entry, pair)) is Ok implies inv(
        entry_pair_step()(entry, pair)->Ok_0,
    ) by {
        if commands_of(pair.1) is Ok {
            lemma_commands_are_writable(pair.1);
        }
    }
    lemma_fold_keeps(no_text_entry(), block.pairs, entry_pair_step(), inv, ok);
}

/// The text of a duration that was read stands for the duration.
pub proof fn lemma_duration_is_written(value: Seq<char>)
    requires
        duration_of(value) is Ok,
    ensures
        is_written_duration(duration_of(value)->Ok_0),
{
    lemma_trimmed_twice(value);
}

pub proof fn lemma_event_is_writable(block: BlockView)
    requires
        is_read_block(block),
        event_of(block) is Ok,
    ensures
        is_writable_event(event_of(block)->Ok_0),
{
    let inv = |event: TimedEventView|
        is_line_text(event.target) && (event.after.seconds > 0 ==> is_written_duration(event.after));
    let ok = |pair: Pair| is_line_text(pair.1);
    lemma_pairs_ok(block, ok);
    lemma_no_text_fits();
    assert forall|event: TimedEventView, pair: Pair|
        inv(event) && ok(pair) && (#[trigger] event_pair_step()(event, pair)) is Ok implies inv(
        event_pair_step()(event, pair)->Ok_0,
    ) by {
        if duration_of(pair.1) is Ok {
            lemma_duration_is_written(pair.1);
        }
    }
    lemma_fold_keeps(no_timed_event(), block.pairs, event_pair_step(), inv, ok);
}

/// What is writable of a config, but for the names that its text entries and timers are for.
pub open spec fn has_writable_parts(config: ConfigView) -> bool {
    &&& forall|i: int| 0 <= i < config.kills.len() ==> is_writable_kill(#[trigger] config.kills[i])
    &&& forall|i: int| 0 <= i < config.apps.len() ==> is_writable_app(#[trigger] config.apps[i])
    &&& forall|i: int|
        0 <= i < config.text_entries.len() ==> is_writable_entry(#[trigger] config.text_entries[i])
    &&& forall|i: int|
        0 <= i < config.refreshes.len() ==> is_writable_event(#[trigger] config.refreshes[i])
    &&& config.rerun is Some ==> is_written_duration(config.rerun->0)
}

proof fn lemma_block_effect(config: ConfigView, block: BlockView)
    requires
        has_writable_parts(config),
        is_read_block(block),
        block_effect(config, block) is Ok,
    ensures
        has_writable_parts(block_effect(config, block)->Ok_0),
{
    if block.name == "app"@ {
        lemma_app_is_writable(block);
    } else if block.name == "kill"@ {
        lemma_kill_is_writable(block);
    } else if block.name == "text"@ {
        lemma_entry_is_writable(block);
    } else if block.name == "refresh"@ {
        lemma_event_is_writable(block);
    } else if block.name == "rerun"@ {
        lemma_duration_is_written(block.pairs[0].1);
    }
}

/// Every config that is read from a text can be written: its texts fit in one line each, its
/// durations are what their texts stand for, its apps can be started, and its text entries and
/// timers are for apps that there are.
pub proof fn law_parsed_config_is_writable(text: Seq<char>)
    requires
        config_of(text) is Ok,
    ensures
        is_writable(config_of(text)->Ok_0),
{
    let config = config_of(text)->Ok_0;
    let blocks = blocks_of(text)->Ok_0;
    let inv = |c: ConfigView| has_writable_parts(c);
    let ok = |block: BlockView| is_read_block(block);
    lemma_blocks_read(text);
    assert forall|i: int| 0 <= i < blocks.len() implies ok(#[trigger] blocks[i]) by {}
    assert forall|c: ConfigView, block: BlockView|
        inv(c) && ok(block) && (#[trigger] block_step()(c, block)) is Ok implies inv(
        block_step()(c, block)->Ok_0,
    ) by {
        lemma_block_effect(c, block);
    }
    lemma_fold_keeps(no_config(), blocks, block_step(), inv, ok);
    law_validation_is_complete(config);
}

/// A config is read back exactly as it was if it can be written and holds nothing that is not
/// written, and only then.
pub proof fn law_read_back_exactly(config: ConfigView)
    ensures
        config_of(config_text(config)) == Ok::<ConfigView, Stop>(config) <==> is_writable(config)
            && restored(config) == config,
{
    if is_writable(config) {
        law_written_config_is_restored(config);
    }
    if config_of(config_text(config)) == Ok::<ConfigView, Stop>(config) {
        law_parsed_config_is_writable(config_text(config));
    }
}

/// Writing a config that was read, and reading it again, restores it; doing so once more changes
/// nothing.
pub proof fn law_rewriting_settles(text: Seq<char>)
    requires
        config_of(text) is Ok,
    ensures
        ({
            let once = config_of(config_text(config_of(text)->Ok_0));
            &&& once == Ok::<ConfigView, Stop>(restored(config_of(text)->Ok_0))
            &&& config_of(config_text(once->Ok_0)) == once
        }),
{
    let config = config_of(text)->Ok_0;
    let after = restored(config);
    law_parsed_config_is_writable(text);
    law_written_config_is_restored(config);
    law_parsed_config_is_writable(config_text(config));
    law_written_config_is_restored(after);
    assert(restored(after).kills == after.kills) by {
        reveal_strlit("TERM");
    }
    assert(restored(after).apps == after.apps) by {
        reveal_strlit("chromium-browser");
    }
    assert(restored(after) == after);
}

} // verus!
