//! How lines make blocks and blocks make a config.
use crate::config::{
    no_config, AppView, BlockView, ConfigView, KillRuleView, TextEntryView, TimedEventView,
};
use crate::error::ErrorView;
use crate::facts::{has_char, lemma_cut_at, lemma_lines_concat};
use crate::fold::{fold, lemma_fold_concat, lemma_fold_error, lemma_fold_step};
use crate::parse::{
    app_of, block_step, blocks_of, config_of, entry_of, event_of, kill_of, line_effect,
    line_step, nothing_read, rerun_of,
};
use crate::text::{
    first_index, lemma_first_index_at, lemma_first_index_bounds, lines_of, lowered, trimmed,
    without_return,
};
use crate::validate::{app_check, config_check, is_named, is_valid, law_validation_is_complete};
use crate::values::Stop;
use crate::words::lemma_block_names;
use vstd::prelude::*;

verus! {

// One line more.

/// The lines of a text with one line more behind it.
proof fn lemma_one_line_more(text: Seq<char>, line: Seq<char>)
    requires
        text.len() == 0 || text.last() == '\n',
        !has_char(line, '\n'),
    ensures
        lines_of(text + line.push('\n')) == lines_of(text).push(without_return(line)),
{
    let t = line.push('\n');
    assert forall|k: int| 0 <= k < line.len() implies #[trigger] t[k] != '\n' by {
        assert(t[k] == line[k]);
    }
    lemma_first_index_at(t, '\n', line.len() as int);
    assert(t.take(line.len() as int) == line);
    assert(t.skip(line.len() as int + 1) == Seq::<char>::empty());
    assert(lines_of(Seq::<char>::empty()) == Seq::<Seq<char>>::empty());
    assert(lines_of(t) == seq![without_return(line)]);
    lemma_lines_concat(text, t);
}

proof fn lemma_count(ls: Seq<Seq<char>>)
    ensures
        fold(nothing_read(), ls, line_step()) matches Ok(progress) ==> progress.count == ls.len(),
    decreases ls.len(),
{
    if ls.len() > 0 {
        lemma_count(ls.drop_last());
    }
}

/// What one line more does to the blocks of a text.
proof fn lemma_next_line(text: Seq<char>, line: Seq<char>)
    requires
        text.len() == 0 || text.last() == '\n',
        !has_char(line, '\n'),
        blocks_of(text) is Ok,
    ensures
        blocks_of(text + line.push('\n')) == line_effect(
            blocks_of(text)->Ok_0,
            lines_of(text).len() + 1,
            without_return(line),
        ),
        trimmed(without_return(line)) == trimmed(line),
{
    let ls = lines_of(text);
    let read = without_return(line);
    lemma_one_line_more(text, line);
    lemma_count(ls);
    assert(ls.push(read).drop_last() == ls);
    crate::comments::lemma_trimmed_line(line);
}

/// A line in square brackets starts a block, named by what stands in them, in small letters and
/// without the white space at its ends. The blocks before it stay as they are.
pub proof fn law_header_starts_a_block(text: Seq<char>, line: Seq<char>, inside: Seq<char>)
    requires
        text.len() == 0 || text.last() == '\n',
        !has_char(line, '\n'),
        blocks_of(text) is Ok,
        trimmed(line) == seq!['['] + inside + seq![']'],
    ensures
        blocks_of(text + line.push('\n')) == Ok::<Seq<BlockView>, ErrorView>(
            blocks_of(text)->Ok_0.push(BlockView { name: lowered(trimmed(inside)), pairs: seq![] }),
        ),
{
    lemma_next_line(text, line);
    let l = trimmed(line);
    assert(l[0] == '[' && l.last() == ']');
    assert(l.subrange(1, l.len() - 1) == inside);
}

/// A line with an equals sign adds one pair to the last block: the key in small letters, and what
/// stands behind the first equals sign. Every other block, and every other pair, stays as it is.
/// Before the first header there is nothing to add it to.
pub proof fn law_pair_joins_the_last_block(
    text: Seq<char>,
    line: Seq<char>,
    key: Seq<char>,
    value: Seq<char>,
)
    requires
        text.len() == 0 || text.last() == '\n',
        !has_char(line, '\n'),
        blocks_of(text) is Ok,
        trimmed(line) == key + seq!['='] + value,
        !has_char(key, '='),
        trimmed(line)[0] != '#',
        trimmed(line)[0] != '[' || trimmed(line).last() != ']',
    ensures
        ({
            let before = blocks_of(text)->Ok_0;
            let after = blocks_of(text + line.push('\n'));
            &&& before.len() == 0 ==> after == Err::<Seq<BlockView>, ErrorView>(
                ErrorView::BeforeHeader { line: (lines_of(text).len() + 1) as usize },
            )
            &&& before.len() > 0 ==> {
                &&& after is Ok
                &&& after->Ok_0.len() == before.len()
                &&& after->Ok_0.drop_last() == before.drop_last()
                &&& after->Ok_0.last().name == before.last().name
                &&& after->Ok_0.last().pairs == before.last().pairs.push(
                    (lowered(trimmed(key)), trimmed(value)),
                )
            }
        }),
{
    lemma_next_line(text, line);
    assert(key + seq!['='] + value == key.push('=') + value);
    lemma_cut_at(key, '=', value);
    let before = blocks_of(text)->Ok_0;
    let after = blocks_of(text + line.push('\n'));
    if before.len() > 0 {
        assert(after->Ok_0.drop_last() == before.drop_last());
    }
}

/// A line that is no comment, is not in square brackets and has no equals sign is refused, with its
/// number and as it was written.
pub proof fn law_other_lines_are_refused(text: Seq<char>, line: Seq<char>)
    requires
        text.len() == 0 || text.last() == '\n',
        !has_char(line, '\n'),
        blocks_of(text) is Ok,
        trimmed(line).len() > 0,
        !has_char(trimmed(line), '='),
        trimmed(line)[0] != '#',
        trimmed(line)[0] != '[' || trimmed(line).last() != ']',
    ensures
        blocks_of(text + line.push('\n')) == Err::<Seq<BlockView>, ErrorView>(
            ErrorView::NotKeyValue {
                line: (lines_of(text).len() + 1) as usize,
                text: without_return(line),
            },
        ),
{
    lemma_next_line(text, line);
    lemma_first_index_bounds(trimmed(line), '=');
    let i = first_index(trimmed(line), '=');
    if i < trimmed(line).len() {
        assert(trimmed(line)[i] == '=');
    }
}

/// A blank line, and one that begins with a number sign, changes nothing.
pub proof fn law_comment_lines_add_nothing(text: Seq<char>, line: Seq<char>)
    requires
        text.len() == 0 || text.last() == '\n',
        !has_char(line, '\n'),
        blocks_of(text) is Ok,
        trimmed(line).len() == 0 || trimmed(line)[0] == '#',
    ensures
        blocks_of(text + line.push('\n')) == blocks_of(text),
{
    lemma_next_line(text, line);
}

/// The first line that is wrong decides, whatever follows it; and a last line that is not ended is
/// read as if it were.
pub proof fn law_first_wrong_line_decides(text: Seq<char>, more: Seq<char>)
    requires
        text.len() == 0 || text.last() == '\n',
    ensures
        blocks_of(text) is Err ==> blocks_of(text + more) == blocks_of(text),
        !has_char(more, '\n') && more.len() > 0 && more.last() != '\r' ==> blocks_of(
            text + more.push('\n'),
        ) == blocks_of(text + more),
{
    lemma_lines_concat(text, more);
    lemma_fold_concat(nothing_read(), lines_of(text), lines_of(more), line_step());
    if !has_char(more, '\n') && more.len() > 0 && more.last() != '\r' {
        lemma_one_line_more(text, more);
        lemma_first_index_at(more, '\n', more.len() as int);
        assert(lines_of(more) == seq![more]);
        assert(lines_of(text).push(more) == lines_of(text) + seq![more]);
    }
}

// Blocks.

pub open spec fn blocks_named(blocks: Seq<BlockView>, name: Seq<char>) -> Seq<BlockView> {
    blocks.filter(|block: BlockView| block.name == name)
}

/// A block that is known and can be read.
pub open spec fn is_good_block(block: BlockView) -> bool {
    ||| block.name == "app"@ && app_of(block) is Ok
    ||| block.name == "kill"@ && kill_of(block) is Ok
    ||| block.name == "text"@ && entry_of(block) is Ok
    ||| block.name == "refresh"@ && event_of(block) is Ok
    ||| block.name == "rerun"@ && rerun_of(block) is Ok
}

/// A config is what its blocks say: the blocks of each name make one list, in their order, and the
/// last `[rerun]` block counts.
pub open spec fn says_config(blocks: Seq<BlockView>, config: ConfigView) -> bool {
    &&& config.apps == blocks_named(blocks, "app"@).map_values(|b: BlockView| app_of(b)->Ok_0)
    &&& config.kills == blocks_named(blocks, "kill"@).map_values(|b: BlockView| kill_of(b)->Ok_0)
    &&& config.text_entries == blocks_named(blocks, "text"@).map_values(
        |b: BlockView| entry_of(b)->Ok_0,
    )
    &&& config.refreshes == blocks_named(blocks, "refresh"@).map_values(
        |b: BlockView| event_of(b)->Ok_0,
    )
    &&& config.rerun == if blocks_named(blocks, "rerun"@).len() == 0 {
        None
    } else {
        Some(rerun_of(blocks_named(blocks, "rerun"@).last())->Ok_0)
    }
}

pub open spec fn all_good(blocks: Seq<BlockView>) -> bool {
    forall|i: int| 0 <= i < blocks.len() ==> is_good_block(#[trigger] blocks[i])
}

proof fn lemma_named_push(blocks: Seq<BlockView>, name: Seq<char>)
    requires
        blocks.len() > 0,
    ensures
        blocks_named(blocks, name) == if blocks.last().name == name {
            blocks_named(blocks.drop_last(), name).push(blocks.last())
        } else {
            blocks_named(blocks.drop_last(), name)
        },
{
    reveal(Seq::filter);
}

proof fn lemma_mapped_push<V>(blocks: Seq<BlockView>, block: BlockView, f: spec_fn(BlockView) -> V)
    ensures
        blocks.push(block).map_values(f) == blocks.map_values(f).push(f(block)),
{
}

proof fn lemma_config_blocks(blocks: Seq<BlockView>)
    ensures
        ({
            let read = fold(no_config(), blocks, block_step());
            &&& read is Ok <==> all_good(blocks)
            &&& read is Ok ==> says_config(blocks, read->Ok_0)
        }),
    decreases blocks.len(),
{
    lemma_block_names();
    if blocks.len() == 0 {
        reveal(Seq::filter);
        let none = Seq::<BlockView>::empty();
        assert(blocks == none);
        assert(none.map_values(|b: BlockView| app_of(b)->Ok_0) == Seq::<AppView>::empty());
        assert(none.map_values(|b: BlockView| kill_of(b)->Ok_0) == Seq::<KillRuleView>::empty());
        assert(none.map_values(|b: BlockView| entry_of(b)->Ok_0) == Seq::<TextEntryView>::empty());
        assert(none.map_values(|b: BlockView| event_of(b)->Ok_0) == Seq::<TimedEventView>::empty());
    } else {
        let front = blocks.drop_last();
        let last = blocks.last();
        lemma_config_blocks(front);
        lemma_named_push(blocks, "app"@);
        lemma_named_push(blocks, "kill"@);
        lemma_named_push(blocks, "text"@);
        lemma_named_push(blocks, "refresh"@);
        lemma_named_push(blocks, "rerun"@);
        lemma_mapped_push(blocks_named(front, "app"@), last, |b: BlockView| app_of(b)->Ok_0);
        lemma_mapped_push(blocks_named(front, "kill"@), last, |b: BlockView| kill_of(b)->Ok_0);
        lemma_mapped_push(blocks_named(front, "text"@), last, |b: BlockView| entry_of(b)->Ok_0);
        lemma_mapped_push(blocks_named(front, "refresh"@), last, |b: BlockView| event_of(b)->Ok_0);
        assert(all_good(blocks) <==> all_good(front) && is_good_block(last)) by {
            if all_good(blocks) {
                assert forall|i: int| 0 <= i < front.len() implies is_good_block(
                    #[trigger] front[i],
                ) by {
                    assert(front[i] == blocks[i]);
                }
                assert(is_good_block(blocks[blocks.len() - 1]));
            }
            if all_good(front) && is_good_block(last) {
                assert forall|i: int| 0 <= i < blocks.len() implies is_good_block(
                    #[trigger] blocks[i],
                ) by {
                    if i < front.len() {
                        assert(front[i] == blocks[i]);
                    }
                }
            }
        }
    }
}

/// Some app has the name.
pub open spec fn some_app_is_named(apps: Seq<AppView>, name: Seq<char>) -> bool {
    exists|i: int| 0 <= i < apps.len() && (#[trigger] apps[i]).name == name
}

/// Every text entry and every timer is for an app that there is.
pub open spec fn has_known_targets(config: ConfigView) -> bool {
    &&& forall|i: int|
        0 <= i < config.text_entries.len() ==> some_app_is_named(
            config.apps,
            (#[trigger] config.text_entries[i]).target,
        )
    &&& forall|i: int|
        0 <= i < config.refreshes.len() ==> some_app_is_named(
            config.apps,
            (#[trigger] config.refreshes[i]).target,
        )
}

proof fn lemma_read_apps(blocks: Seq<BlockView>, name: Seq<char>)
    requires
        all_good(blocks),
    ensures
        forall|i: int|
            0 <= i < blocks_named(blocks, name).len() ==> is_good_block(
                #[trigger] blocks_named(blocks, name)[i],
            ) && blocks_named(blocks, name)[i].name == name,
    decreases blocks.len(),
{
    if blocks.len() > 0 {
        let front = blocks.drop_last();
        assert forall|i: int| 0 <= i < front.len() implies is_good_block(#[trigger] front[i]) by {
            assert(front[i] == blocks[i]);
        }
        assert(is_good_block(blocks[blocks.len() - 1]));
        lemma_read_apps(front, name);
        lemma_named_push(blocks, name);
    } else {
        reveal(Seq::filter);
    }
}

/// A text is a config exactly if its lines make blocks, each of them is known and can be read, and
/// every text entry and every timer is for an app that there is; and then the config is what the
/// blocks say.
pub proof fn law_config_is_what_its_blocks_say(text: Seq<char>)
    ensures
        config_of(text) is Ok <==> blocks_of(text) is Ok && all_good(blocks_of(text)->Ok_0) && (
        forall|config: ConfigView| #[trigger]
            says_config(blocks_of(text)->Ok_0, config) ==> has_known_targets(config)),
        config_of(text) matches Ok(config) ==> says_config(blocks_of(text)->Ok_0, config)
            && has_known_targets(config),
{
    if let Ok(blocks) = blocks_of(text) {
        lemma_config_blocks(blocks);
        if let Ok(config) = fold(no_config(), blocks, block_step()) {
            law_validation_is_complete(config);
            lemma_block_names();
            lemma_read_apps(blocks, "app"@);
            assert forall|i: int| 0 <= i < config.apps.len() implies app_check(
                #[trigger] config.apps[i],
            ) is Ok by {
                let block = blocks_named(blocks, "app"@)[i];
                assert(is_good_block(block));
                assert(config.apps[i] == app_of(block)->Ok_0);
            }
            assert forall|name: Seq<char>| is_named(config.apps, name) <==> some_app_is_named(
                config.apps,
                name,
            ) by {}
            assert(is_valid(config) <==> has_known_targets(config));
            assert forall|other: ConfigView| says_config(blocks, other) implies other == config by {}
        }
    }
}

/// The first block that is wrong is what is said of a text of which every line is in order.
pub proof fn law_first_wrong_block_decides(text: Seq<char>, i: int)
    requires
        blocks_of(text) is Ok,
        0 <= i < blocks_of(text)->Ok_0.len(),
        all_good(blocks_of(text)->Ok_0.take(i)),
        !is_good_block(blocks_of(text)->Ok_0[i]),
    ensures
        ({
            let block = blocks_of(text)->Ok_0[i];
            config_of(text) == Err::<ConfigView, Stop>(
                if block.name == "app"@ {
                    Stop::Wrong(app_of(block)->Err_0)
                } else if block.name == "kill"@ {
                    Stop::Wrong(kill_of(block)->Err_0)
                } else if block.name == "text"@ {
                    Stop::Wrong(entry_of(block)->Err_0)
                } else if block.name == "refresh"@ {
                    event_of(block)->Err_0
                } else if block.name == "rerun"@ {
                    rerun_of(block)->Err_0
                } else {
                    Stop::Wrong(ErrorView::UnknownBlock { name: block.name })
                },
            )
        }),
{
    let blocks = blocks_of(text)->Ok_0;
    lemma_block_names();
    lemma_config_blocks(blocks.take(i));
    lemma_fold_step(no_config(), blocks, i, block_step());
    lemma_fold_error(no_config(), blocks, i + 1, block_step());
}

/// The first app that cannot be started is what is said of a config, before anything else.
pub proof fn law_first_wrong_app_decides(config: ConfigView, i: int)
    requires
        0 <= i < config.apps.len(),
        forall|k: int| 0 <= k < i ==> app_check(#[trigger] config.apps[k]) is Ok,
        app_check(config.apps[i]) is Err,
    ensures
        config_check(config) == app_check(config.apps[i]),
{
    crate::validate::lemma_first_refusal(config.apps, i, crate::validate::app_step());
}

/// The first text entry that is for no app, and after all of those the first such timer, is what is
/// said of a config in which every app can be started.
pub proof fn law_first_unknown_target_decides(config: ConfigView, i: int)
    requires
        forall|k: int| 0 <= k < config.apps.len() ==> app_check(#[trigger] config.apps[k]) is Ok,
    ensures
        0 <= i < config.text_entries.len() && (forall|k: int|
            0 <= k < i ==> some_app_is_named(
                config.apps,
                (#[trigger] config.text_entries[k]).target,
            )) && !some_app_is_named(config.apps, config.text_entries[i].target) ==> config_check(
            config,
        ) == Err::<(), ErrorView>(
            ErrorView::UnknownTarget { name: config.text_entries[i].target },
        ),
        0 <= i < config.refreshes.len() && (forall|k: int|
            0 <= k < config.text_entries.len() ==> some_app_is_named(
                config.apps,
                (#[trigger] config.text_entries[k]).target,
            )) && (forall|k: int|
            0 <= k < i ==> some_app_is_named(config.apps, (#[trigger] config.refreshes[k]).target))
            && !some_app_is_named(config.apps, config.refreshes[i].target) ==> config_check(config)
            == Err::<(), ErrorView>(ErrorView::UnknownTarget { name: config.refreshes[i].target }),
{
    crate::validate::lemma_first_refusal(
        config.apps,
        config.apps.len() as int,
        crate::validate::app_step(),
    );
    crate::validate::lemma_first_refusal(
        config.text_entries,
        i,
        crate::validate::entry_step(config.apps),
    );
    crate::validate::lemma_first_refusal(
        config.text_entries,
        config.text_entries.len() as int,
        crate::validate::entry_step(config.apps),
    );
    crate::validate::lemma_first_refusal(
        config.refreshes,
        i,
        crate::validate::event_step(config.apps),
    );
    assert forall|name: Seq<char>| is_named(config.apps, name) <==> some_app_is_named(
        config.apps,
        name,
    ) by {}
}

} // verus!
