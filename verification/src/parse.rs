//! Reading a config from its text.
use crate::config::{
    no_app, no_config, no_kill, no_text_entry, no_timed_event, App, AppKind, AppView, Block,
    BlockView, Config, ConfigView, DurationSpec, DurationView, KillRule, KillRuleView,
    RefreshAction, TextEntry, TextEntryView, TimedEvent, TimedEventView,
};
use crate::error::{outcome, Error, ErrorView};
use crate::fold::{fold, lemma_fold_all, lemma_fold_error, lemma_fold_step};
use crate::number::{number_of, parse_u64};
use crate::text::{
    chars_of, cut, lines, lines_of, lowered, same, split_once, substring, to_lower, trim, trimmed,
};
use crate::validate::{app_check, config_check, validate_app, validate_config};
use crate::values::{
    bool_of, checked_outcome, checked_parse_duration, commands_of, duration_of, parse_bool,
    parse_text_commands, stopped, Stop,
};
use vstd::prelude::*;

verus! {

/// A `key=value` pair.
pub type Pair = (Seq<char>, Seq<char>);

// Apps.

/// What one pair of an `[app]` block says of the app.
pub open spec fn app_pair(app: AppView, key: Seq<char>, value: Seq<char>) -> Result<
    AppView,
    ErrorView,
> {
    if key == "name"@ {
        Ok(AppView { name: value, ..app })
    } else if key == "kind"@ {
        let word = lowered(value);
        if word == "native"@ {
            Ok(AppView { kind: AppKind::Native, ..app })
        } else if word == "web"@ {
            Ok(AppView { kind: AppKind::Web, ..app })
        } else {
            Err(ErrorView::UnknownAppKind { app: app.name, value })
        }
    } else if key == "command"@ {
        Ok(AppView { command: value, ..app })
    } else if key == "args"@ {
        Ok(AppView { args: value, ..app })
    } else if key == "url"@ {
        Ok(AppView { url: value, ..app })
    } else if key == "browser"@ {
        Ok(AppView { browser: value, ..app })
    } else if key == "browser_args"@ {
        Ok(AppView { browser_args: value, ..app })
    } else if key == "profile"@ {
        Ok(AppView { profile: value, ..app })
    } else if key == "workspace"@ {
        Ok(AppView { workspace: value, ..app })
    } else if key == "match"@ {
        Ok(AppView { match_criteria: value, ..app })
    } else if key == "layout"@ {
        Ok(AppView { layout: value, ..app })
    } else if key == "startup_delay"@ {
        match number_of(value) {
            Ok(startup_delay) => Ok(AppView { startup_delay, ..app }),
            Err(error) => Err(ErrorView::Number { error }),
        }
    } else {
        Err(ErrorView::UnknownAppKey { app: app.name, key })
    }
}

pub open spec fn app_pair_step() -> spec_fn(AppView, Pair) -> Result<AppView, ErrorView> {
    |app: AppView, pair: Pair| app_pair(app, pair.0, pair.1)
}

/// An app before the first pair of its block.
pub open spec fn fresh_app() -> AppView {
    AppView { browser: "chromium-browser"@, ..no_app() }
}

pub open spec fn app_of(block: BlockView) -> Result<AppView, ErrorView> {
    match fold(fresh_app(), block.pairs, app_pair_step()) {
        Err(error) => Err(error),
        Ok(app) => match app_check(app) {
            Err(error) => Err(error),
            Ok(_) => Ok(app),
        },
    }
}

fn set_app_pair(app: &mut App, key: &String, value: &String) -> (r: Result<(), Error>)
    ensures
        match app_pair(old(app).deep_view(), key@, value@) {
            Ok(after) => r is Ok && final(app).deep_view() == after,
            Err(error) => r is Err && r->Err_0.deep_view() == error,
        },
{
    if same(key, "name") {
        app.name = value.clone();
    } else if same(key, "kind") {
        let word = to_lower(value);
        if same(&word, "native") {
            app.kind = AppKind::Native;
        } else if same(&word, "web") {
            app.kind = AppKind::Web;
        } else {
            return Err(Error::UnknownAppKind { app: app.name.clone(), value: value.clone() });
        }
    } else if same(key, "command") {
        app.command = value.clone();
    } else if same(key, "args") {
        app.args = value.clone();
    } else if same(key, "url") {
        app.url = value.clone();
    } else if same(key, "browser") {
        app.browser = value.clone();
    } else if same(key, "browser_args") {
        app.browser_args = value.clone();
    } else if same(key, "profile") {
        app.profile = value.clone();
    } else if same(key, "workspace") {
        app.workspace = value.clone();
    } else if same(key, "match") {
        app.match_criteria = value.clone();
    } else if same(key, "layout") {
        app.layout = value.clone();
    } else if same(key, "startup_delay") {
        match parse_u64(value) {
            Ok(seconds) => {
                app.startup_delay = seconds;
            },
            Err(error) => {
                return Err(Error::Number { error });
            },
        }
    } else {
        return Err(Error::UnknownAppKey { app: app.name.clone(), key: key.clone() });
    }
    Ok(())
}

pub fn parse_app(block: &Block) -> (r: Result<App, Error>)
    ensures
        outcome(r) == app_of(block.deep_view()),
{
    let mut app = App { browser: "chromium-browser".to_owned(), ..App::default() };
    let ghost pairs = block.deep_view().pairs;
    assert(app.deep_view() == fresh_app());
    for i in 0..block.pairs.len()
        invariant
            pairs == block.deep_view().pairs,
            fold(fresh_app(), pairs.take(i as int), app_pair_step()) == Ok::<AppView, ErrorView>(
                app.deep_view(),
            ),
    {
        let (key, value) = &block.pairs[i];
        proof {
            assert(pairs[i as int] == block.pairs@[i as int].deep_view());
            lemma_fold_step(fresh_app(), pairs, i as int, app_pair_step());
        }
        match set_app_pair(&mut app, key, value) {
            Ok(_) => {},
            Err(error) => {
                proof {
                    lemma_fold_error(fresh_app(), pairs, i + 1, app_pair_step());
                }
                return Err(error);
            },
        }
    }
    proof {
        lemma_fold_all(fresh_app(), pairs, app_pair_step());
    }
    match validate_app(&app) {
        Ok(_) => Ok(app),
        Err(error) => Err(error),
    }
}

// Kill rules.

pub open spec fn kill_pair(kill: KillRuleView, key: Seq<char>, value: Seq<char>) -> Result<
    KillRuleView,
    ErrorView,
> {
    if key == "name"@ {
        Ok(KillRuleView { name: value, ..kill })
    } else if key == "pattern"@ {
        Ok(KillRuleView { pattern: value, ..kill })
    } else if key == "signal"@ {
        Ok(KillRuleView { signal: value, ..kill })
    } else {
        Err(ErrorView::UnknownKillKey { key })
    }
}

pub open spec fn kill_pair_step() -> spec_fn(KillRuleView, Pair) -> Result<
    KillRuleView,
    ErrorView,
> {
    |kill: KillRuleView, pair: Pair| kill_pair(kill, pair.0, pair.1)
}

pub open spec fn fresh_kill() -> KillRuleView {
    KillRuleView { signal: "TERM"@, ..no_kill() }
}

pub open spec fn kill_of(block: BlockView) -> Result<KillRuleView, ErrorView> {
    match fold(fresh_kill(), block.pairs, kill_pair_step()) {
        Err(error) => Err(error),
        Ok(kill) => if kill.pattern.len() == 0 {
            Err(ErrorView::KillWithoutPattern)
        } else {
            Ok(kill)
        },
    }
}

pub fn parse_kill(block: &Block) -> (r: Result<KillRule, Error>)
    ensures
        outcome(r) == kill_of(block.deep_view()),
{
    let mut kill = KillRule { signal: "TERM".to_owned(), ..KillRule::default() };
    let ghost pairs = block.deep_view().pairs;
    assert(kill.deep_view() == fresh_kill());
    for i in 0..block.pairs.len()
        invariant
            pairs == block.deep_view().pairs,
            fold(fresh_kill(), pairs.take(i as int), kill_pair_step()) == Ok::<
                KillRuleView,
                ErrorView,
            >(kill.deep_view()),
    {
        let (key, value) = &block.pairs[i];
        proof {
            assert(pairs[i as int] == block.pairs@[i as int].deep_view());
            lemma_fold_step(fresh_kill(), pairs, i as int, kill_pair_step());
        }
        if same(key, "name") {
            kill.name = value.clone();
        } else if same(key, "pattern") {
            kill.pattern = value.clone();
        } else if same(key, "signal") {
            kill.signal = value.clone();
        } else {
            proof {
                lemma_fold_error(fresh_kill(), pairs, i + 1, kill_pair_step());
            }
            return Err(Error::UnknownKillKey { key: key.clone() });
        }
    }
    proof {
        lemma_fold_all(fresh_kill(), pairs, kill_pair_step());
    }
    if kill.pattern.as_str().is_empty() {
        return Err(Error::KillWithoutPattern);
    }
    Ok(kill)
}

// Text entries.

pub open spec fn entry_pair(entry: TextEntryView, key: Seq<char>, value: Seq<char>) -> Result<
    TextEntryView,
    ErrorView,
> {
    if key == "target"@ {
        Ok(TextEntryView { target: value, ..entry })
    } else if key == "delay"@ {
        match number_of(value) {
            Ok(delay) => Ok(TextEntryView { delay, ..entry }),
            Err(error) => Err(ErrorView::Number { error }),
        }
    } else if key == "commands"@ {
        match commands_of(value) {
            Ok(commands) => Ok(TextEntryView { commands, ..entry }),
            Err(error) => Err(error),
        }
    } else {
        Err(ErrorView::UnknownTextKey { key })
    }
}

pub open spec fn entry_pair_step() -> spec_fn(TextEntryView, Pair) -> Result<
    TextEntryView,
    ErrorView,
> {
    |entry: TextEntryView, pair: Pair| entry_pair(entry, pair.0, pair.1)
}

pub open spec fn entry_of(block: BlockView) -> Result<TextEntryView, ErrorView> {
    match fold(no_text_entry(), block.pairs, entry_pair_step()) {
        Err(error) => Err(error),
        Ok(entry) => if entry.target.len() == 0 {
            Err(ErrorView::TextWithoutTarget)
        } else if entry.commands.len() == 0 {
            Err(ErrorView::TextWithoutCommands { target: entry.target })
        } else {
            Ok(entry)
        },
    }
}

pub fn parse_text_entry(block: &Block) -> (r: Result<TextEntry, Error>)
    ensures
        outcome(r) == entry_of(block.deep_view()),
{
    let mut entry = TextEntry::default();
    let ghost pairs = block.deep_view().pairs;
    for i in 0..block.pairs.len()
        invariant
            pairs == block.deep_view().pairs,
            fold(no_text_entry(), pairs.take(i as int), entry_pair_step()) == Ok::<
                TextEntryView,
                ErrorView,
            >(entry.deep_view()),
    {
        let (key, value) = &block.pairs[i];
        proof {
            assert(pairs[i as int] == block.pairs@[i as int].deep_view());
            lemma_fold_step(no_text_entry(), pairs, i as int, entry_pair_step());
        }
        let mut wrong: Option<Error> = None;
        if same(key, "target") {
            entry.target = value.clone();
        } else if same(key, "delay") {
            match parse_u64(value) {
                Ok(seconds) => {
                    entry.delay = seconds;
                },
                Err(error) => {
                    wrong = Some(Error::Number { error });
                },
            }
        } else if same(key, "commands") {
            match parse_text_commands(value) {
                Ok(commands) => {
                    entry.commands = commands;
                },
                Err(error) => {
                    wrong = Some(error);
                },
            }
        } else {
            wrong = Some(Error::UnknownTextKey { key: key.clone() });
        }
        if let Some(error) = wrong {
            proof {
                lemma_fold_error(no_text_entry(), pairs, i + 1, entry_pair_step());
            }
            return Err(error);
        }
    }
    proof {
        lemma_fold_all(no_text_entry(), pairs, entry_pair_step());
    }
    if entry.target.as_str().is_empty() {
        return Err(Error::TextWithoutTarget);
    }
    if entry.commands.len() == 0 {
        return Err(Error::TextWithoutCommands { target: entry.target });
    }
    Ok(entry)
}

// Timers.

pub open spec fn event_pair(event: TimedEventView, key: Seq<char>, value: Seq<char>) -> Result<
    TimedEventView,
    Stop,
> {
    if key == "target"@ {
        Ok(TimedEventView { target: value, ..event })
    } else if key == "after"@ {
        match duration_of(value) {
            Ok(after) => Ok(TimedEventView { after, ..event }),
            Err(stop) => Err(stop),
        }
    } else if key == "action"@ {
        let word = lowered(value);
        if word == "reload"@ {
            Ok(TimedEventView { action: RefreshAction::Reload, ..event })
        } else if word == "relaunch"@ {
            Ok(TimedEventView { action: RefreshAction::Relaunch, ..event })
        } else {
            Err(Stop::Wrong(ErrorView::UnknownRefreshAction { value }))
        }
    } else if key == "repeat"@ {
        match bool_of(value) {
            Ok(repeat) => Ok(TimedEventView { repeat, ..event }),
            Err(error) => Err(Stop::Wrong(error)),
        }
    } else {
        Err(Stop::Wrong(ErrorView::UnknownRefreshKey { key }))
    }
}

pub open spec fn event_pair_step() -> spec_fn(TimedEventView, Pair) -> Result<
    TimedEventView,
    Stop,
> {
    |event: TimedEventView, pair: Pair| event_pair(event, pair.0, pair.1)
}

pub open spec fn event_of(block: BlockView) -> Result<TimedEventView, Stop> {
    match fold(no_timed_event(), block.pairs, event_pair_step()) {
        Err(stop) => Err(stop),
        Ok(event) => if event.target.len() == 0 {
            Err(Stop::Wrong(ErrorView::RefreshWithoutTarget))
        } else if event.after.seconds == 0 {
            Err(Stop::Wrong(ErrorView::RefreshWithoutAfter { target: event.target }))
        } else {
            Ok(event)
        },
    }
}

/// Sets what one pair says of a timer; `None` if a duration has too many seconds.
fn set_event_pair(event: &mut TimedEvent, key: &String, value: &String) -> (r: Option<
    Result<(), Error>,
>)
    ensures
        match event_pair(old(event).deep_view(), key@, value@) {
            Ok(after) => r == Some(Ok::<(), Error>(())) && final(event).deep_view() == after,
            Err(stop) => checked_outcome(r) == Err::<(), Stop>(stop),
        },
{
    if same(key, "target") {
        event.target = value.clone();
    } else if same(key, "after") {
        match checked_parse_duration(value) {
            Some(Ok(after)) => {
                event.after = after;
            },
            Some(Err(error)) => {
                return Some(Err(error));
            },
            None => {
                return None;
            },
        }
    } else if same(key, "action") {
        let word = to_lower(value);
        if same(&word, "reload") {
            event.action = RefreshAction::Reload;
        } else if same(&word, "relaunch") {
            event.action = RefreshAction::Relaunch;
        } else {
            return Some(Err(Error::UnknownRefreshAction { value: value.clone() }));
        }
    } else if same(key, "repeat") {
        match parse_bool(value) {
            Ok(repeat) => {
                event.repeat = repeat;
            },
            Err(error) => {
                return Some(Err(error));
            },
        }
    } else {
        return Some(Err(Error::UnknownRefreshKey { key: key.clone() }));
    }
    Some(Ok(()))
}

/// Reads a timer; `None` if a duration has more seconds than 64 bits can count.
pub fn checked_parse_timed_event(block: &Block) -> (r: Option<Result<TimedEvent, Error>>)
    ensures
        checked_outcome(r) == event_of(block.deep_view()),
{
    let mut event = TimedEvent::default();
    let ghost pairs = block.deep_view().pairs;
    for i in 0..block.pairs.len()
        invariant
            pairs == block.deep_view().pairs,
            fold(no_timed_event(), pairs.take(i as int), event_pair_step()) == Ok::<
                TimedEventView,
                Stop,
            >(event.deep_view()),
    {
        let (key, value) = &block.pairs[i];
        proof {
            assert(pairs[i as int] == block.pairs@[i as int].deep_view());
            lemma_fold_step(no_timed_event(), pairs, i as int, event_pair_step());
        }
        let set = set_event_pair(&mut event, key, value);
        proof {
            if set != Some(Ok::<(), Error>(())) {
                lemma_fold_error(no_timed_event(), pairs, i + 1, event_pair_step());
            }
        }
        match set {
            Some(Ok(_)) => {},
            Some(Err(error)) => {
                return Some(Err(error));
            },
            None => {
                return None;
            },
        }
    }
    proof {
        lemma_fold_all(no_timed_event(), pairs, event_pair_step());
    }
    if event.target.as_str().is_empty() {
        return Some(Err(Error::RefreshWithoutTarget));
    }
    if event.after.seconds == 0 {
        return Some(Err(Error::RefreshWithoutAfter { target: event.target }));
    }
    Some(Ok(event))
}

pub fn parse_timed_event(block: &Block) -> (r: Result<TimedEvent, Error>)
    requires
        event_of(block.deep_view()) != Err::<TimedEventView, Stop>(Stop::Overflow),
    ensures
        stopped(outcome(r)) == event_of(block.deep_view()),
{
    checked_parse_timed_event(block).unwrap()
}

/// The first pair of a `[rerun]` block decides.
pub open spec fn rerun_of(block: BlockView) -> Result<DurationView, Stop> {
    if block.pairs.len() == 0 {
        Err(Stop::Wrong(ErrorView::RerunWithoutAfter))
    } else if block.pairs[0].0 == "after"@ {
        duration_of(block.pairs[0].1)
    } else {
        Err(Stop::Wrong(ErrorView::UnknownRerunKey { key: block.pairs[0].0 }))
    }
}

/// Reads the time after which to rerun; `None` if it has more seconds than 64 bits can count.
pub fn checked_parse_rerun(block: &Block) -> (r: Option<Result<DurationSpec, Error>>)
    ensures
        checked_outcome(r) == rerun_of(block.deep_view()),
{
    if block.pairs.len() == 0 {
        return Some(Err(Error::RerunWithoutAfter));
    }
    let (key, value) = &block.pairs[0];
    assert(block.deep_view().pairs[0] == block.pairs@[0].deep_view());
    if same(key, "after") {
        return checked_parse_duration(value);
    }
    Some(Err(Error::UnknownRerunKey { key: key.clone() }))
}

pub fn parse_rerun(block: &Block) -> (r: Result<DurationSpec, Error>)
    requires
        rerun_of(block.deep_view()) != Err::<DurationView, Stop>(Stop::Overflow),
    ensures
        stopped(outcome(r)) == rerun_of(block.deep_view()),
{
    checked_parse_rerun(block).unwrap()
}

// Lines to blocks.

/// What has been read of a config's lines: how many they were, and the blocks they made.
#[verifier::ext_equal]
pub struct Progress {
    pub count: nat,
    pub blocks: Seq<BlockView>,
}

pub open spec fn is_comment(line: Seq<char>) -> bool {
    line.len() == 0 || line[0] == '#'
}

pub open spec fn is_header(line: Seq<char>) -> bool {
    line.len() > 0 && line[0] == '[' && line.last() == ']'
}

/// The block that a header starts.
pub open spec fn header_block(line: Seq<char>) -> BlockView {
    BlockView { name: lowered(trimmed(line.subrange(1, line.len() - 1))), pairs: seq![] }
}

pub open spec fn with_pair(block: BlockView, key: Seq<char>, value: Seq<char>) -> BlockView {
    BlockView { name: block.name, pairs: block.pairs.push((key, value)) }
}

/// What a line, without the white space at its ends, does to the blocks before it.
pub open spec fn line_effect(
    blocks: Seq<BlockView>,
    number: nat,
    raw: Seq<char>,
) -> Result<Seq<BlockView>, ErrorView> {
    let line = trimmed(raw);
    if is_comment(line) {
        Ok(blocks)
    } else if is_header(line) {
        Ok(blocks.push(header_block(line)))
    } else {
        match cut(line, '=') {
            None => Err(ErrorView::NotKeyValue { line: number as usize, text: raw }),
            Some((key, value)) => if blocks.len() == 0 {
                Err(ErrorView::BeforeHeader { line: number as usize })
            } else {
                Ok(
                    blocks.drop_last().push(
                        with_pair(blocks.last(), lowered(trimmed(key)), trimmed(value)),
                    ),
                )
            },
        }
    }
}

pub open spec fn line_step() -> spec_fn(Progress, Seq<char>) -> Result<Progress, ErrorView> {
    |progress: Progress, raw: Seq<char>|
        match line_effect(progress.blocks, progress.count + 1, raw) {
            Ok(blocks) => Ok(Progress { count: progress.count + 1, blocks }),
            Err(error) => Err(error),
        }
}

pub open spec fn nothing_read() -> Progress {
    Progress { count: 0, blocks: seq![] }
}

/// The blocks of a config's text.
pub open spec fn blocks_of(text: Seq<char>) -> Result<Seq<BlockView>, ErrorView> {
    match fold(nothing_read(), lines_of(text), line_step()) {
        Ok(progress) => Ok(progress.blocks),
        Err(error) => Err(error),
    }
}

/// Takes one line; `number` is its place in the text, counted from 1.
fn read_line(blocks: &mut Vec<Block>, number: usize, raw: &String) -> (r: Result<(), Error>)
    ensures
        match line_effect(old(blocks).deep_view(), number as nat, raw@) {
            Ok(after) => r is Ok && final(blocks).deep_view() == after,
            Err(error) => r is Err && r->Err_0.deep_view() == error,
        },
{
    let line = trim(raw);
    let cs = chars_of(&line);
    if cs.len() == 0 || cs[0] == '#' {
        return Ok(());
    }
    if cs[0] == '[' && cs[cs.len() - 1] == ']' {
        let name = to_lower(&trim(&substring(&cs, 1, cs.len() - 1)));
        let block = Block { name, pairs: Vec::new() };
        blocks.push(block);
        proof {
            assert(block.deep_view() == header_block(line@));
            assert(blocks.deep_view() == old(blocks).deep_view().push(block.deep_view()));
        }
        return Ok(());
    }
    match split_once(&line, '=') {
        None => Err(Error::NotKeyValue { line: number, text: raw.clone() }),
        Some((key, value)) => {
            match blocks.pop() {
                None => Err(Error::BeforeHeader { line: number }),
                Some(block) => {
                    let mut block = block;
                    let ghost before = block;
                    let pair = (to_lower(&trim(&key)), trim(&value));
                    block.pairs.push(pair);
                    blocks.push(block);
                    proof {
                        assert(block.pairs.deep_view() == before.pairs.deep_view().push(
                            pair.deep_view(),
                        ));
                        let all = old(blocks).deep_view();
                        assert(all.last() == before.deep_view());
                        assert(blocks.deep_view() == all.drop_last().push(block.deep_view()));
                    }
                    Ok(())
                },
            }
        },
    }
}

pub fn parse_blocks(input: &str) -> (r: Result<Vec<Block>, Error>)
    ensures
        outcome(r) == blocks_of(input@),
{
    let raw_lines = lines(input);
    let ghost all = lines_of(input@);
    let mut blocks: Vec<Block> = Vec::new();
    assert(blocks.deep_view() == nothing_read().blocks);
    for i in 0..raw_lines.len()
        invariant
            raw_lines.deep_view() == all,
            all == lines_of(input@),
            fold(nothing_read(), all.take(i as int), line_step()) == Ok::<Progress, ErrorView>(
                Progress { count: i as nat, blocks: blocks.deep_view() },
            ),
    {
        proof {
            assert(all[i as int] == raw_lines@[i as int]@);
            lemma_fold_step(nothing_read(), all, i as int, line_step());
        }
        match read_line(&mut blocks, i + 1, &raw_lines[i]) {
            Ok(_) => {},
            Err(error) => {
                proof {
                    lemma_fold_error(nothing_read(), all, i + 1, line_step());
                }
                return Err(error);
            },
        }
    }
    proof {
        lemma_fold_all(nothing_read(), all, line_step());
    }
    Ok(blocks)
}

// Blocks to a config.

/// What a block adds to a config.
pub open spec fn block_effect(config: ConfigView, block: BlockView) -> Result<ConfigView, Stop> {
    if block.name == "app"@ {
        match app_of(block) {
            Ok(app) => Ok(ConfigView { apps: config.apps.push(app), ..config }),
            Err(error) => Err(Stop::Wrong(error)),
        }
    } else if block.name == "kill"@ {
        match kill_of(block) {
            Ok(kill) => Ok(ConfigView { kills: config.kills.push(kill), ..config }),
            Err(error) => Err(Stop::Wrong(error)),
        }
    } else if block.name == "text"@ {
        match entry_of(block) {
            Ok(entry) => Ok(
                ConfigView { text_entries: config.text_entries.push(entry), ..config },
            ),
            Err(error) => Err(Stop::Wrong(error)),
        }
    } else if block.name == "refresh"@ {
        match event_of(block) {
            Ok(event) => Ok(ConfigView { refreshes: config.refreshes.push(event), ..config }),
            Err(stop) => Err(stop),
        }
    } else if block.name == "rerun"@ {
        match rerun_of(block) {
            Ok(after) => Ok(ConfigView { rerun: Some(after), ..config }),
            Err(stop) => Err(stop),
        }
    } else {
        Err(Stop::Wrong(ErrorView::UnknownBlock { name: block.name }))
    }
}

pub open spec fn block_step() -> spec_fn(ConfigView, BlockView) -> Result<ConfigView, Stop> {
    |config: ConfigView, block: BlockView| block_effect(config, block)
}

/// The config that a text stands for: its lines make blocks, its blocks make a config, and the
/// config as a whole must be valid.
pub open spec fn config_of(text: Seq<char>) -> Result<ConfigView, Stop> {
    match blocks_of(text) {
        Err(error) => Err(Stop::Wrong(error)),
        Ok(blocks) => match fold(no_config(), blocks, block_step()) {
            Err(stop) => Err(stop),
            Ok(config) => match config_check(config) {
                Err(error) => Err(Stop::Wrong(error)),
                Ok(_) => Ok(config),
            },
        },
    }
}

/// Adds what a block says; `None` if a duration has too many seconds.
fn add_block(config: &mut Config, block: &Block) -> (r: Option<Result<(), Error>>)
    ensures
        match block_effect(old(config).deep_view(), block.deep_view()) {
            Ok(after) => r == Some(Ok::<(), Error>(())) && final(config).deep_view() == after,
            Err(stop) => checked_outcome(r) == Err::<(), Stop>(stop),
        },
{
    let ghost before = config.deep_view();
    if same(&block.name, "app") {
        match parse_app(block) {
            Ok(app) => {
                config.apps.push(app);
                assert(config.apps.deep_view() == before.apps.push(app.deep_view()));
            },
            Err(error) => {
                return Some(Err(error));
            },
        }
    } else if same(&block.name, "kill") {
        match parse_kill(block) {
            Ok(kill) => {
                config.kills.push(kill);
                assert(config.kills.deep_view() == before.kills.push(kill.deep_view()));
            },
            Err(error) => {
                return Some(Err(error));
            },
        }
    } else if same(&block.name, "text") {
        match parse_text_entry(block) {
            Ok(entry) => {
                config.text_entries.push(entry);
                assert(config.text_entries.deep_view() == before.text_entries.push(
                    entry.deep_view(),
                ));
            },
            Err(error) => {
                return Some(Err(error));
            },
        }
    } else if same(&block.name, "refresh") {
        match checked_parse_timed_event(block) {
            Some(Ok(event)) => {
                config.refreshes.push(event);
                assert(config.refreshes.deep_view() == before.refreshes.push(event.deep_view()));
            },
            Some(Err(error)) => {
                return Some(Err(error));
            },
            None => {
                return None;
            },
        }
    } else if same(&block.name, "rerun") {
        match checked_parse_rerun(block) {
            Some(Ok(after)) => {
                config.rerun = Some(after);
            },
            Some(Err(error)) => {
                return Some(Err(error));
            },
            None => {
                return None;
            },
        }
    } else {
        return Some(Err(Error::UnknownBlock { name: block.name.clone() }));
    }
    Some(Ok(()))
}

/// Reads a config; `None` if a duration has more seconds than 64 bits can count.
pub fn checked_parse_config(input: &str) -> (r: Option<Result<Config, Error>>)
    ensures
        checked_outcome(r) == config_of(input@),
{
    let blocks = match parse_blocks(input) {
        Ok(blocks) => blocks,
        Err(error) => {
            return Some(Err(error));
        },
    };
    let ghost all = blocks.deep_view();
    let mut config = Config::default();
    for i in 0..blocks.len()
        invariant
            all == blocks.deep_view(),
            blocks_of(input@) == Ok::<Seq<BlockView>, ErrorView>(all),
            fold(no_config(), all.take(i as int), block_step()) == Ok::<ConfigView, Stop>(
                config.deep_view(),
            ),
    {
        proof {
            assert(all[i as int] == blocks@[i as int].deep_view());
            lemma_fold_step(no_config(), all, i as int, block_step());
        }
        let added = add_block(&mut config, &blocks[i]);
        proof {
            if added != Some(Ok::<(), Error>(())) {
                lemma_fold_error(no_config(), all, i + 1, block_step());
            }
        }
        match added {
            Some(Ok(_)) => {},
            Some(Err(error)) => {
                return Some(Err(error));
            },
            None => {
                return None;
            },
        }
    }
    proof {
        lemma_fold_all(no_config(), all, block_step());
    }
    match validate_config(&config) {
        Ok(_) => Some(Ok(config)),
        Err(error) => Some(Err(error)),
    }
}

/// Reads a config.
pub fn parse_config(input: &str) -> (r: Result<Config, Error>)
    requires
        config_of(input@) != Err::<ConfigView, Stop>(Stop::Overflow),
    ensures
        stopped(outcome(r)) == config_of(input@),
{
    checked_parse_config(input).unwrap()
}

} // verus!
