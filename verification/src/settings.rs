//! What the lines of a block say, whatever order they stand in.
use crate::config::{
    no_duration, AppKind, AppView, BlockView, DurationView, KillRuleView, RefreshAction,
    TextCommandView, TextEntryView, TimedEventView,
};
use crate::error::ErrorView;
use crate::fold::{fold, lemma_fold_error};
use crate::number::{number_of, NumberError};
use crate::parse::{
    app_of, app_pair_step, entry_of, entry_pair_step, event_of, event_pair_step, fresh_app,
    fresh_kill, kill_of, kill_pair_step, rerun_of, Pair,
};
use crate::text::lowered;
use crate::values::{commands_of, duration_of, Stop};
use crate::words::{
    lemma_actions, lemma_app_keys, lemma_bools, lemma_kill_keys, lemma_kinds, lemma_refresh_keys,
    lemma_text_keys,
};
use vstd::prelude::*;

verus! {

/// The value of a key: that on the last line for it, `None` if there is no such line.
pub open spec fn setting(pairs: Seq<Pair>, key: Seq<char>) -> Option<Seq<char>>
    decreases pairs.len(),
{
    if pairs.len() == 0 {
        None
    } else if pairs.last().0 == key {
        Some(pairs.last().1)
    } else {
        setting(pairs.drop_last(), key)
    }
}

/// The value of a key, or what it is without a line for it.
pub open spec fn text_setting(pairs: Seq<Pair>, key: Seq<char>, default: Seq<char>) -> Seq<char> {
    match setting(pairs, key) {
        Some(value) => value,
        None => default,
    }
}

/// The number of a key, zero without a line for it.
pub open spec fn number_setting(pairs: Seq<Pair>, key: Seq<char>) -> Result<u64, NumberError> {
    match setting(pairs, key) {
        Some(value) => number_of(value),
        None => Ok(0),
    }
}

pub open spec fn is_true_word(value: Seq<char>) -> bool {
    lowered(value) == "true"@ || lowered(value) == "yes"@ || lowered(value) == "1"@
}

pub open spec fn is_false_word(value: Seq<char>) -> bool {
    lowered(value) == "false"@ || lowered(value) == "no"@ || lowered(value) == "0"@
}

/// No key has two lines.
pub open spec fn has_single_lines(pairs: Seq<Pair>) -> bool {
    forall|i: int, j: int|
        0 <= i < j < pairs.len() ==> (#[trigger] pairs[i]).0 != (#[trigger] pairs[j]).0
}

/// Two blocks with the same lines, in whatever order.
pub open spec fn have_same_lines(a: Seq<Pair>, b: Seq<Pair>) -> bool {
    &&& has_single_lines(a)
    &&& has_single_lines(b)
    &&& forall|pair: Pair| a.contains(pair) <==> b.contains(pair)
}

proof fn lemma_single_setting(pairs: Seq<Pair>, key: Seq<char>)
    requires
        has_single_lines(pairs),
    ensures
        forall|value: Seq<char>|
            setting(pairs, key) == Some(value) <==> #[trigger] pairs.contains((key, value)),
    decreases pairs.len(),
{
    if pairs.len() > 0 {
        let front = pairs.drop_last();
        assert forall|i: int, j: int| 0 <= i < j < front.len() implies (#[trigger] front[i]).0 != (
        #[trigger] front[j]).0 by {
            assert(front[i] == pairs[i] && front[j] == pairs[j]);
        }
        lemma_single_setting(front, key);
        let last = pairs.last();
        assert(pairs[pairs.len() - 1] == last);
        assert forall|value: Seq<char>|
            setting(pairs, key) == Some(value) <==> #[trigger] pairs.contains((key, value)) by {
            if pairs.contains((key, value)) {
                let i = choose|i: int| 0 <= i < pairs.len() && pairs[i] == (key, value);
                if i < front.len() {
                    assert(front[i] == (key, value));
                    assert(front.contains((key, value)));
                }
            }
            if front.contains((key, value)) {
                let i = choose|i: int| 0 <= i < front.len() && front[i] == (key, value);
                assert(pairs[i] == (key, value));
            }
        }
    }
}

proof fn lemma_same_setting(a: Seq<Pair>, b: Seq<Pair>, key: Seq<char>)
    requires
        have_same_lines(a, b),
    ensures
        setting(a, key) == setting(b, key),
{
    lemma_single_setting(a, key);
    lemma_single_setting(b, key);
    if let Some(value) = setting(a, key) {
        assert(a.contains((key, value)));
        assert(b.contains((key, value)));
    }
    if let Some(value) = setting(b, key) {
        assert(b.contains((key, value)));
        assert(a.contains((key, value)));
    }
}

/// Every line of a block is in order.
pub open spec fn all_lines(pairs: Seq<Pair>, ok: spec_fn(Pair) -> bool) -> bool {
    forall|i: int| 0 <= i < pairs.len() ==> ok(#[trigger] pairs[i])
}

proof fn lemma_all_lines_push(pairs: Seq<Pair>, ok: spec_fn(Pair) -> bool)
    requires
        pairs.len() > 0,
    ensures
        all_lines(pairs, ok) <==> all_lines(pairs.drop_last(), ok) && ok(pairs.last()),
{
    let front = pairs.drop_last();
    if all_lines(pairs, ok) {
        assert forall|i: int| 0 <= i < front.len() implies ok(#[trigger] front[i]) by {
            assert(front[i] == pairs[i]);
        }
        assert(ok(pairs[pairs.len() - 1]));
    }
    if all_lines(front, ok) && ok(pairs.last()) {
        assert forall|i: int| 0 <= i < pairs.len() implies ok(#[trigger] pairs[i]) by {
            if i < front.len() {
                assert(front[i] == pairs[i]);
            }
        }
    }
}

proof fn lemma_same_all_lines(a: Seq<Pair>, b: Seq<Pair>, ok: spec_fn(Pair) -> bool)
    requires
        have_same_lines(a, b),
        all_lines(a, ok),
    ensures
        all_lines(b, ok),
{
    assert forall|i: int| 0 <= i < b.len() implies ok(#[trigger] b[i]) by {
        assert(b.contains(b[i]));
        assert(a.contains(b[i]));
        let j = choose|j: int| 0 <= j < a.len() && a[j] == b[i];
        assert(ok(a[j]));
    }
}

// Timers.

/// A line that a `[refresh]` block may have.
pub open spec fn is_timer_line(pair: Pair) -> bool {
    let (key, value) = pair;
    ||| key == "target"@
    ||| key == "after"@ && duration_of(value) is Ok
    ||| key == "action"@ && (lowered(value) == "reload"@ || lowered(value) == "relaunch"@)
    ||| key == "repeat"@ && (is_true_word(value) || is_false_word(value))
}

pub open spec fn timer_line() -> spec_fn(Pair) -> bool {
    |pair: Pair| is_timer_line(pair)
}

/// A timer is what its lines say: each of its parts is the value on the line for it.
pub open spec fn says_timer(pairs: Seq<Pair>, event: TimedEventView) -> bool {
    &&& event.target == text_setting(pairs, "target"@, seq![])
    &&& match setting(pairs, "after"@) {
        Some(value) => duration_of(value) == Ok::<DurationView, Stop>(event.after),
        None => event.after == no_duration(),
    }
    &&& match setting(pairs, "action"@) {
        Some(value) => (event.action == RefreshAction::Relaunch <==> lowered(value)
            == "relaunch"@),
        None => event.action == RefreshAction::Reload,
    }
    &&& match setting(pairs, "repeat"@) {
        Some(value) => event.repeat <==> is_true_word(value),
        None => !event.repeat,
    }
}

proof fn lemma_timer_lines(pairs: Seq<Pair>)
    ensures
        ({
            let read = fold(crate::config::no_timed_event(), pairs, event_pair_step());
            &&& read is Ok <==> all_lines(pairs, timer_line())
            &&& read is Ok ==> says_timer(pairs, read->Ok_0)
        }),
    decreases pairs.len(),
{
    lemma_refresh_keys();
    lemma_actions();
    lemma_bools();
    if pairs.len() > 0 {
        lemma_timer_lines(pairs.drop_last());
        lemma_all_lines_push(pairs, timer_line());
        assert(timer_line()(pairs.last()) == is_timer_line(pairs.last()));
    }
}

/// A `[refresh]` block is read exactly if each of its lines may stand in it and says something
/// that can be understood, there is a target, and the time is not zero; and then each part of the
/// timer is what the line for it says.
pub proof fn law_timer_is_what_its_lines_say(block: BlockView)
    ensures
        event_of(block) is Ok <==> all_lines(block.pairs, timer_line()) && text_setting(
            block.pairs,
            "target"@,
            seq![],
        ).len() > 0 && (setting(block.pairs, "after"@) matches Some(value) && duration_of(
            value,
        )->Ok_0.seconds > 0),
        event_of(block) matches Ok(event) ==> says_timer(block.pairs, event),
{
    lemma_timer_lines(block.pairs);
    if all_lines(block.pairs, timer_line()) {
        lemma_setting_line(block.pairs, "after"@, timer_line());
        lemma_refresh_keys();
    }
}

/// The value of a key stands on a line for it.
proof fn lemma_setting_line(pairs: Seq<Pair>, key: Seq<char>, ok: spec_fn(Pair) -> bool)
    requires
        all_lines(pairs, ok),
    ensures
        setting(pairs, key) matches Some(value) ==> ok((key, value)),
    decreases pairs.len(),
{
    if pairs.len() > 0 {
        lemma_all_lines_push(pairs, ok);
        lemma_setting_line(pairs.drop_last(), key, ok);
        assert(pairs.last() == (pairs.last().0, pairs.last().1));
    }
}

/// The order of the lines of a `[refresh]` block does not matter.
pub proof fn law_timer_lines_in_any_order(a: BlockView, b: BlockView)
    requires
        have_same_lines(a.pairs, b.pairs),
        event_of(a) is Ok,
    ensures
        event_of(b) == event_of(a),
{
    law_timer_is_what_its_lines_say(a);
    law_timer_is_what_its_lines_say(b);
    lemma_same_all_lines(a.pairs, b.pairs, timer_line());
    lemma_same_setting(a.pairs, b.pairs, "target"@);
    lemma_same_setting(a.pairs, b.pairs, "after"@);
    lemma_same_setting(a.pairs, b.pairs, "action"@);
    lemma_same_setting(a.pairs, b.pairs, "repeat"@);
    let x = event_of(a)->Ok_0;
    let y = event_of(b)->Ok_0;
    assert(x.target == y.target && x.after == y.after && x.repeat == y.repeat);
    assert(x.action == y.action);
}

// Apps.

/// A line that an `[app]` block may have.
pub open spec fn is_app_line(pair: Pair) -> bool {
    let (key, value) = pair;
    ||| key == "name"@
    ||| key == "kind"@ && (lowered(value) == "native"@ || lowered(value) == "web"@)
    ||| key == "command"@
    ||| key == "args"@
    ||| key == "url"@
    ||| key == "browser"@
    ||| key == "browser_args"@
    ||| key == "profile"@
    ||| key == "workspace"@
    ||| key == "match"@
    ||| key == "layout"@
    ||| key == "startup_delay"@ && number_of(value) is Ok
}

pub open spec fn app_line() -> spec_fn(Pair) -> bool {
    |pair: Pair| is_app_line(pair)
}

/// An app is what its lines say: each of its parts is the value on the line for it.
pub open spec fn says_app(pairs: Seq<Pair>, app: AppView) -> bool {
    &&& app.name == text_setting(pairs, "name"@, seq![])
    &&& match setting(pairs, "kind"@) {
        Some(value) => (app.kind == AppKind::Web <==> lowered(value) == "web"@),
        None => app.kind == AppKind::Native,
    }
    &&& app.command == text_setting(pairs, "command"@, seq![])
    &&& app.args == text_setting(pairs, "args"@, seq![])
    &&& app.url == text_setting(pairs, "url"@, seq![])
    &&& app.browser == text_setting(pairs, "browser"@, "chromium-browser"@)
    &&& app.browser_args == text_setting(pairs, "browser_args"@, seq![])
    &&& app.profile == text_setting(pairs, "profile"@, seq![])
    &&& app.workspace == text_setting(pairs, "workspace"@, seq![])
    &&& app.match_criteria == text_setting(pairs, "match"@, seq![])
    &&& app.layout == text_setting(pairs, "layout"@, seq![])
    &&& number_setting(pairs, "startup_delay"@) == Ok::<u64, NumberError>(app.startup_delay)
}

proof fn lemma_app_lines(pairs: Seq<Pair>)
    ensures
        ({
            let read = fold(fresh_app(), pairs, app_pair_step());
            &&& read is Ok <==> all_lines(pairs, app_line())
            &&& read is Ok ==> says_app(pairs, read->Ok_0)
        }),
    decreases pairs.len(),
{
    lemma_app_keys();
    lemma_kinds();
    if pairs.len() > 0 {
        lemma_app_lines(pairs.drop_last());
        lemma_all_lines_push(pairs, app_line());
        assert(app_line()(pairs.last()) == is_app_line(pairs.last()));
    }
}

/// Whether the lines of a block make a web app.
pub open spec fn says_web(pairs: Seq<Pair>) -> bool {
    setting(pairs, "kind"@) matches Some(value) && lowered(value) == "web"@
}

/// An `[app]` block is read exactly if each of its lines may stand in it and can be understood,
/// there is a name, and there is a page for a web app or a command for another; and then each part
/// of the app is what the line for it says.
pub proof fn law_app_is_what_its_lines_say(block: BlockView)
    ensures
        app_of(block) is Ok <==> {
            &&& all_lines(block.pairs, app_line())
            &&& text_setting(block.pairs, "name"@, seq![]).len() > 0
            &&& says_web(block.pairs) ==> text_setting(block.pairs, "url"@, seq![]).len() > 0
            &&& !says_web(block.pairs) ==> text_setting(block.pairs, "command"@, seq![]).len() > 0
        },
        app_of(block) matches Ok(app) ==> says_app(block.pairs, app),
{
    lemma_app_lines(block.pairs);
}

/// The order of the lines of an `[app]` block does not matter.
pub proof fn law_app_lines_in_any_order(a: BlockView, b: BlockView)
    requires
        have_same_lines(a.pairs, b.pairs),
        app_of(a) is Ok,
    ensures
        app_of(b) == app_of(a),
{
    lemma_app_lines(a.pairs);
    lemma_app_lines(b.pairs);
    lemma_same_all_lines(a.pairs, b.pairs, app_line());
    lemma_same_setting(a.pairs, b.pairs, "name"@);
    lemma_same_setting(a.pairs, b.pairs, "kind"@);
    lemma_same_setting(a.pairs, b.pairs, "command"@);
    lemma_same_setting(a.pairs, b.pairs, "args"@);
    lemma_same_setting(a.pairs, b.pairs, "url"@);
    lemma_same_setting(a.pairs, b.pairs, "browser"@);
    lemma_same_setting(a.pairs, b.pairs, "browser_args"@);
    lemma_same_setting(a.pairs, b.pairs, "profile"@);
    lemma_same_setting(a.pairs, b.pairs, "workspace"@);
    lemma_same_setting(a.pairs, b.pairs, "match"@);
    lemma_same_setting(a.pairs, b.pairs, "layout"@);
    lemma_same_setting(a.pairs, b.pairs, "startup_delay"@);
    let x = fold(fresh_app(), a.pairs, app_pair_step())->Ok_0;
    let y = fold(fresh_app(), b.pairs, app_pair_step())->Ok_0;
    assert(x.kind == y.kind && x.startup_delay == y.startup_delay);
    assert(x == y);
}

// Kill rules.

/// A line that a `[kill]` block may have.
pub open spec fn is_kill_line(pair: Pair) -> bool {
    pair.0 == "name"@ || pair.0 == "pattern"@ || pair.0 == "signal"@
}

pub open spec fn kill_line() -> spec_fn(Pair) -> bool {
    |pair: Pair| is_kill_line(pair)
}

/// A kill rule is what its lines say.
pub open spec fn says_kill(pairs: Seq<Pair>, kill: KillRuleView) -> bool {
    &&& kill.name == text_setting(pairs, "name"@, seq![])
    &&& kill.pattern == text_setting(pairs, "pattern"@, seq![])
    &&& kill.signal == text_setting(pairs, "signal"@, "TERM"@)
}

proof fn lemma_kill_lines(pairs: Seq<Pair>)
    ensures
        ({
            let read = fold(fresh_kill(), pairs, kill_pair_step());
            &&& read is Ok <==> all_lines(pairs, kill_line())
            &&& read is Ok ==> says_kill(pairs, read->Ok_0)
        }),
    decreases pairs.len(),
{
    lemma_kill_keys();
    if pairs.len() > 0 {
        lemma_kill_lines(pairs.drop_last());
        lemma_all_lines_push(pairs, kill_line());
        assert(kill_line()(pairs.last()) == is_kill_line(pairs.last()));
    }
}

/// A `[kill]` block is read exactly if each of its lines may stand in it and there is a pattern;
/// and then each part of the rule is what the line for it says.
pub proof fn law_kill_is_what_its_lines_say(block: BlockView)
    ensures
        kill_of(block) is Ok <==> all_lines(block.pairs, kill_line()) && text_setting(
            block.pairs,
            "pattern"@,
            seq![],
        ).len() > 0,
        kill_of(block) matches Ok(kill) ==> says_kill(block.pairs, kill),
{
    lemma_kill_lines(block.pairs);
}

/// The order of the lines of a `[kill]` block does not matter.
pub proof fn law_kill_lines_in_any_order(a: BlockView, b: BlockView)
    requires
        have_same_lines(a.pairs, b.pairs),
        kill_of(a) is Ok,
    ensures
        kill_of(b) == kill_of(a),
{
    law_kill_is_what_its_lines_say(a);
    law_kill_is_what_its_lines_say(b);
    lemma_same_all_lines(a.pairs, b.pairs, kill_line());
    lemma_same_setting(a.pairs, b.pairs, "name"@);
    lemma_same_setting(a.pairs, b.pairs, "pattern"@);
    lemma_same_setting(a.pairs, b.pairs, "signal"@);
    assert(kill_of(b)->Ok_0 == kill_of(a)->Ok_0);
}

// Text entries.

/// A line that a `[text]` block may have.
pub open spec fn is_entry_line(pair: Pair) -> bool {
    let (key, value) = pair;
    ||| key == "target"@
    ||| key == "delay"@ && number_of(value) is Ok
    ||| key == "commands"@ && commands_of(value) is Ok
}

pub open spec fn entry_line() -> spec_fn(Pair) -> bool {
    |pair: Pair| is_entry_line(pair)
}

/// A text entry is what its lines say.
pub open spec fn says_entry(pairs: Seq<Pair>, entry: TextEntryView) -> bool {
    &&& entry.target == text_setting(pairs, "target"@, seq![])
    &&& number_setting(pairs, "delay"@) == Ok::<u64, NumberError>(entry.delay)
    &&& match setting(pairs, "commands"@) {
        Some(value) => commands_of(value) == Ok::<Seq<TextCommandView>, ErrorView>(entry.commands),
        None => entry.commands.len() == 0,
    }
}

proof fn lemma_entry_lines(pairs: Seq<Pair>)
    ensures
        ({
            let read = fold(crate::config::no_text_entry(), pairs, entry_pair_step());
            &&& read is Ok <==> all_lines(pairs, entry_line())
            &&& read is Ok ==> says_entry(pairs, read->Ok_0)
        }),
    decreases pairs.len(),
{
    lemma_text_keys();
    if pairs.len() > 0 {
        lemma_entry_lines(pairs.drop_last());
        lemma_all_lines_push(pairs, entry_line());
        assert(entry_line()(pairs.last()) == is_entry_line(pairs.last()));
    }
}

/// A `[text]` block is read exactly if each of its lines may stand in it and can be understood,
/// there is a target, and there are commands; and then each part of the entry is what the line for
/// it says.
pub proof fn law_entry_is_what_its_lines_say(block: BlockView)
    ensures
        entry_of(block) is Ok <==> all_lines(block.pairs, entry_line()) && text_setting(
            block.pairs,
            "target"@,
            seq![],
        ).len() > 0 && (setting(block.pairs, "commands"@) matches Some(value) && commands_of(
            value,
        )->Ok_0.len() > 0),
        entry_of(block) matches Ok(entry) ==> says_entry(block.pairs, entry),
{
    lemma_entry_lines(block.pairs);
    if all_lines(block.pairs, entry_line()) {
        lemma_setting_line(block.pairs, "commands"@, entry_line());
        lemma_text_keys();
    }
}

/// The order of the lines of a `[text]` block does not matter.
pub proof fn law_entry_lines_in_any_order(a: BlockView, b: BlockView)
    requires
        have_same_lines(a.pairs, b.pairs),
        entry_of(a) is Ok,
    ensures
        entry_of(b) == entry_of(a),
{
    law_entry_is_what_its_lines_say(a);
    law_entry_is_what_its_lines_say(b);
    lemma_same_all_lines(a.pairs, b.pairs, entry_line());
    lemma_same_setting(a.pairs, b.pairs, "target"@);
    lemma_same_setting(a.pairs, b.pairs, "delay"@);
    lemma_same_setting(a.pairs, b.pairs, "commands"@);
    assert(entry_of(b)->Ok_0 == entry_of(a)->Ok_0);
}

// Reruns.

/// The first line of a `[rerun]` block is for the time, and that is the time; the others do not
/// count.
pub proof fn law_rerun_is_what_its_first_line_says(block: BlockView)
    ensures
        rerun_of(block) is Ok <==> block.pairs.len() > 0 && block.pairs[0].0 == "after"@
            && duration_of(block.pairs[0].1) is Ok,
        rerun_of(block) matches Ok(after) ==> duration_of(block.pairs[0].1) == Ok::<
            DurationView,
            Stop,
        >(after),
        block.pairs.len() == 0 ==> rerun_of(block) == Err::<DurationView, Stop>(
            Stop::Wrong(ErrorView::RerunWithoutAfter),
        ),
        block.pairs.len() > 0 && block.pairs[0].0 != "after"@ ==> rerun_of(block) == Err::<
            DurationView,
            Stop,
        >(Stop::Wrong(ErrorView::UnknownRerunKey { key: block.pairs[0].0 })),
        block.pairs.len() > 0 && block.pairs[0].0 == "after"@ ==> rerun_of(block) == duration_of(
            block.pairs[0].1,
        ),
{
}

// The first line that is wrong.

/// The line of this number is the first that is not in order.
pub open spec fn is_first_wrong(pairs: Seq<Pair>, i: int, ok: spec_fn(Pair) -> bool) -> bool {
    0 <= i < pairs.len() && all_lines(pairs.take(i), ok) && !ok(pairs[i])
}

/// The first line of an `[app]` block that is wrong is what is said of it, with the name that the
/// app has by then.
pub proof fn law_first_wrong_app_line(block: BlockView, i: int)
    requires
        is_first_wrong(block.pairs, i, app_line()),
    ensures
        ({
            let (key, value) = block.pairs[i];
            let app = text_setting(block.pairs.take(i), "name"@, seq![]);
            app_of(block) == Err::<AppView, ErrorView>(
                if key == "kind"@ {
                    ErrorView::UnknownAppKind { app, value }
                } else if key == "startup_delay"@ {
                    ErrorView::Number { error: number_of(value)->Err_0 }
                } else {
                    ErrorView::UnknownAppKey { app, key }
                },
            )
        }),
{
    lemma_app_keys();
    lemma_kinds();
    lemma_app_lines(block.pairs.take(i));
    crate::fold::lemma_fold_step(fresh_app(), block.pairs, i, app_pair_step());
    lemma_fold_error(fresh_app(), block.pairs, i + 1, app_pair_step());
}

/// The first line of a `[refresh]` block that is wrong is what is said of it.
pub proof fn law_first_wrong_timer_line(block: BlockView, i: int)
    requires
        is_first_wrong(block.pairs, i, timer_line()),
    ensures
        ({
            let (key, value) = block.pairs[i];
            event_of(block) == Err::<TimedEventView, Stop>(
                if key == "after"@ {
                    duration_of(value)->Err_0
                } else if key == "action"@ {
                    Stop::Wrong(ErrorView::UnknownRefreshAction { value })
                } else if key == "repeat"@ {
                    Stop::Wrong(ErrorView::InvalidBool { value })
                } else {
                    Stop::Wrong(ErrorView::UnknownRefreshKey { key })
                },
            )
        }),
{
    lemma_refresh_keys();
    lemma_timer_lines(block.pairs.take(i));
    let start = crate::config::no_timed_event();
    crate::fold::lemma_fold_step(start, block.pairs, i, event_pair_step());
    lemma_fold_error(start, block.pairs, i + 1, event_pair_step());
}

/// The first line of a `[kill]` or a `[text]` block that is wrong is what is said of it.
pub proof fn law_first_wrong_kill_or_text_line(block: BlockView, i: int)
    ensures
        is_first_wrong(block.pairs, i, kill_line()) ==> kill_of(block) == Err::<
            KillRuleView,
            ErrorView,
        >(ErrorView::UnknownKillKey { key: block.pairs[i].0 }),
        is_first_wrong(block.pairs, i, entry_line()) ==> ({
            let (key, value) = block.pairs[i];
            entry_of(block) == Err::<TextEntryView, ErrorView>(
                if key == "delay"@ {
                    ErrorView::Number { error: number_of(value)->Err_0 }
                } else if key == "commands"@ {
                    commands_of(value)->Err_0
                } else {
                    ErrorView::UnknownTextKey { key }
                },
            )
        }),
{
    lemma_text_keys();
    if is_first_wrong(block.pairs, i, kill_line()) {
        lemma_kill_lines(block.pairs.take(i));
        crate::fold::lemma_fold_step(fresh_kill(), block.pairs, i, kill_pair_step());
        lemma_fold_error(fresh_kill(), block.pairs, i + 1, kill_pair_step());
    }
    if is_first_wrong(block.pairs, i, entry_line()) {
        let start = crate::config::no_text_entry();
        lemma_entry_lines(block.pairs.take(i));
        crate::fold::lemma_fold_step(start, block.pairs, i, entry_pair_step());
        lemma_fold_error(start, block.pairs, i + 1, entry_pair_step());
    }
}

/// A block of which every line is in order but that leaves out what it must have is refused for
/// that.
pub proof fn law_missing_settings(block: BlockView)
    ensures
        all_lines(block.pairs, app_line()) ==> ({
            let name = text_setting(block.pairs, "name"@, seq![]);
            let web = says_web(block.pairs);
            let command = text_setting(block.pairs, "command"@, seq![]);
            let url = text_setting(block.pairs, "url"@, seq![]);
            &&& name.len() == 0 ==> app_of(block) == Err::<AppView, ErrorView>(
                ErrorView::AppWithoutName,
            )
            &&& name.len() > 0 && web && url.len() == 0 ==> app_of(block) == Err::<
                AppView,
                ErrorView,
            >(ErrorView::WebAppWithoutUrl { app: name })
            &&& name.len() > 0 && !web && command.len() == 0 ==> app_of(block) == Err::<
                AppView,
                ErrorView,
            >(ErrorView::AppWithoutCommand { app: name })
        }),
        all_lines(block.pairs, kill_line()) && text_setting(block.pairs, "pattern"@, seq![]).len()
            == 0 ==> kill_of(block) == Err::<KillRuleView, ErrorView>(ErrorView::KillWithoutPattern),
        all_lines(block.pairs, entry_line()) ==> ({
            let target = text_setting(block.pairs, "target"@, seq![]);
            &&& target.len() == 0 ==> entry_of(block) == Err::<TextEntryView, ErrorView>(
                ErrorView::TextWithoutTarget,
            )
            &&& target.len() > 0 && entry_of(block) is Err ==> entry_of(block) == Err::<
                TextEntryView,
                ErrorView,
            >(ErrorView::TextWithoutCommands { target })
        }),
        all_lines(block.pairs, timer_line()) ==> ({
            let target = text_setting(block.pairs, "target"@, seq![]);
            &&& target.len() == 0 ==> event_of(block) == Err::<TimedEventView, Stop>(
                Stop::Wrong(ErrorView::RefreshWithoutTarget),
            )
            &&& target.len() > 0 && event_of(block) is Err ==> event_of(block) == Err::<
                TimedEventView,
                Stop,
            >(Stop::Wrong(ErrorView::RefreshWithoutAfter { target }))
        }),
{
    lemma_app_lines(block.pairs);
    lemma_kill_lines(block.pairs);
    lemma_entry_lines(block.pairs);
    lemma_timer_lines(block.pairs);
}

} // verus!
