//! What holds of every launch script.
use crate::config::{AppView, ConfigView, TextCommandView, TextEntryView, TimedEventView};
use crate::error::ErrorView;
use crate::fold::{fold, lemma_fold_keeps};
use crate::preamble::PREAMBLE;
use crate::number::decimal_of;
use crate::script::{
    all_kill_lines, app_command, app_line, arrange_lines, arranger, at_least, command_check,
    detached_command, echo_line, entry_check, entry_job, event_job, focus_lines, good_commands,
    kill_window_lines, launch_lines, launch_part, launcher, layout_line, layout_parts,
    logged_command, mark_of, script_of, session_command, workspace_lines,
};
use crate::shell::{file_safe_text, law_shell_reads_back_quoted, quoted, shell_value};
use crate::text::{each, lemma_unlines_concat, starts_with, unlines};
use crate::validate::{is_named, is_valid};
use vstd::prelude::*;

verus! {

// The order of a script.

proof fn lemma_each_concat<A, T>(a: Seq<A>, b: Seq<A>, f: spec_fn(A) -> Seq<T>)
    ensures
        each(a + b, f) == each(a, f) + each(b, f),
    decreases b.len(),
{
    if b.len() == 0 {
        assert(a + b == a);
        assert(each(a, f) + each(b, f) == each(a, f));
    } else {
        assert((a + b).drop_last() == a + b.drop_last());
        lemma_each_concat(a, b.drop_last(), f);
        assert(each(a, f) + (each(b.drop_last(), f) + f(b.last())) == each(a, f) + each(
            b.drop_last(),
            f,
        ) + f(b.last()));
    }
}

/// Where the lines of one item stand among those of all.
proof fn lemma_each_split<A>(items: Seq<A>, i: int, f: spec_fn(A) -> Seq<Seq<char>>) -> (parts: (
    Seq<char>,
    Seq<char>,
))
    requires
        0 <= i < items.len(),
    ensures
        unlines(each(items, f)) == parts.0 + unlines(f(items[i])) + parts.1,
{
    let a = items.take(i);
    let one = seq![items[i]];
    let b = items.skip(i + 1);
    assert(items == a + one + b);
    lemma_each_concat(a + one, b, f);
    lemma_each_concat(a, one, f);
    assert(one.drop_last() == Seq::<A>::empty());
    assert(each(one.drop_last(), f) == Seq::<Seq<char>>::empty());
    assert(each(one, f) == f(items[i]));
    lemma_unlines_concat(each(a, f) + f(items[i]), each(b, f));
    lemma_unlines_concat(each(a, f), f(items[i]));
    (unlines(each(a, f)), unlines(each(b, f)))
}

proof fn lemma_jobs_are_added(config: ConfigView)
    ensures
        script_of(config) matches Ok(script) ==> launch_part(config).is_prefix_of(script),
{
    let start = launch_part(config);
    let inv = |text: Seq<char>| start.is_prefix_of(text);
    let any_entry = |entry: TextEntryView| true;
    let any_event = |event: TimedEventView| true;
    lemma_fold_keeps(start, config.text_entries, entry_job(config.apps), inv, any_entry);
    if let Ok(with_entries) = fold(start, config.text_entries, entry_job(config.apps)) {
        assert(inv(with_entries));
        lemma_fold_keeps(with_entries, config.refreshes, event_job(config.apps), inv, any_event);
        if let Ok(with_events) = fold(with_entries, config.refreshes, event_job(config.apps)) {
            assert(inv(with_events));
        }
    }
}

/// A script first defines what it uses, then stops processes, then launches every app, then
/// arranges every app, and only then starts jobs.
pub proof fn law_script_order(config: ConfigView)
    requires
        script_of(config) is Ok,
    ensures
        ({
            let script = script_of(config)->Ok_0;
            let front = PREAMBLE@ + unlines(all_kill_lines(config.kills));
            let launches = unlines(each(config.apps, launcher()));
            let arrangements = unlines(each(config.apps, arranger()));
            (front + launches + arrangements).is_prefix_of(script)
        }),
{
    lemma_jobs_are_added(config);
}

/// Every app, whichever it is, is launched before any app, whichever it is, is arranged: the parts
/// are what stands before the launch of the one, between the two, and behind the arrangement of
/// the other.
pub proof fn law_launches_precede_arrangements(config: ConfigView, launched: int, arranged: int) -> (
parts: (Seq<char>, Seq<char>, Seq<char>))
    requires
        script_of(config) is Ok,
        0 <= launched < config.apps.len(),
        0 <= arranged < config.apps.len(),
    ensures
        script_of(config)->Ok_0 == parts.0 + unlines(launch_lines(config.apps[launched])) + parts.1
            + unlines(arrange_lines(config.apps[arranged])) + parts.2,
{
    lemma_jobs_are_added(config);
    let script = script_of(config)->Ok_0;
    let front = PREAMBLE@ + unlines(all_kill_lines(config.kills));
    let (a, b) = lemma_each_split(config.apps, launched, launcher());
    let (c, d) = lemma_each_split(config.apps, arranged, arranger());
    let x = unlines(launch_lines(config.apps[launched]));
    let y = unlines(arrange_lines(config.apps[arranged]));
    let jobs = script.skip(launch_part(config).len() as int);
    assert(script == launch_part(config) + jobs);
    assert(launch_part(config) == front + (a + x + b) + (c + y + d));
    assert(script == (front + a) + x + (b + c) + y + (d + jobs));
    (front + a, b + c, d + jobs)
}

// When there is a script.

/// The variables of which the values are typed have names that variables can have.
pub open spec fn has_good_variables(config: ConfigView) -> bool {
    forall|i: int|
        0 <= i < config.text_entries.len() ==> are_good_commands(
            (#[trigger] config.text_entries[i]).commands,
        )
}

pub open spec fn are_good_commands(commands: Seq<TextCommandView>) -> bool {
    forall|i: int| 0 <= i < commands.len() ==> command_check(#[trigger] commands[i]) is Ok
}

pub proof fn lemma_good_bounds(commands: Seq<TextCommandView>)
    ensures
        0 <= good_commands(commands) <= commands.len(),
        forall|k: int|
            0 <= k < good_commands(commands) ==> command_check(#[trigger] commands[k]) is Ok,
        good_commands(commands) < commands.len() ==> command_check(
            commands[good_commands(commands)],
        ) is Err,
    decreases commands.len(),
{
    if commands.len() > 0 && command_check(commands[0]) is Ok {
        let rest = commands.drop_first();
        lemma_good_bounds(rest);
        assert forall|k: int| 0 <= k < good_commands(commands) implies command_check(
            #[trigger] commands[k],
        ) is Ok by {
            if k > 0 {
                assert(commands[k] == rest[k - 1]);
            }
        }
        if good_commands(commands) < commands.len() {
            assert(commands[good_commands(commands)] == rest[good_commands(rest)]);
        }
    }
}

proof fn lemma_entry_check(entry: TextEntryView)
    ensures
        entry_check(entry) is Ok <==> are_good_commands(entry.commands),
        entry_check(entry) matches Err(error) ==> is_variable_error(error),
{
    lemma_good_bounds(entry.commands);
    if entry_check(entry) is Err {
        assert(!are_good_commands(entry.commands));
    }
}

pub open spec fn is_variable_error(error: ErrorView) -> bool {
    match error {
        ErrorView::EmptyVariableName => true,
        ErrorView::InvalidVariableName { .. } => true,
        _ => false,
    }
}

/// Going through all succeeds if every step does, whatever was there before it.
proof fn lemma_fold_succeeds<S, A, E>(
    start: S,
    items: Seq<A>,
    step: spec_fn(S, A) -> Result<S, E>,
    ok: spec_fn(A) -> bool,
    fault: spec_fn(E) -> bool,
)
    requires
        forall|s: S, a: A| (#[trigger] step(s, a)) is Ok || !ok(a) || !items.contains(a),
        forall|s: S, a: A| ok(a) || !items.contains(a) || (#[trigger] step(s, a)) is Err,
        forall|s: S, a: A|
            items.contains(a) && (#[trigger] step(s, a)) is Err ==> fault(step(s, a)->Err_0),
    ensures
        fold(start, items, step) is Ok <==> forall|i: int|
            0 <= i < items.len() ==> ok(#[trigger] items[i]),
        fold(start, items, step) matches Err(error) ==> fault(error),
    decreases items.len(),
{
    if items.len() > 0 {
        let front = items.drop_last();
        assert forall|a: A| front.contains(a) implies items.contains(a) by {
            let i = choose|i: int| 0 <= i < front.len() && front[i] == a;
            assert(items[i] == a);
        }
        assert(items.contains(items.last())) by {
            assert(items[items.len() - 1] == items.last());
        }
        lemma_fold_succeeds(start, front, step, ok, fault);
        assert((forall|i: int| 0 <= i < items.len() ==> ok(#[trigger] items[i])) <==> (forall|i: int|
            0 <= i < front.len() ==> ok(#[trigger] front[i])) && ok(items.last())) by {
            if forall|i: int| 0 <= i < items.len() ==> ok(#[trigger] items[i]) {
                assert forall|i: int| 0 <= i < front.len() implies ok(#[trigger] front[i]) by {
                    assert(front[i] == items[i]);
                }
                assert(ok(items[items.len() - 1]));
            }
            if (forall|i: int| 0 <= i < front.len() ==> ok(#[trigger] front[i])) && ok(items.last()) {
                assert forall|i: int| 0 <= i < items.len() implies ok(#[trigger] items[i]) by {
                    if i < front.len() {
                        assert(front[i] == items[i]);
                    }
                }
            }
        }
    }
}

/// A valid config has a script exactly if its variables have good names, and nothing else can keep
/// it from being written.
pub proof fn law_valid_config_has_a_script(config: ConfigView)
    requires
        is_valid(config),
    ensures
        script_of(config) is Ok <==> has_good_variables(config),
        script_of(config) matches Err(error) ==> is_variable_error(error),
{
    let start = launch_part(config);
    let good = |entry: TextEntryView| are_good_commands(entry.commands);
    let fault = |error: ErrorView| is_variable_error(error);
    let step = entry_job(config.apps);
    assert forall|entry: TextEntryView| config.text_entries.contains(entry) implies is_named(
        config.apps,
        entry.target,
    ) by {
        let i = choose|i: int|
            0 <= i < config.text_entries.len() && config.text_entries[i] == entry;
        assert(is_named(config.apps, config.text_entries[i].target));
    }
    assert forall|text: Seq<char>, entry: TextEntryView| #[trigger]
        config.text_entries.contains(entry) implies ((#[trigger] step(text, entry)) is Ok
        <==> good(entry)) && (step(text, entry) is Err ==> fault(step(text, entry)->Err_0)) by {
        lemma_entry_check(entry);
    }
    lemma_fold_succeeds(start, config.text_entries, step, good, fault);
    assert(has_good_variables(config) <==> forall|i: int|
        0 <= i < config.text_entries.len() ==> good(#[trigger] config.text_entries[i])) by {
        if has_good_variables(config) {
            assert forall|i: int| 0 <= i < config.text_entries.len() implies good(
                #[trigger] config.text_entries[i],
            ) by {}
        }
        if forall|i: int|
            0 <= i < config.text_entries.len() ==> good(#[trigger] config.text_entries[i]) {
            assert forall|i: int| 0 <= i < config.text_entries.len() implies are_good_commands(
                (#[trigger] config.text_entries[i]).commands,
            ) by {
                assert(good(config.text_entries[i]));
            }
        }
    }
    if let Ok(with_entries) = fold(start, config.text_entries, step) {
        let any = |event: TimedEventView| true;
        let next = event_job(config.apps);
        assert forall|text: Seq<char>, event: TimedEventView| #[trigger]
            config.refreshes.contains(event) implies (#[trigger] next(text, event)) is Ok by {
            let i = choose|i: int| 0 <= i < config.refreshes.len() && config.refreshes[i] == event;
            assert(is_named(config.apps, config.refreshes[i].target));
        }
        lemma_fold_succeeds(with_entries, config.refreshes, next, any, fault);
    }
}

// Launches.

/// A launch goes through two shells, each of which gets its command as it was meant, quotes and
/// all; the inner one runs in a session of its own, and the outer one does not wait for it.
pub proof fn law_launches_are_detached(app: AppView, command: Seq<char>)
    ensures
        ({
            let inner = logged_command(app, command);
            let outer = session_command(app, command);
            let tail = " 2>&1 &"@;
            &&& detached_command(app, command) == "sh -lc "@ + quoted(outer)
            &&& shell_value(quoted(outer)) == Some(outer)
            &&& starts_with(outer, "setsid -f sh -lc "@ + quoted(inner))
            &&& shell_value(quoted(inner)) == Some(inner)
            &&& tail.len() <= outer.len() && outer.skip(outer.len() - tail.len()) == tail
        }),
{
    law_shell_reads_back_quoted(logged_command(app, command));
    law_shell_reads_back_quoted(session_command(app, command));
    let outer = session_command(app, command);
    let tail = " 2>&1 &"@;
    assert(outer.skip(outer.len() - tail.len()) == tail);
    let head = "setsid -f sh -lc "@ + quoted(logged_command(app, command));
    assert(outer.take(head.len() as int) == head);
}

/// A line that runs one of these commands, or none.
pub open spec fn runs_one_of(line: Seq<char>, indent: Seq<char>, commands: Seq<Seq<char>>) -> bool {
    line.len() == 0 || exists|i: int|
        0 <= i < commands.len() && starts_with(line, indent + #[trigger] commands[i])
}

pub open spec fn run_one_of(
    lines: Seq<Seq<char>>,
    indent: Seq<char>,
    commands: Seq<Seq<char>>,
) -> bool {
    forall|i: int| 0 <= i < lines.len() ==> runs_one_of(#[trigger] lines[i], indent, commands)
}

/// The helpers that the preamble defines to speak to i3, and the commands that do nothing to i3.
pub open spec fn wrapped_commands() -> Seq<Seq<char>> {
    seq!["i3 "@, "i3_app "@, "i3_mark_new_window "@, "i3_window_ids "@, "echo "@, "sleep "@]
}

proof fn lemma_runs(line: Seq<char>, indent: Seq<char>, i: int, rest: Seq<char>)
    requires
        0 <= i < wrapped_commands().len(),
        line == indent + wrapped_commands()[i] + rest,
    ensures
        runs_one_of(line, indent, wrapped_commands()),
{
    let front = indent + wrapped_commands()[i];
    assert(line.take(front.len() as int) == front);
}

proof fn lemma_app_line_runs(app: AppView, command: Seq<char>, indent: Seq<char>)
    ensures
        runs_one_of(indent + app_line(app, command), indent, wrapped_commands()),
{
    let line = app_line(app, command);
    let rest = line.skip("i3_app "@.len() as int);
    assert(line == "i3_app "@ + rest);
    assert(indent + line == indent + "i3_app "@ + rest);
    lemma_runs(indent + line, indent, 1, rest);
}

proof fn lemma_layout_runs(app: AppView, commands: Seq<Seq<char>>)
    ensures
        run_one_of(each(commands, layout_line(app)), seq![], wrapped_commands()),
    decreases commands.len(),
{
    if commands.len() > 0 {
        lemma_layout_runs(app, commands.drop_last());
        lemma_app_line_runs(app, commands.last(), seq![]);
        let line = app_line(app, commands.last());
        assert(Seq::<char>::empty() + line == line);
        assert(layout_line(app)(commands.last()) == seq![line]);
    }
}

/// No line that launches, arranges, focuses or closes an app speaks to i3 but through a helper.
pub proof fn law_i3_commands_are_wrapped(app: AppView, indent: Seq<char>)
    ensures
        run_one_of(launch_lines(app), seq![], wrapped_commands()),
        run_one_of(arrange_lines(app), seq![], wrapped_commands()),
        run_one_of(focus_lines(app, indent), indent, wrapped_commands()),
        run_one_of(kill_window_lines(app, indent), indent, wrapped_commands()),
{
    let none = Seq::<char>::empty();
    let hs = wrapped_commands();
    // Launching.
    let safe = file_safe_text(app.name);
    let l0 = echo_line("launching "@, app.name);
    assert(l0 == none + "echo "@ + quoted("launching "@ + app.name));
    lemma_runs(l0, none, 4, quoted("launching "@ + app.name));
    let l1 = "i3_window_ids > \"$STATE_DIR/"@ + safe + "-before.windows\""@;
    reveal_strlit("i3_window_ids > \"$STATE_DIR/");
    reveal_strlit("i3_window_ids ");
    let l1_rest = l1.skip("i3_window_ids "@.len() as int);
    assert(l1 == none + "i3_window_ids "@ + l1_rest);
    lemma_runs(l1, none, 3, l1_rest);
    let w = quoted("workspace "@ + app.workspace);
    assert("i3 "@ + w == none + "i3 "@ + w);
    lemma_runs("i3 "@ + w, none, 0, w);
    let e = quoted("exec --no-startup-id "@ + detached_command(app, app_command(app)));
    assert("i3 "@ + e == none + "i3 "@ + e);
    lemma_runs("i3 "@ + e, none, 0, e);
    let l4 = "i3_mark_new_window "@ + quoted(mark_of(app)) + " \"$STATE_DIR/"@ + safe
        + "-before.windows\" "@ + decimal_of(at_least(app.startup_delay, 30) as nat);
    let l4_rest = l4.skip("i3_mark_new_window "@.len() as int);
    assert(l4 == none + "i3_mark_new_window "@ + l4_rest);
    lemma_runs(l4, none, 2, l4_rest);
    assert(launch_lines(app) == seq![l0] + seq![l1] + workspace_lines(app) + seq!["i3 "@ + e]
        + seq![l4] + seq![none]);
    assert(run_one_of(launch_lines(app), none, hs));
    // Arranging.
    let a0 = echo_line("arranging "@, app.name);
    assert(a0 == none + "echo "@ + quoted("arranging "@ + app.name));
    lemma_runs(a0, none, 4, quoted("arranging "@ + app.name));
    let n = decimal_of(at_least(app.startup_delay, 1) as nat);
    assert("sleep "@ + n == none + "sleep "@ + n);
    lemma_runs("sleep "@ + n, none, 5, n);
    lemma_bare_app_line_runs(app, "nop"@);
    lemma_bare_app_line_runs(app, "floating enable"@);
    lemma_bare_app_line_runs(app, "move to workspace "@ + app.workspace);
    lemma_layout_runs(app, layout_parts(app.layout));
    assert(run_one_of(arrange_lines(app), none, hs));
    // Focusing and closing.
    lemma_app_line_runs(app, "focus"@, indent);
    reveal_strlit("sleep 1");
    reveal_strlit("sleep ");
    let one = "sleep 1"@.skip(6);
    assert("sleep 1"@ == "sleep "@ + one);
    assert(indent + "sleep 1"@ == indent + "sleep "@ + one);
    lemma_runs(indent + "sleep 1"@, indent, 5, one);
    let k = quoted("["@ + app.match_criteria + "] kill"@);
    lemma_runs(indent + "i3 "@ + k, indent, 0, k);
}

proof fn lemma_bare_app_line_runs(app: AppView, command: Seq<char>)
    ensures
        runs_one_of(app_line(app, command), seq![], wrapped_commands()),
{
    lemma_app_line_runs(app, command, seq![]);
    assert(Seq::<char>::empty() + app_line(app, command) == app_line(app, command));
}

} // verus!
