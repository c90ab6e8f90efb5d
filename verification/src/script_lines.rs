//! The lines of a launch script, part by part.
use crate::config::{
    AppKind, AppView, ConfigView, DurationView, KillRuleView, RefreshAction, TextCommandView,
    TextEntryView, TimedEventView,
};
use crate::block_laws::some_app_is_named;
use crate::error::ErrorView;
use crate::fold::{fold, lemma_fold_error, lemma_fold_step};
use crate::number::decimal_of;
use crate::preamble::PREAMBLE;
use crate::script::{
    all_kill_lines, app_command, arrange_lines, arranger, command_check, command_lines, detached_command,
    entry_check, entry_job, entry_lines, event_job, good_commands, kill_lines, launch_lines,
    launch_part, launcher, layout_line, layout_parts, lemma_good_commands_at, needs_floating,
    nonblank, refresh_text, rerun_lines, script_of, timer_text,
};
use crate::shell::{
    file_safe_text, is_plain_word, law_file_safe, law_variable_names, names_a_variable, quoted,
    worded,
};
use crate::text::{each, lemma_unlines_concat, pieces, starts_with, trimmed, unlines};
use crate::text_laws::law_splitting;
use crate::validate::{first_named, is_named, law_first_app_is_found};
use vstd::prelude::*;

verus! {

/// The mark of the app of this name.
pub open spec fn mark_for(name: Seq<char>) -> Seq<char> {
    "i3-controller-"@ + file_safe_text(name)
}

/// A call that runs an i3 command on the window of an app: by its mark, and where that finds
/// nothing by its criteria.
pub open spec fn window_call(app: AppView, command: Seq<char>) -> Seq<char> {
    "i3_app "@ + quoted(mark_for(app.name)) + " "@ + quoted(trimmed(app.match_criteria)) + " "@
        + quoted(command)
}

/// The larger of two numbers.
pub open spec fn is_larger_of(n: u64, a: u64, b: u64) -> bool {
    (n == a || n == b) && n >= a && n >= b
}

/// Text that is there only on a condition.
pub open spec fn where_true<T>(condition: bool, items: Seq<T>) -> Seq<T> {
    if condition {
        items
    } else {
        seq![]
    }
}

// Launches.

/// A native app is started by its command with its arguments behind it, if it has any.
pub proof fn law_native_command(app: AppView)
    requires
        app.kind == AppKind::Native,
    ensures
        trimmed(app.args).len() == 0 ==> app_command(app) == trimmed(app.command),
        trimmed(app.args).len() > 0 ==> app_command(app) == trimmed(app.command) + " "@ + trimmed(
            app.args,
        ),
{
}

/// A web app is started by its browser, with a window for its page; its own flags, and the profile
/// where it has one, stand behind that.
pub proof fn law_web_command(app: AppView)
    requires
        app.kind == AppKind::Web,
    ensures
        app_command(app) == worded(app.browser) + " --app="@ + worded(app.url)
            + " --no-first-run"@ + where_true(
            app.browser_args.len() > 0,
            " "@ + trimmed(app.browser_args),
        ) + where_true(app.profile.len() > 0, " --user-data-dir="@ + worded(app.profile)),
{
    let base = worded(app.browser) + " --app="@ + worded(app.url) + " --no-first-run"@;
    assert(base + Seq::<char>::empty() == base);
    let flags = base + (" "@ + trimmed(app.browser_args));
    assert(flags == base + " "@ + trimmed(app.browser_args));
    assert(flags + Seq::<char>::empty() == flags);
    assert(app_command(app) == base + where_true(
        app.browser_args.len() > 0,
        " "@ + trimmed(app.browser_args),
    ) + where_true(app.profile.len() > 0, " --user-data-dir="@ + worded(app.profile)));
}

/// A command is detached by a shell that starts another in a session of its own, in the background;
/// what both say is kept in logs that are named after the app.
pub proof fn law_detached_command(app: AppView, command: Seq<char>)
    ensures
        ({
            let log = "/tmp/i3-controller-"@ + file_safe_text(app.name);
            detached_command(app, command) == "sh -lc "@ + quoted(
                "setsid -f sh -lc "@ + quoted(
                    "exec "@ + command + " >>"@ + (log + "-launch.log"@) + " 2>&1"@,
                ) + " >"@ + (log + "-detach.log"@) + " 2>&1 &"@,
            )
        }),
{
    let path = "/tmp/i3-controller-"@ + file_safe_text(app.name) + "-detach.log"@;
    law_file_safe(app.name);
    reveal_strlit("/tmp/i3-controller-");
    reveal_strlit("-detach.log");
    assert forall|i: int| 0 <= i < path.len() implies crate::shell::is_word_char(
        #[trigger] path[i],
    ) by {
        let a = "/tmp/i3-controller-"@;
        let b = file_safe_text(app.name);
        if i < a.len() {
            assert(path[i] == a[i]);
        } else if i < a.len() + b.len() {
            assert(path[i] == b[i - a.len()]);
        } else {
            assert(path[i] == "-detach.log"@[i - a.len() - b.len()]);
        }
    }
    assert(is_plain_word(path));
}

/// An app is launched by these lines and no others: what is done is told, the windows that there
/// are by then are noted, the app's workspace is gone to if it has one, the app is started
/// detached, and its new window is waited for, half a minute at least, and marked.
pub proof fn law_launch_lines(app: AppView, wait: u64)
    requires
        is_larger_of(wait, app.startup_delay, 30),
    ensures
        launch_lines(app) == seq![
            "echo "@ + quoted("launching "@ + app.name),
            "i3_window_ids > \"$STATE_DIR/"@ + file_safe_text(app.name) + "-before.windows\""@,
        ] + where_true(
            app.workspace.len() > 0,
            seq!["i3 "@ + quoted("workspace "@ + app.workspace)],
        ) + seq![
            "i3 "@ + quoted("exec --no-startup-id "@ + detached_command(app, app_command(app))),
            "i3_mark_new_window "@ + quoted(mark_for(app.name)) + " \"$STATE_DIR/"@
                + file_safe_text(app.name) + "-before.windows\" "@ + decimal_of(wait as nat),
            seq![],
        ],
{
}

// Arrangements.

/// An app that says something of its place is arranged by these lines and no others: after a wait of
/// a second at least its window is looked for, moved to its workspace if it has one, made to float
/// if it is to be moved or resized, and then put through its layout command by command. Of an app
/// that says nothing of its place nothing is done.
pub proof fn law_arrange_lines(app: AppView, wait: u64, floats: bool)
    requires
        is_larger_of(wait, app.startup_delay, 1),
        floats <==> exists|i: int|
            0 <= i < layout_parts(app.layout).len() && (starts_with(
                #[trigger] layout_parts(app.layout)[i],
                "move position"@,
            ) || starts_with(layout_parts(app.layout)[i], "resize set"@)),
    ensures
        arrange_lines(app) == where_true(
            app.match_criteria.len() > 0 || app.layout.len() > 0 || app.workspace.len() > 0,
            seq![
                "echo "@ + quoted("arranging "@ + app.name),
                "sleep "@ + decimal_of(wait as nat),
                window_call(app, "nop"@),
            ] + where_true(
                app.workspace.len() > 0,
                seq![window_call(app, "move to workspace "@ + app.workspace)],
            ) + where_true(floats, seq![window_call(app, "floating enable"@)])
                + layout_parts(app.layout).map_values(
                |command: Seq<char>| window_call(app, command),
            ) + seq![seq![]],
        ),
{
    lemma_layout_lines(app, layout_parts(app.layout));
    assert(floats == needs_floating(app.layout));
}

proof fn lemma_layout_lines(app: AppView, commands: Seq<Seq<char>>)
    ensures
        each(commands, layout_line(app)) == commands.map_values(
            |command: Seq<char>| window_call(app, command),
        ),
    decreases commands.len(),
{
    let f = |command: Seq<char>| window_call(app, command);
    if commands.len() > 0 {
        lemma_layout_lines(app, commands.drop_last());
        assert(commands == commands.drop_last().push(commands.last()));
        assert(commands.map_values(f) == commands.drop_last().map_values(f).push(
            f(commands.last()),
        ));
        assert(layout_line(app)(commands.last()) == seq![f(commands.last())]);
    } else {
        assert(commands.map_values(f) == Seq::<Seq<char>>::empty());
    }
}

/// A layout's commands stand between its semicolons; blank ones do not count.
pub proof fn law_layout_commands(front: Seq<char>, back: Seq<char>)
    requires
        !crate::facts::has_char(front, ';'),
    ensures
        layout_parts(front) == where_true(trimmed(front).len() > 0, seq![trimmed(front)]),
        layout_parts(front + seq![';'] + back) == layout_parts(front) + layout_parts(back),
{
    law_splitting(front, ';', back);
    lemma_nonblank_one(front);
    lemma_nonblank_concat(seq![front], pieces(back, ';'));
}

proof fn lemma_nonblank_one(part: Seq<char>)
    ensures
        nonblank(seq![part]) == where_true(trimmed(part).len() > 0, seq![trimmed(part)]),
{
    assert(seq![part].drop_last() == Seq::<Seq<char>>::empty());
    assert(nonblank(seq![part].drop_last()) == Seq::<Seq<char>>::empty());
}

proof fn lemma_nonblank_concat(a: Seq<Seq<char>>, b: Seq<Seq<char>>)
    ensures
        nonblank(a + b) == nonblank(a) + nonblank(b),
    decreases b.len(),
{
    if b.len() > 0 {
        assert((a + b).drop_last() == a + b.drop_last());
        lemma_nonblank_concat(a, b.drop_last());
    } else {
        assert(a + b == a);
    }
}

// Kill rules.

/// Each kill rule is two lines: it is told by its name, or by its pattern where it has none, and the
/// signal is sent to what matches the pattern, whether anything does or not. A blank line follows
/// the last rule.
pub proof fn law_kill_lines(kills: Seq<KillRuleView>, i: int)
    ensures
        kills.len() == 0 ==> all_kill_lines(kills).len() == 0,
        kills.len() > 0 ==> all_kill_lines(kills).len() == 2 * kills.len() + 1
            && all_kill_lines(kills).last().len() == 0,
        0 <= i < kills.len() ==> ({
            let kill = kills[i];
            let label = if kill.name.len() > 0 {
                kill.name
            } else {
                kill.pattern
            };
            &&& all_kill_lines(kills)[2 * i] == "echo "@ + quoted("stopping "@ + label)
            &&& all_kill_lines(kills)[2 * i + 1] == "pkill -"@ + worded(kill.signal) + " -f "@
                + quoted(kill.pattern) + " >/dev/null 2>&1 || true"@
        }),
{
    lemma_kill_pairs(kills, i);
}

proof fn lemma_kill_pairs(kills: Seq<KillRuleView>, i: int)
    ensures
        each(kills, kill_lines()).len() == 2 * kills.len(),
        0 <= i < kills.len() ==> each(kills, kill_lines())[2 * i] == kill_lines()(kills[i])[0]
            && each(kills, kill_lines())[2 * i + 1] == kill_lines()(kills[i])[1],
    decreases kills.len(),
{
    if kills.len() > 0 {
        lemma_kill_pairs(kills.drop_last(), i);
        assert(kill_lines()(kills.last()).len() == 2);
    }
}

// Text entry.

/// A line that does what a text command says: it types the text, or what the variable holds, presses
/// the key, or waits.
pub open spec fn does_command(line: Seq<char>, command: TextCommandView) -> bool {
    match command {
        TextCommandView::Type(text) => line == "  xdotool type --delay 20 -- "@ + quoted(text),
        TextCommandView::TypeEnv(name) => line == "  xdotool type --delay 20 -- \"${"@ + name
            + ":-}\""@,
        TextCommandView::Key(key) => line == "  xdotool key "@ + worded(key),
        TextCommandView::Wait(seconds) => line == "  sleep "@ + decimal_of(seconds as nat),
    }
}

/// The log and the process of a job in the background, named after the app.
pub open spec fn job_end(name: Seq<char>, what: Seq<char>) -> Seq<Seq<char>> {
    seq![
        ") >/tmp/i3-controller-"@ + file_safe_text(name) + what + ".log 2>&1 &"@,
        "echo $! > \"$STATE_DIR/"@ + file_safe_text(name) + what + ".pid\""@,
        seq![],
    ]
}

/// The first app of a name.
pub open spec fn is_first_app(apps: Seq<AppView>, name: Seq<char>, app: int) -> bool {
    &&& 0 <= app < apps.len()
    &&& apps[app].name == name
    &&& forall|k: int| 0 <= k < app ==> (#[trigger] apps[k]).name != name
}

proof fn lemma_typing(commands: Seq<TextCommandView>)
    ensures
        each(commands, command_lines()).len() == commands.len(),
        forall|k: int|
            0 <= k < commands.len() ==> does_command(
                #[trigger] each(commands, command_lines())[k],
                commands[k],
            ),
    decreases commands.len(),
{
    if commands.len() > 0 {
        let front = commands.drop_last();
        lemma_typing(front);
        let all = each(commands, command_lines());
        assert forall|k: int| 0 <= k < commands.len() implies does_command(
            #[trigger] all[k],
            commands[k],
        ) by {
            if k < front.len() {
                assert(all[k] == each(front, command_lines())[k]);
                assert(front[k] == commands[k]);
            }
        }
    }
}

/// The text before a job, the lines that do its commands, and the text behind it.
pub struct JobPlace {
    pub before: Seq<char>,
    pub typing: Seq<Seq<char>>,
    pub after: Seq<char>,
}

/// Every text entry has its job in the script: after its delay the window of the app that it is for,
/// the first of that name, is focused by the mark that is made from the target's name, and then each of its commands is
/// done, one line for each, in the background.
pub proof fn law_text_entry_has_its_job(config: ConfigView, i: int, app: int) -> (place: JobPlace)
    requires
        script_of(config) is Ok,
        0 <= i < config.text_entries.len(),
        is_first_app(config.apps, config.text_entries[i].target, app),
    ensures
        ({
            let entry = config.text_entries[i];
            let target = entry.target;
            let criteria = trimmed(config.apps[app].match_criteria);
            &&& place.typing.len() == entry.commands.len()
            &&& forall|k: int|
                0 <= k < entry.commands.len() ==> does_command(
                    #[trigger] place.typing[k],
                    entry.commands[k],
                )
            &&& script_of(config)->Ok_0 == place.before + unlines(
                seq![
                    "# Text-entry automation for "@ + target + "."@,
                    "( sleep "@ + decimal_of(entry.delay as nat),
                ] + where_true(
                    target.len() > 0 || config.apps[app].match_criteria.len() > 0,
                    seq![
                        "  "@ + ("i3_app "@ + quoted(mark_for(target)) + " "@ + quoted(criteria)
                            + " "@ + quoted("focus"@)),
                        "  "@ + "sleep 1"@,
                    ],
                ) + place.typing + job_end(target, "-text"@),
            ) + place.after
        }),
{
    let entry = config.text_entries[i];
    let apps = config.apps;
    law_first_app_is_found(apps, entry.target, app);
    lemma_script_parts(config);
    let (a, b) = lemma_entry_jobs_split(config, i);
    let typing = each(entry.commands, command_lines());
    lemma_typing(entry.commands);
    lemma_entry_is_good(config, i);
    lemma_good_bounds_all(entry.commands);
    assert(entry.commands.take(entry.commands.len() as int) == entry.commands);
    assert(entry_lines(apps[app], entry) == seq![
        "# Text-entry automation for "@ + entry.target + "."@,
        "( sleep "@ + decimal_of(entry.delay as nat),
    ] + where_true(
        entry.target.len() > 0 || apps[app].match_criteria.len() > 0,
        seq![
            "  "@ + ("i3_app "@ + quoted(mark_for(entry.target)) + " "@ + quoted(
                trimmed(apps[app].match_criteria),
            ) + " "@ + quoted("focus"@)),
            "  "@ + "sleep 1"@,
        ],
    ) + typing + job_end(entry.target, "-text"@));
    let script = script_of(config)->Ok_0;
    let tail = entries_end(config);
    let rest = script.skip(tail.len() as int);
    assert(script == tail + rest);
    let job = unlines(entry_lines(apps[app], entry));
    assert(tail == a + job + b);
    assert(script == a + job + (b + rest));
    JobPlace { before: a, typing, after: b + rest }
}

/// The script up to the end of its text entries.
spec fn entries_end(config: ConfigView) -> Seq<char> {
    fold(launch_part(config), config.text_entries, entry_job(config.apps))->Ok_0
}

proof fn lemma_fold_prefix<A>(
    start: Seq<char>,
    items: Seq<A>,
    step: spec_fn(Seq<char>, A) -> Result<Seq<char>, ErrorView>,
)
    requires
        forall|s: Seq<char>, a: A|
            (#[trigger] step(s, a)) is Ok ==> s.is_prefix_of(step(s, a)->Ok_0),
    ensures
        fold(start, items, step) matches Ok(end) ==> start.is_prefix_of(end),
    decreases items.len(),
{
    if items.len() > 0 {
        lemma_fold_prefix(start, items.drop_last(), step);
        if let Ok(end) = fold(start, items, step) {
            let mid = fold(start, items.drop_last(), step)->Ok_0;
            assert(step(mid, items.last()) is Ok);
            assert(mid.is_prefix_of(end));
            assert(start == end.take(start.len() as int)) by {
                assert(start == mid.take(start.len() as int));
                assert(mid == end.take(mid.len() as int));
            }
        }
    }
}

proof fn lemma_script_parts(config: ConfigView)
    requires
        script_of(config) is Ok,
    ensures
        fold(launch_part(config), config.text_entries, entry_job(config.apps)) is Ok,
        fold(entries_end(config), config.refreshes, event_job(config.apps)) is Ok,
        launch_part(config).is_prefix_of(entries_end(config)),
        entries_end(config).is_prefix_of(script_of(config)->Ok_0),
{
    lemma_fold_prefix(launch_part(config), config.text_entries, entry_job(config.apps));
    lemma_fold_prefix(entries_end(config), config.refreshes, event_job(config.apps));
    let end = fold(entries_end(config), config.refreshes, event_job(config.apps))->Ok_0;
    let script = script_of(config)->Ok_0;
    assert(script == end + unlines(rerun_lines(config.rerun)));
    assert(entries_end(config) == script.take(entries_end(config).len() as int)) by {
        assert(entries_end(config) == end.take(entries_end(config).len() as int));
    }
}

proof fn lemma_fold_split<A>(
    start: Seq<char>,
    items: Seq<A>,
    i: int,
    step: spec_fn(Seq<char>, A) -> Result<Seq<char>, ErrorView>,
) -> (parts: (Seq<char>, Seq<char>))
    requires
        0 <= i < items.len(),
        fold(start, items, step) is Ok,
        forall|s: Seq<char>, a: A|
            (#[trigger] step(s, a)) is Ok ==> s.is_prefix_of(step(s, a)->Ok_0),
    ensures
        fold(start, items.take(i), step) == Ok::<Seq<char>, ErrorView>(parts.0),
        step(parts.0, items[i]) is Ok,
        fold(start, items, step)->Ok_0 == step(parts.0, items[i])->Ok_0 + parts.1,
{
    if fold(start, items.take(i), step) is Err {
        lemma_fold_error(start, items, i, step);
    }
    let before = fold(start, items.take(i), step)->Ok_0;
    lemma_fold_step(start, items, i, step);
    if fold(start, items.take(i + 1), step) is Err {
        lemma_fold_error(start, items, i + 1, step);
    }
    let after = fold(start, items.take(i + 1), step)->Ok_0;
    assert(items == items.take(i + 1) + items.skip(i + 1));
    crate::fold::lemma_fold_concat(start, items.take(i + 1), items.skip(i + 1), step);
    lemma_fold_prefix(after, items.skip(i + 1), step);
    let end = fold(start, items, step)->Ok_0;
    assert(end == after + end.skip(after.len() as int));
    (before, end.skip(after.len() as int))
}

proof fn lemma_entry_jobs_split(config: ConfigView, i: int) -> (parts: (Seq<char>, Seq<char>))
    requires
        script_of(config) is Ok,
        0 <= i < config.text_entries.len(),
    ensures
        ({
            let entry = config.text_entries[i];
            let app = config.apps[first_named(config.apps, entry.target)];
            entries_end(config) == parts.0 + unlines(entry_lines(app, entry)) + parts.1
        }),
{
    lemma_fold_split(launch_part(config), config.text_entries, i, entry_job(config.apps))
}

proof fn lemma_entry_is_good(config: ConfigView, i: int)
    requires
        script_of(config) is Ok,
        0 <= i < config.text_entries.len(),
    ensures
        good_commands(config.text_entries[i].commands) == config.text_entries[i].commands.len(),
{
    let (a, b) = lemma_fold_split(
        launch_part(config),
        config.text_entries,
        i,
        entry_job(config.apps),
    );
    let commands = config.text_entries[i].commands;
    assert(entry_check(config.text_entries[i]) is Ok);
    crate::script_laws::lemma_good_bounds(commands);
}

proof fn lemma_good_bounds_all(commands: Seq<TextCommandView>)
    ensures
        0 <= good_commands(commands) <= commands.len(),
{
    crate::script_laws::lemma_good_bounds(commands);
}

// Timers.

/// What a timer does: a reload focuses the window of its app, if it can be told, and presses the keys
/// that reload a page; a relaunch closes the window, where it can be told by its criteria, and launches and
/// arranges the app anew.
pub proof fn law_timer_body(app: AppView, event: TimedEventView, indent: Seq<char>)
    ensures
        event.action == RefreshAction::Reload ==> refresh_text(app, event, indent) == unlines(
            where_true(
                app.name.len() > 0 || app.match_criteria.len() > 0,
                seq![indent + window_call(app, "focus"@), indent + "sleep 1"@],
            ) + seq![indent + "xdotool key ctrl+r"@],
        ),
        event.action == RefreshAction::Relaunch ==> refresh_text(app, event, indent) == unlines(
            where_true(
                app.match_criteria.len() > 0,
                seq![indent + "i3 "@ + quoted("["@ + app.match_criteria + "] kill"@)],
            ),
        ) + indent + unlines(launch_lines(app)) + indent + unlines(arrange_lines(app)),
{
    let focus = where_true(
        app.name.len() > 0 || app.match_criteria.len() > 0,
        seq![indent + window_call(app, "focus"@), indent + "sleep 1"@],
    );
    let press = seq![indent + "xdotool key ctrl+r"@];
    lemma_unlines_concat(focus, press);
    assert(crate::script::focus_lines(app, indent) == focus);
}

/// A timer that repeats does its body in a loop, after its time each time round; one that does not
/// does it once, after its time. The body, and all else, is the same for both, whatever it does.
pub proof fn law_timer_job(app: AppView, event: TimedEventView)
    ensures
        ({
            let seconds = decimal_of(event.after.seconds as nat);
            let word = match event.action {
                RefreshAction::Reload => "reload"@,
                RefreshAction::Relaunch => "relaunch"@,
            };
            let title = "# Timed "@ + word + " for "@ + app.name + " after "@ + event.after.raw
                + "."@;
            &&& event.repeat ==> timer_text(app, event) == unlines(
                seq![title, "("@, "  while true; do"@, "    sleep "@ + seconds],
            ) + refresh_text(app, event, "    "@) + unlines(
                seq!["  done"@] + job_end(app.name, "-refresh"@),
            )
            &&& !event.repeat ==> timer_text(app, event) == unlines(
                seq![title, "( sleep "@ + seconds],
            ) + refresh_text(app, event, "  "@) + unlines(job_end(app.name, "-refresh"@))
        }),
{
    let seconds = decimal_of(event.after.seconds as nat);
    let title = crate::script::timer_title(app, event);
    lemma_unlines_concat(seq![title], seq!["("@]);
    lemma_unlines_concat(seq![title] + seq!["("@], seq!["  while true; do"@]);
    lemma_unlines_concat(
        seq![title] + seq!["("@] + seq!["  while true; do"@],
        seq!["    sleep "@ + seconds],
    );
    assert(seq![title] + seq!["("@] + seq!["  while true; do"@] + seq!["    sleep "@ + seconds]
        == seq![title, "("@, "  while true; do"@, "    sleep "@ + seconds]);
    lemma_unlines_concat(seq![title], seq!["( sleep "@ + seconds]);
    assert(seq![title] + seq!["( sleep "@ + seconds] == seq![title, "( sleep "@ + seconds]);
    let job = crate::script::job_lines(app, "-refresh"@);
    let blank = seq![Seq::<char>::empty()];
    assert(job_end(app.name, "-refresh"@) == job + blank);
    lemma_unlines_concat(job, blank);
    lemma_unlines_concat(seq!["  done"@], job_end(app.name, "-refresh"@));
    if event.repeat {
        assert(timer_text(app, event) == unlines(
            seq![title, "("@, "  while true; do"@, "    sleep "@ + seconds],
        ) + refresh_text(app, event, "    "@) + unlines(
            seq!["  done"@] + job_end(app.name, "-refresh"@),
        ));
    } else {
        assert(timer_text(app, event) == unlines(seq![title, "( sleep "@ + seconds])
            + refresh_text(app, event, "  "@) + unlines(job_end(app.name, "-refresh"@)));
    }
}

/// Every timer has its job in the script, for the first app of the name that it is for.
pub proof fn law_timer_has_its_job(config: ConfigView, i: int, app: int) -> (parts: (
    Seq<char>,
    Seq<char>,
))
    requires
        script_of(config) is Ok,
        0 <= i < config.refreshes.len(),
        is_first_app(config.apps, config.refreshes[i].target, app),
    ensures
        script_of(config)->Ok_0 == parts.0 + timer_text(config.apps[app], config.refreshes[i])
            + parts.1,
{
    law_first_app_is_found(config.apps, config.refreshes[i].target, app);
    lemma_script_parts(config);
    let (a, b) = lemma_fold_split(
        entries_end(config),
        config.refreshes,
        i,
        event_job(config.apps),
    );
    let rerun = unlines(rerun_lines(config.rerun));
    assert(script_of(config)->Ok_0 == a + timer_text(config.apps[app], config.refreshes[i]) + (b
        + rerun));
    (a, b + rerun)
}

// The whole.

/// A script ends with the rerun of it all, where there is to be one.
pub proof fn law_rerun_lines(rerun: Option<DurationView>)
    ensures
        rerun is None ==> rerun_lines(rerun).len() == 0,
        rerun matches Some(after) ==> rerun_lines(rerun) == seq![
            "# Rerun the full script after "@ + after.raw + "."@,
            "( sleep "@ + decimal_of(after.seconds as nat)
                + "; exec \"$SELF\" ) >/tmp/i3-controller-rerun.log 2>&1 &"@,
            "echo $! > \"$STATE_DIR/rerun.pid\""@,
        ],
{
}

/// One app more launches it behind the launches, and arranges it behind the arrangements, of the
/// others.
pub proof fn law_one_app_more(apps: Seq<AppView>, app: AppView)
    ensures
        unlines(each(apps.push(app), launcher())) == unlines(each(apps, launcher())) + unlines(
            launch_lines(app),
        ),
        unlines(each(apps.push(app), arranger())) == unlines(each(apps, arranger())) + unlines(
            arrange_lines(app),
        ),
        unlines(each(Seq::<AppView>::empty(), launcher())).len() == 0,
        unlines(each(Seq::<AppView>::empty(), arranger())).len() == 0,
{
    assert(apps.push(app).drop_last() == apps);
    lemma_unlines_concat(each(apps, launcher()), launch_lines(app));
    lemma_unlines_concat(each(apps, arranger()), arrange_lines(app));
}

/// Without text entries, timers and a rerun there is nothing in a script but its fixed front, the
/// kill rules, the launches and the arrangements. A text entry more puts its job behind all of that
/// and behind the jobs of the entries before it.
pub proof fn law_nothing_else_in_a_script(config: ConfigView, entry: TextEntryView, app: int)
    requires
        config.refreshes.len() == 0,
        config.rerun is None,
        script_of(config) is Ok,
    ensures
        config.text_entries.len() == 0 ==> script_of(config)->Ok_0 == PREAMBLE@ + unlines(
            all_kill_lines(config.kills),
        ) + unlines(each(config.apps, launcher())) + unlines(each(config.apps, arranger())),
        is_first_app(config.apps, entry.target, app) ==> ({
            let more = ConfigView { text_entries: config.text_entries.push(entry), ..config };
            script_of(more) matches Ok(script) ==> script == script_of(config)->Ok_0 + unlines(
                entry_lines(config.apps[app], entry),
            )
        }),
{
    let start = launch_part(config);
    assert(unlines(Seq::<Seq<char>>::empty()) == Seq::<char>::empty());
    let script = script_of(config)->Ok_0;
    assert(script + Seq::<char>::empty() == script);
    let more = ConfigView { text_entries: config.text_entries.push(entry), ..config };
    assert(more.text_entries.drop_last() == config.text_entries);
    assert(launch_part(more) == start);
    if is_first_app(config.apps, entry.target, app) {
        law_first_app_is_found(config.apps, entry.target, app);
        if let Ok(after) = script_of(more) {
            assert(after + Seq::<char>::empty() == after);
            assert(script == fold(start, config.text_entries, entry_job(config.apps))->Ok_0
                + Seq::<char>::empty());
        }
    }
}

/// A timer more, in a config that does not rerun, puts its job behind everything; and a rerun puts
/// its lines behind that.
pub proof fn law_timers_and_rerun_come_last(
    config: ConfigView,
    event: TimedEventView,
    app: int,
    after: DurationView,
)
    requires
        config.rerun is None,
        script_of(config) is Ok,
        is_first_app(config.apps, event.target, app),
    ensures
        script_of(ConfigView { refreshes: config.refreshes.push(event), ..config }) == Ok::<
            Seq<char>,
            ErrorView,
        >(script_of(config)->Ok_0 + timer_text(config.apps[app], event)),
        script_of(ConfigView { rerun: Some(after), ..config }) == Ok::<Seq<char>, ErrorView>(
            script_of(config)->Ok_0 + unlines(rerun_lines(Some(after))),
        ),
{
    law_first_app_is_found(config.apps, event.target, app);
    let more = ConfigView { refreshes: config.refreshes.push(event), ..config };
    assert(more.refreshes.drop_last() == config.refreshes);
    assert(launch_part(more) == launch_part(config));
    let again = ConfigView { rerun: Some(after), ..config };
    assert(launch_part(again) == launch_part(config));
    assert(unlines(Seq::<Seq<char>>::empty()) == Seq::<char>::empty());
    lemma_script_parts(config);
    let end = fold(entries_end(config), config.refreshes, event_job(config.apps))->Ok_0;
    assert(script_of(config)->Ok_0 == end + Seq::<char>::empty());
    assert(end + Seq::<char>::empty() == end);
    let longer = end + timer_text(config.apps[app], event);
    assert(longer + Seq::<char>::empty() == longer);
}

// When there is a script.

/// A text entry that can be done: it is for an app that there is, and the variables that it types
/// can be variables.
pub open spec fn is_good_entry(apps: Seq<AppView>, entry: TextEntryView) -> bool {
    &&& some_app_is_named(apps, entry.target)
    &&& forall|k: int|
        0 <= k < entry.commands.len() ==> is_good_command(#[trigger] entry.commands[k])
}

pub open spec fn is_good_command(command: TextCommandView) -> bool {
    command matches TextCommandView::TypeEnv(name) ==> names_a_variable(name)
}

proof fn lemma_good_entry(apps: Seq<AppView>, entry: TextEntryView, text: Seq<char>)
    ensures
        entry_job(apps)(text, entry) is Ok <==> is_good_entry(apps, entry),
{
    crate::script_laws::lemma_good_bounds(entry.commands);
    assert(is_named(apps, entry.target) <==> some_app_is_named(apps, entry.target));
    assert forall|k: int| 0 <= k < entry.commands.len() implies (is_good_command(
        #[trigger] entry.commands[k],
    ) <==> command_check(entry.commands[k]) is Ok) by {
        if let TextCommandView::TypeEnv(name) = entry.commands[k] {
            law_variable_names(name);
        }
    }
    let g = good_commands(entry.commands);
    if g < entry.commands.len() {
        assert(!is_good_command(entry.commands[g]));
    } else {
        assert forall|k: int| 0 <= k < entry.commands.len() implies is_good_command(
            #[trigger] entry.commands[k],
        ) by {
            assert(command_check(entry.commands[k]) is Ok);
        }
    }
}

proof fn lemma_good_entries(apps: Seq<AppView>, start: Seq<char>, entries: Seq<TextEntryView>)
    ensures
        fold(start, entries, entry_job(apps)) is Ok <==> forall|i: int|
            0 <= i < entries.len() ==> is_good_entry(apps, #[trigger] entries[i]),
    decreases entries.len(),
{
    if entries.len() > 0 {
        let front = entries.drop_last();
        lemma_good_entries(apps, start, front);
        if let Ok(text) = fold(start, front, entry_job(apps)) {
            lemma_good_entry(apps, entries.last(), text);
        }
        if forall|i: int| 0 <= i < entries.len() ==> is_good_entry(apps, #[trigger] entries[i]) {
            assert forall|i: int| 0 <= i < front.len() implies is_good_entry(
                apps,
                #[trigger] front[i],
            ) by {
                assert(front[i] == entries[i]);
            }
            assert(is_good_entry(apps, entries[entries.len() - 1]));
        }
        if fold(start, entries, entry_job(apps)) is Ok {
            assert forall|i: int| 0 <= i < entries.len() implies is_good_entry(
                apps,
                #[trigger] entries[i],
            ) by {
                if i < front.len() {
                    assert(front[i] == entries[i]);
                }
            }
        }
    }
}

proof fn lemma_good_events(apps: Seq<AppView>, start: Seq<char>, events: Seq<TimedEventView>)
    ensures
        fold(start, events, event_job(apps)) is Ok <==> forall|i: int|
            0 <= i < events.len() ==> some_app_is_named(apps, (#[trigger] events[i]).target),
    decreases events.len(),
{
    if events.len() > 0 {
        let front = events.drop_last();
        lemma_good_events(apps, start, front);
        assert(is_named(apps, events.last().target) <==> some_app_is_named(
            apps,
            events.last().target,
        ));
        if forall|i: int|
            0 <= i < events.len() ==> some_app_is_named(apps, (#[trigger] events[i]).target) {
            assert forall|i: int| 0 <= i < front.len() implies some_app_is_named(
                apps,
                (#[trigger] front[i]).target,
            ) by {
                assert(front[i] == events[i]);
            }
            assert(some_app_is_named(apps, events[events.len() - 1].target));
        }
        if fold(start, events, event_job(apps)) is Ok {
            assert forall|i: int| 0 <= i < events.len() implies some_app_is_named(
                apps,
                (#[trigger] events[i]).target,
            ) by {
                if i < front.len() {
                    assert(front[i] == events[i]);
                }
            }
        }
    }
}

/// A config has a script exactly if each of its text entries can be done and each of its timers is
/// for an app that there is.
pub proof fn law_when_there_is_a_script(config: ConfigView)
    ensures
        script_of(config) is Ok <==> {
            &&& forall|i: int|
                0 <= i < config.text_entries.len() ==> is_good_entry(
                    config.apps,
                    #[trigger] config.text_entries[i],
                )
            &&& forall|i: int|
                0 <= i < config.refreshes.len() ==> some_app_is_named(
                    config.apps,
                    (#[trigger] config.refreshes[i]).target,
                )
        },
{
    lemma_good_entries(config.apps, launch_part(config), config.text_entries);
    if let Ok(text) = fold(launch_part(config), config.text_entries, entry_job(config.apps)) {
        lemma_good_events(config.apps, text, config.refreshes);
    }
}

/// The first text entry that cannot be done is what is said of a config without a script: that there
/// is no such app, or else the first of its variables that can be none.
pub proof fn law_first_wrong_entry(config: ConfigView, i: int, k: int)
    requires
        0 <= i < config.text_entries.len(),
        forall|j: int|
            0 <= j < i ==> is_good_entry(config.apps, #[trigger] config.text_entries[j]),
    ensures
        !some_app_is_named(config.apps, config.text_entries[i].target) ==> script_of(config)
            == Err::<Seq<char>, ErrorView>(
            ErrorView::UnknownTarget { name: config.text_entries[i].target },
        ),
        some_app_is_named(config.apps, config.text_entries[i].target) && 0 <= k
            < config.text_entries[i].commands.len() && (forall|j: int|
            0 <= j < k ==> is_good_command(#[trigger] config.text_entries[i].commands[j])) && !(
        is_good_command(config.text_entries[i].commands[k])) ==> script_of(config) == Err::<
            Seq<char>,
            ErrorView,
        >(
            ({
                let name = config.text_entries[i].commands[k]->TypeEnv_0;
                if name.len() == 0 {
                    ErrorView::EmptyVariableName
                } else {
                    ErrorView::InvalidVariableName { name }
                }
            }),
        ),
{
    let start = launch_part(config);
    let entries = config.text_entries;
    let step = entry_job(config.apps);
    let entry = entries[i];
    assert forall|j: int| 0 <= j < entries.take(i).len() implies is_good_entry(
        config.apps,
        #[trigger] entries.take(i)[j],
    ) by {
        assert(entries.take(i)[j] == entries[j]);
    }
    lemma_good_entries(config.apps, start, entries.take(i));
    lemma_fold_step(start, entries, i, step);
    assert(is_named(config.apps, entry.target) <==> some_app_is_named(config.apps, entry.target));
    if !some_app_is_named(config.apps, entry.target) {
        lemma_fold_error(start, entries, i + 1, step);
    } else if 0 <= k < entry.commands.len() && (forall|j: int|
        0 <= j < k ==> is_good_command(#[trigger] entry.commands[j])) && !is_good_command(
        entry.commands[k],
    ) {
        assert forall|j: int| 0 <= j < k implies command_check(#[trigger] entry.commands[j]) is Ok by {
            assert(is_good_command(entry.commands[j]));
            if let TextCommandView::TypeEnv(name) = entry.commands[j] {
                law_variable_names(name);
            }
        }
        let name = entry.commands[k]->TypeEnv_0;
        law_variable_names(name);
        assert(command_check(entry.commands[k]) is Err);
        lemma_good_commands_at(entry.commands, k);
        lemma_fold_error(start, entries, i + 1, step);
    }
}

} // verus!
