//! Writing the launch script of a config.
use crate::config::{
    App, AppKind, AppView, Config, ConfigView, DurationSpec, DurationView, KillRule, KillRuleView, RefreshAction,
    TextCommand, TextCommandView, TextEntry, TextEntryView, TimedEvent, TimedEventView,
};
use crate::error::{outcome, Error, ErrorView};
use crate::fold::{fold, lemma_fold_all, lemma_fold_error, lemma_fold_step};
use crate::format::{action_text, action_word};
use crate::number::{decimal, decimal_of};
use crate::preamble::PREAMBLE;
use crate::shell::{
    file_safe, file_safe_text, quoted, shell_quote, shell_word, validate_env_name, variable_check,
    worded,
};
use crate::text::{
    each, grown, has_prefix, lemma_each_step, lemma_empty_line, pieces, put_line, split,
    starts_with, trim, trimmed, unlines,
};
use crate::validate::{find_app, first_named, is_named};
use vstd::prelude::*;

verus! {

pub open spec fn at_least(n: u64, least: u64) -> u64 {
    if n > least {
        n
    } else {
        least
    }
}

// What is run for an app.

/// The mark by which an app's window is found again.
pub open spec fn mark_of(app: AppView) -> Seq<char> {
    "i3-controller-"@ + file_safe_text(app.name)
}

pub fn window_mark(app: &App) -> (s: String)
    ensures
        s@ == mark_of(app.deep_view()),
{
    "i3-controller-".to_owned().concat(&file_safe(&app.name))
}

/// The command of a native app with its arguments.
pub open spec fn native_command(app: AppView) -> Seq<char> {
    if trimmed(app.args).len() == 0 {
        trimmed(app.command)
    } else {
        trimmed(app.command) + " "@ + trimmed(app.args)
    }
}

pub fn native_exec_command(app: &App) -> (s: String)
    ensures
        s@ == native_command(app.deep_view()),
{
    let args = trim(&app.args);
    if args.as_str().is_empty() {
        trim(&app.command)
    } else {
        trim(&app.command).concat(" ").concat(&args)
    }
}

/// The browser command of a web app.
pub open spec fn web_command(app: AppView) -> Seq<char> {
    let base = worded(app.browser) + " --app="@ + worded(app.url) + " --no-first-run"@;
    let with_args = if app.browser_args.len() == 0 {
        base
    } else {
        base + " "@ + trimmed(app.browser_args)
    };
    if app.profile.len() == 0 {
        with_args
    } else {
        with_args + " --user-data-dir="@ + worded(app.profile)
    }
}

pub fn web_exec_command(app: &App) -> (s: String)
    ensures
        s@ == web_command(app.deep_view()),
{
    let mut command = shell_word(&app.browser).concat(" --app=").concat(
        &shell_word(&app.url),
    ).concat(" --no-first-run");
    if !app.browser_args.as_str().is_empty() {
        command = command.concat(" ").concat(&trim(&app.browser_args));
    }
    if !app.profile.as_str().is_empty() {
        command = command.concat(" --user-data-dir=").concat(&shell_word(&app.profile));
    }
    command
}

/// What the inner shell of a detached command runs.
pub open spec fn logged_command(app: AppView, command: Seq<char>) -> Seq<char> {
    "exec "@ + command + " >>"@ + ("/tmp/i3-controller-"@ + file_safe_text(app.name)
        + "-launch.log"@) + " 2>&1"@
}

/// What the outer shell of a detached command runs: the inner shell in a session of its own, in
/// the background.
pub open spec fn session_command(app: AppView, command: Seq<char>) -> Seq<char> {
    "setsid -f sh -lc "@ + quoted(logged_command(app, command)) + " >"@ + worded(
        "/tmp/i3-controller-"@ + file_safe_text(app.name) + "-detach.log"@,
    ) + " 2>&1 &"@
}

/// A command that starts `command` and does not wait for it.
pub open spec fn detached_command(app: AppView, command: Seq<char>) -> Seq<char> {
    "sh -lc "@ + quoted(session_command(app, command))
}

pub fn detached_exec_command(app: &App, command: &str) -> (s: String)
    ensures
        s@ == detached_command(app.deep_view(), command@),
{
    let log_path = "/tmp/i3-controller-".to_owned().concat(&file_safe(&app.name)).concat(
        "-launch.log",
    );
    let detach_log_path = "/tmp/i3-controller-".to_owned().concat(&file_safe(&app.name)).concat(
        "-detach.log",
    );
    let logged = "exec ".to_owned().concat(command).concat(" >>").concat(&log_path).concat(
        " 2>&1",
    );
    let session = "setsid -f sh -lc ".to_owned().concat(&shell_quote(&logged)).concat(" >").concat(
        &shell_word(&detach_log_path),
    ).concat(" 2>&1 &");
    "sh -lc ".to_owned().concat(&shell_quote(&session))
}

// Launching.

/// A line of the script that says what it is about to do.
pub open spec fn echo_line(what: Seq<char>, name: Seq<char>) -> Seq<char> {
    "echo "@ + quoted(what + name)
}

fn echo(what: &str, name: &str) -> (s: String)
    ensures
        s@ == echo_line(what@, name@),
{
    "echo ".to_owned().concat(&shell_quote(&what.to_owned().concat(name)))
}

pub open spec fn app_command(app: AppView) -> Seq<char> {
    match app.kind {
        AppKind::Native => native_command(app),
        AppKind::Web => web_command(app),
    }
}

pub open spec fn workspace_lines(app: AppView) -> Seq<Seq<char>> {
    if app.workspace.len() == 0 {
        seq![]
    } else {
        seq!["i3 "@ + quoted("workspace "@ + app.workspace)]
    }
}

/// The lines that launch an app and mark the window that it opens.
pub open spec fn launch_lines(app: AppView) -> Seq<Seq<char>> {
    seq![echo_line("launching "@, app.name)] + seq![
        "i3_window_ids > \"$STATE_DIR/"@ + file_safe_text(app.name) + "-before.windows\""@,
    ] + workspace_lines(app) + seq![
        "i3 "@ + quoted("exec --no-startup-id "@ + detached_command(app, app_command(app))),
    ] + seq![
        "i3_mark_new_window "@ + quoted(mark_of(app)) + " \"$STATE_DIR/"@ + file_safe_text(app.name)
            + "-before.windows\" "@ + decimal_of(at_least(app.startup_delay, 30) as nat),
    ] + seq![seq![]]
}

pub fn write_launch_app(script: &mut String, app: &App) -> (r: Result<(), Error>)
    ensures
        r is Ok,
        final(script)@ == old(script)@ + unlines(launch_lines(app.deep_view())),
{
    let ghost start = script@;
    let ghost view = app.deep_view();
    let ghost mut l = seq![echo_line("launching "@, view.name)];
    let safe_name = file_safe(&app.name);
    put_line(script, &echo("launching ", &app.name));
    let before = "i3_window_ids > \"$STATE_DIR/".to_owned().concat(&safe_name).concat(
        "-before.windows\"",
    );
    put_line(script, &before);
    proof {
        l = grown(start, l, seq![before@]);
    }
    if !app.workspace.as_str().is_empty() {
        put_line(
            script,
            &"i3 ".to_owned().concat(&shell_quote(&"workspace ".to_owned().concat(&app.workspace))),
        );
    } else {
        assert(script@ + Seq::<char>::empty() == script@);
    }
    proof {
        l = grown(start, l, workspace_lines(view));
    }
    let command = match app.kind {
        AppKind::Native => native_exec_command(app),
        AppKind::Web => web_exec_command(app),
    };
    let exec_line = "i3 ".to_owned().concat(
        &shell_quote(
            &"exec --no-startup-id ".to_owned().concat(&detached_exec_command(app, &command)),
        ),
    );
    put_line(script, &exec_line);
    proof {
        l = grown(start, l, seq![exec_line@]);
    }
    let attempts: u64 = if app.startup_delay > 30 {
        app.startup_delay
    } else {
        30
    };
    let mark_line = "i3_mark_new_window ".to_owned().concat(
        &shell_quote(&window_mark(app)),
    ).concat(" \"$STATE_DIR/").concat(&safe_name).concat("-before.windows\" ").concat(
        &decimal(attempts),
    );
    put_line(script, &mark_line);
    proof {
        l = grown(start, l, seq![mark_line@]);
    }
    put_line(script, "");
    proof {
        lemma_empty_line();
        l = grown(start, l, seq![seq![]]);
    }
    Ok(())
}

// Arranging.

/// The commands of a layout: what stands between its semicolons and is not blank.
pub open spec fn nonblank(parts: Seq<Seq<char>>) -> Seq<Seq<char>>
    decreases parts.len(),
{
    if parts.len() == 0 {
        seq![]
    } else {
        let rest = nonblank(parts.drop_last());
        let part = trimmed(parts.last());
        if part.len() == 0 {
            rest
        } else {
            rest.push(part)
        }
    }
}

pub open spec fn layout_parts(layout: Seq<char>) -> Seq<Seq<char>> {
    nonblank(pieces(layout, ';'))
}

pub fn layout_commands(layout: &str) -> (r: Vec<String>)
    ensures
        r.deep_view() == layout_parts(layout@),
{
    let parts = split(layout, ';');
    let ghost all = pieces(layout@, ';');
    let mut r: Vec<String> = Vec::new();
    assert(r.deep_view() == nonblank(all.take(0)));
    for i in 0..parts.len()
        invariant
            parts.deep_view() == all,
            r.deep_view() == nonblank(all.take(i as int)),
    {
        let ghost before = r;
        let part = trim(&parts[i]);
        proof {
            assert(all[i as int] == parts@[i as int]@);
            assert(all.take(i + 1).drop_last() == all.take(i as int));
        }
        if !part.as_str().is_empty() {
            r.push(part);
            assert(r.deep_view() == before.deep_view().push(part@));
        }
    }
    assert(all.take(all.len() as int) == all);
    r
}

/// A layout command that i3 takes only of a floating window.
pub open spec fn is_floating_command(command: Seq<char>) -> bool {
    starts_with(command, "move position"@) || starts_with(command, "resize set"@)
}

pub open spec fn needs_floating(layout: Seq<char>) -> bool {
    exists|i: int|
        0 <= i < layout_parts(layout).len() && is_floating_command(
            #[trigger] layout_parts(layout)[i],
        )
}

pub fn layout_requires_floating(layout: &str) -> (r: bool)
    ensures
        r == needs_floating(layout@),
{
    let commands = layout_commands(layout);
    let ghost all = layout_parts(layout@);
    for i in 0..commands.len()
        invariant
            commands.deep_view() == all,
            all == layout_parts(layout@),
            forall|k: int| 0 <= k < i ==> !is_floating_command(#[trigger] all[k]),
    {
        assert(all[i as int] == commands@[i as int]@);
        if has_prefix(&commands[i], "move position") || has_prefix(&commands[i], "resize set") {
            assert(is_floating_command(layout_parts(layout@)[i as int]));
            return true;
        }
    }
    false
}

/// A line that runs an i3 command on an app's window.
pub open spec fn app_line(app: AppView, command: Seq<char>) -> Seq<char> {
    "i3_app "@ + quoted(mark_of(app)) + " "@ + quoted(trimmed(app.match_criteria)) + " "@ + quoted(
        command,
    )
}

fn app_call(app: &App, command: &str) -> (s: String)
    ensures
        s@ == app_line(app.deep_view(), command@),
{
    "i3_app ".to_owned().concat(&shell_quote(&window_mark(app))).concat(" ").concat(
        &shell_quote(&trim(&app.match_criteria)),
    ).concat(" ").concat(&shell_quote(command))
}

pub open spec fn move_lines(app: AppView) -> Seq<Seq<char>> {
    if app.workspace.len() == 0 {
        seq![]
    } else {
        seq![app_line(app, "move to workspace "@ + app.workspace)]
    }
}

pub open spec fn floating_lines(app: AppView) -> Seq<Seq<char>> {
    if needs_floating(app.layout) {
        seq![app_line(app, "floating enable"@)]
    } else {
        seq![]
    }
}

pub open spec fn layout_line(app: AppView) -> spec_fn(Seq<char>) -> Seq<Seq<char>> {
    |command: Seq<char>| seq![app_line(app, command)]
}

/// The lines that put an app's window in its place; none if the app says nothing of its place.
pub open spec fn arrange_lines(app: AppView) -> Seq<Seq<char>> {
    if app.match_criteria.len() == 0 && app.layout.len() == 0 && app.workspace.len() == 0 {
        seq![]
    } else {
        seq![echo_line("arranging "@, app.name)] + seq![
            "sleep "@ + decimal_of(at_least(app.startup_delay, 1) as nat),
        ] + seq![app_line(app, "nop"@)] + move_lines(app) + floating_lines(app) + each(
            layout_parts(app.layout),
            layout_line(app),
        ) + seq![seq![]]
    }
}

fn write_layout(script: &mut String, app: &App)
    ensures
        final(script)@ == old(script)@ + unlines(
            each(layout_parts(app.deep_view().layout), layout_line(app.deep_view())),
        ),
{
    let ghost start = script@;
    let ghost view = app.deep_view();
    let commands = layout_commands(&app.layout);
    let ghost all = layout_parts(view.layout);
    assert(start + Seq::<char>::empty() == start);
    for i in 0..commands.len()
        invariant
            view == app.deep_view(),
            commands.deep_view() == all,
            script@ == start + unlines(each(all.take(i as int), layout_line(view))),
    {
        put_line(script, &app_call(app, &commands[i]));
        proof {
            assert(all[i as int] == commands@[i as int]@);
            lemma_each_step(all, i as int, layout_line(view));
            let _ = grown(
                start,
                each(all.take(i as int), layout_line(view)),
                seq![app_line(view, all[i as int])],
            );
        }
    }
    assert(all.take(all.len() as int) == all);
}

pub fn write_configure_app(script: &mut String, app: &App) -> (r: Result<(), Error>)
    ensures
        r is Ok,
        final(script)@ == old(script)@ + unlines(arrange_lines(app.deep_view())),
{
    let ghost start = script@;
    let ghost view = app.deep_view();
    if app.match_criteria.as_str().is_empty() && app.layout.as_str().is_empty()
        && app.workspace.as_str().is_empty() {
        assert(start + Seq::<char>::empty() == start);
        return Ok(());
    }
    let ghost mut l = seq![echo_line("arranging "@, view.name)];
    put_line(script, &echo("arranging ", &app.name));
    let delay: u64 = if app.startup_delay > 1 {
        app.startup_delay
    } else {
        1
    };
    let sleep_line = "sleep ".to_owned().concat(&decimal(delay));
    put_line(script, &sleep_line);
    proof {
        l = grown(start, l, seq![sleep_line@]);
    }
    put_line(script, &app_call(app, "nop"));
    proof {
        l = grown(start, l, seq![app_line(view, "nop"@)]);
    }
    if !app.workspace.as_str().is_empty() {
        put_line(script, &app_call(app, &"move to workspace ".to_owned().concat(&app.workspace)));
    } else {
        assert(script@ + Seq::<char>::empty() == script@);
    }
    proof {
        l = grown(start, l, move_lines(view));
    }
    if layout_requires_floating(&app.layout) {
        put_line(script, &app_call(app, "floating enable"));
    } else {
        assert(script@ + Seq::<char>::empty() == script@);
    }
    proof {
        l = grown(start, l, floating_lines(view));
    }
    write_layout(script, app);
    proof {
        l = grown(start, l, each(layout_parts(view.layout), layout_line(view)));
    }
    put_line(script, "");
    proof {
        lemma_empty_line();
        l = grown(start, l, seq![seq![]]);
    }
    Ok(())
}

// Text entry.

/// The lines that bring an app's window to the front.
pub open spec fn focus_lines(app: AppView, indent: Seq<char>) -> Seq<Seq<char>> {
    if app.match_criteria.len() == 0 && app.name.len() == 0 {
        seq![]
    } else {
        seq![indent + app_line(app, "focus"@)] + seq![indent + "sleep 1"@]
    }
}

pub fn focus_app_with_indent(script: &mut String, app: &App, indent: &str) -> (r: Result<
    (),
    Error,
>)
    ensures
        r is Ok,
        final(script)@ == old(script)@ + unlines(focus_lines(app.deep_view(), indent@)),
{
    let ghost start = script@;
    if app.match_criteria.as_str().is_empty() && app.name.as_str().is_empty() {
        assert(start + Seq::<char>::empty() == start);
        return Ok(());
    }
    put_line(script, &indent.to_owned().concat(&app_call(app, "focus")));
    put_line(script, &indent.to_owned().concat("sleep 1"));
    proof {
        let _ = grown(
            start,
            seq![indent@ + app_line(app.deep_view(), "focus"@)],
            seq![indent@ + "sleep 1"@],
        );
    }
    Ok(())
}

pub fn focus_app(script: &mut String, app: &App) -> (r: Result<(), Error>)
    ensures
        r is Ok,
        final(script)@ == old(script)@ + unlines(focus_lines(app.deep_view(), "  "@)),
{
    focus_app_with_indent(script, app, "  ")
}

/// The line that carries out a text command.
pub open spec fn command_line(command: TextCommandView) -> Seq<char> {
    match command {
        TextCommandView::Type(text) => "  xdotool type --delay 20 -- "@ + quoted(text),
        TextCommandView::TypeEnv(name) => "  xdotool type --delay 20 -- \"${"@ + name + ":-}\""@,
        TextCommandView::Key(key) => "  xdotool key "@ + worded(key),
        TextCommandView::Wait(seconds) => "  sleep "@ + decimal_of(seconds as nat),
    }
}

pub open spec fn command_lines() -> spec_fn(TextCommandView) -> Seq<Seq<char>> {
    |command: TextCommandView| seq![command_line(command)]
}

/// A command is in order if the variable that it names, if any, can be one.
pub open spec fn command_check(command: TextCommandView) -> Result<(), ErrorView> {
    match command {
        TextCommandView::TypeEnv(name) => variable_check(name),
        _ => Ok(()),
    }
}

/// How many commands stand before the first that is not in order.
pub open spec fn good_commands(commands: Seq<TextCommandView>) -> int
    decreases commands.len(),
{
    if commands.len() == 0 || command_check(commands[0]) is Err {
        0
    } else {
        1 + good_commands(commands.drop_first())
    }
}

pub proof fn lemma_good_commands_at(commands: Seq<TextCommandView>, i: int)
    requires
        0 <= i <= commands.len(),
        forall|k: int| 0 <= k < i ==> command_check(#[trigger] commands[k]) is Ok,
        i < commands.len() ==> command_check(commands[i]) is Err,
    ensures
        good_commands(commands) == i,
    decreases i,
{
    if i > 0 {
        let rest = commands.drop_first();
        assert(command_check(commands[0]) is Ok);
        assert forall|k: int| 0 <= k < i - 1 implies command_check(#[trigger] rest[k]) is Ok by {
            assert(rest[k] == commands[k + 1]);
        }
        lemma_good_commands_at(rest, i - 1);
    }
}

/// What is wrong with the commands of a text entry.
pub open spec fn entry_check(entry: TextEntryView) -> Result<(), ErrorView> {
    let i = good_commands(entry.commands);
    if i < entry.commands.len() {
        command_check(entry.commands[i])
    } else {
        Ok(())
    }
}

/// The lines of a text entry as far as its commands are in order.
pub open spec fn entry_head(app: AppView, entry: TextEntryView) -> Seq<Seq<char>> {
    seq!["# Text-entry automation for "@ + app.name + "."@] + seq![
        "( sleep "@ + decimal_of(entry.delay as nat),
    ] + focus_lines(app, "  "@) + each(
        entry.commands.take(good_commands(entry.commands)),
        command_lines(),
    )
}

/// The lines that send a background job's output to a log and note its process.
pub open spec fn job_lines(app: AppView, what: Seq<char>) -> Seq<Seq<char>> {
    seq![") >/tmp/i3-controller-"@ + file_safe_text(app.name) + what + ".log 2>&1 &"@] + seq![
        "echo $! > \"$STATE_DIR/"@ + file_safe_text(app.name) + what + ".pid\""@,
    ]
}

fn write_job(script: &mut String, app: &App, what: &str)
    ensures
        final(script)@ == old(script)@ + unlines(job_lines(app.deep_view(), what@)),
{
    let ghost start = script@;
    let safe_name = file_safe(&app.name);
    let log_line = ") >/tmp/i3-controller-".to_owned().concat(&safe_name).concat(what).concat(
        ".log 2>&1 &",
    );
    let pid_line = "echo $! > \"$STATE_DIR/".to_owned().concat(&safe_name).concat(what).concat(
        ".pid\"",
    );
    put_line(script, &log_line);
    put_line(script, &pid_line);
    proof {
        let _ = grown(start, seq![log_line@], seq![pid_line@]);
    }
}

pub open spec fn entry_lines(app: AppView, entry: TextEntryView) -> Seq<Seq<char>> {
    entry_head(app, entry) + job_lines(app, "-text"@) + seq![seq![]]
}

fn write_text_command(script: &mut String, command: &TextCommand) -> (r: Result<(), Error>)
    ensures
        outcome(r) == command_check(command.deep_view()),
        r is Ok ==> final(script)@ == old(script)@ + unlines(
            seq![command_line(command.deep_view())],
        ),
        r is Err ==> final(script)@ == old(script)@,
{
    match command {
        TextCommand::Type(text) => {
            put_line(
                script,
                &"  xdotool type --delay 20 -- ".to_owned().concat(&shell_quote(text)),
            );
        },
        TextCommand::TypeEnv(name) => {
            match validate_env_name(name) {
                Ok(_) => {},
                Err(error) => {
                    return Err(error);
                },
            }
            put_line(
                script,
                &"  xdotool type --delay 20 -- \"${".to_owned().concat(name).concat(":-}\""),
            );
        },
        TextCommand::Key(key) => {
            put_line(script, &"  xdotool key ".to_owned().concat(&shell_word(key)));
        },
        TextCommand::Wait(seconds) => {
            put_line(script, &"  sleep ".to_owned().concat(&decimal(*seconds)));
        },
    }
    Ok(())
}

/// Writes the job that enters text into an app; ends at the first command that is not in order.
pub fn write_text_entry(script: &mut String, app: &App, entry: &TextEntry) -> (r: Result<
    (),
    Error,
>)
    ensures
        outcome(r) == entry_check(entry.deep_view()),
        r is Ok ==> final(script)@ == old(script)@ + unlines(
            entry_lines(app.deep_view(), entry.deep_view()),
        ),
        r is Err ==> final(script)@ == old(script)@ + unlines(
            entry_head(app.deep_view(), entry.deep_view()),
        ),
{
    let ghost start = script@;
    let ghost view = app.deep_view();
    let ghost all = entry.deep_view().commands;
    let title = "# Text-entry automation for ".to_owned().concat(&app.name).concat(".");
    let ghost mut l = seq![title@];
    put_line(script, &title);
    let sleep_line = "( sleep ".to_owned().concat(&decimal(entry.delay));
    put_line(script, &sleep_line);
    proof {
        l = grown(start, l, seq![sleep_line@]);
    }
    focus_app(script, app)?;
    proof {
        l = grown(start, l, focus_lines(view, "  "@));
        assert(l + each(all.take(0), command_lines()) == l);
    }
    for i in 0..entry.commands.len()
        invariant
            view == app.deep_view(),
            all == entry.deep_view().commands,
            l == seq!["# Text-entry automation for "@ + view.name + "."@] + seq![
                "( sleep "@ + decimal_of(entry.delay as nat),
            ] + focus_lines(view, "  "@),
            forall|k: int| 0 <= k < i ==> command_check(#[trigger] all[k]) is Ok,
            start == old(script)@,
            script@ == start + unlines(l + each(all.take(i as int), command_lines())),
    {
        assert(all[i as int] == entry.commands@[i as int].deep_view());
        match write_text_command(script, &entry.commands[i]) {
            Ok(_) => {},
            Err(error) => {
                proof {
                    lemma_good_commands_at(all, i as int);
                }
                return Err(error);
            },
        }
        proof {
            lemma_each_step(all, i as int, command_lines());
            let so_far = l + each(all.take(i as int), command_lines());
            let more = seq![command_line(all[i as int])];
            let _ = grown(start, so_far, more);
            assert(so_far + more == l + each(all.take(i + 1), command_lines()));
        }
    }
    proof {
        lemma_good_commands_at(all, all.len() as int);
        l = l + each(all.take(all.len() as int), command_lines());
        assert(l == entry_head(view, entry.deep_view()));
    }
    write_job(script, app, "-text");
    proof {
        l = grown(start, l, job_lines(view, "-text"@));
    }
    put_line(script, "");
    proof {
        lemma_empty_line();
        l = grown(start, l, seq![seq![]]);
    }
    Ok(())
}

// Timers.

pub open spec fn kill_window_lines(app: AppView, indent: Seq<char>) -> Seq<Seq<char>> {
    if app.match_criteria.len() == 0 {
        seq![]
    } else {
        seq![indent + "i3 "@ + quoted("["@ + app.match_criteria + "] kill"@)]
    }
}

/// What a timer does when its time has come.
pub open spec fn refresh_text(app: AppView, event: TimedEventView, indent: Seq<char>) -> Seq<char> {
    match event.action {
        RefreshAction::Reload => unlines(focus_lines(app, indent)) + unlines(
            seq![indent + "xdotool key ctrl+r"@],
        ),
        RefreshAction::Relaunch => unlines(kill_window_lines(app, indent)) + indent + unlines(
            launch_lines(app),
        ) + indent + unlines(arrange_lines(app)),
    }
}

pub fn write_refresh_body(
    script: &mut String,
    app: &App,
    event: &TimedEvent,
    indent: &str,
) -> (r: Result<(), Error>)
    ensures
        r is Ok,
        final(script)@ == old(script)@ + refresh_text(app.deep_view(), event.deep_view(), indent@),
{
    let ghost start = script@;
    let ghost view = app.deep_view();
    match event.action {
        RefreshAction::Reload => {
            focus_app_with_indent(script, app, indent)?;
            put_line(script, &indent.to_owned().concat("xdotool key ctrl+r"));
            assert(script@ == start + refresh_text(view, event.deep_view(), indent@));
        },
        RefreshAction::Relaunch => {
            if !app.match_criteria.as_str().is_empty() {
                put_line(
                    script,
                    &indent.to_owned().concat("i3 ").concat(
                        &shell_quote(&"[".to_owned().concat(&app.match_criteria).concat("] kill")),
                    ),
                );
            } else {
                assert(start + Seq::<char>::empty() == start);
            }
            script.append(indent);
            write_launch_app(script, app)?;
            script.append(indent);
            write_configure_app(script, app)?;
            assert(script@ == start + refresh_text(view, event.deep_view(), indent@));
        },
    }
    Ok(())
}

pub open spec fn timer_title(app: AppView, event: TimedEventView) -> Seq<char> {
    "# Timed "@ + action_text(event.action) + " for "@ + app.name + " after "@ + event.after.raw
        + "."@
}

pub open spec fn timer_text(app: AppView, event: TimedEventView) -> Seq<char> {
    let seconds = decimal_of(event.after.seconds as nat);
    let job = if event.repeat {
        unlines(seq!["("@]) + unlines(seq!["  while true; do"@]) + unlines(
            seq!["    sleep "@ + seconds],
        ) + refresh_text(app, event, "    "@) + unlines(seq!["  done"@])
    } else {
        unlines(seq!["( sleep "@ + seconds]) + refresh_text(app, event, "  "@)
    };
    unlines(seq![timer_title(app, event)]) + job + unlines(job_lines(app, "-refresh"@)) + unlines(
        seq![seq![]],
    )
}

pub fn write_timed_event(script: &mut String, app: &App, event: &TimedEvent) -> (r: Result<
    (),
    Error,
>)
    ensures
        r is Ok,
        final(script)@ == old(script)@ + timer_text(app.deep_view(), event.deep_view()),
{
    let ghost start = script@;
    let ghost view = app.deep_view();
    let title = "# Timed ".to_owned().concat(action_word(event.action)).concat(" for ").concat(
        &app.name,
    ).concat(" after ").concat(&event.after.raw).concat(".");
    put_line(script, &title);
    let seconds = decimal(event.after.seconds);
    let ghost titled = script@;
    if event.repeat {
        put_line(script, "(");
        put_line(script, "  while true; do");
        put_line(script, &"    sleep ".to_owned().concat(&seconds));
        write_refresh_body(script, app, event, "    ")?;
        put_line(script, "  done");
        assert(script@ == titled + (unlines(seq!["("@]) + unlines(seq!["  while true; do"@])
            + unlines(seq!["    sleep "@ + seconds@]) + refresh_text(
            view,
            event.deep_view(),
            "    "@,
        ) + unlines(seq!["  done"@])));
    } else {
        put_line(script, &"( sleep ".to_owned().concat(&seconds));
        write_refresh_body(script, app, event, "  ")?;
        assert(script@ == titled + (unlines(seq!["( sleep "@ + seconds@]) + refresh_text(
            view,
            event.deep_view(),
            "  "@,
        )));
    }
    write_job(script, app, "-refresh");
    put_line(script, "");
    proof {
        lemma_empty_line();
        assert(script@ == start + timer_text(view, event.deep_view()));
    }
    Ok(())
}

// The whole script.

/// The name by which a kill rule is announced.
pub open spec fn kill_label(kill: KillRuleView) -> Seq<char> {
    if kill.name.len() == 0 {
        kill.pattern
    } else {
        kill.name
    }
}

pub open spec fn kill_lines() -> spec_fn(KillRuleView) -> Seq<Seq<char>> {
    |kill: KillRuleView|
        seq![echo_line("stopping "@, kill_label(kill))] + seq![
            "pkill -"@ + worded(kill.signal) + " -f "@ + quoted(kill.pattern)
                + " >/dev/null 2>&1 || true"@,
        ]
}

/// The lines that stop processes, with a blank line behind them if there are any.
pub open spec fn all_kill_lines(kills: Seq<KillRuleView>) -> Seq<Seq<char>> {
    if kills.len() == 0 {
        seq![]
    } else {
        each(kills, kill_lines()) + seq![seq![]]
    }
}

fn write_kills(script: &mut String, kills: &Vec<KillRule>)
    ensures
        final(script)@ == old(script)@ + unlines(all_kill_lines(kills.deep_view())),
{
    let ghost start = script@;
    let ghost all = kills.deep_view();
    assert(start + Seq::<char>::empty() == start);
    for i in 0..kills.len()
        invariant
            all == kills.deep_view(),
            script@ == start + unlines(each(all.take(i as int), kill_lines())),
    {
        let kill = &kills[i];
        let label = if kill.name.as_str().is_empty() {
            &kill.pattern
        } else {
            &kill.name
        };
        let echo_text = echo("stopping ", label);
        let kill_text = "pkill -".to_owned().concat(&shell_word(&kill.signal)).concat(
            " -f ",
        ).concat(&shell_quote(&kill.pattern)).concat(" >/dev/null 2>&1 || true");
        put_line(script, &echo_text);
        put_line(script, &kill_text);
        proof {
            assert(all[i as int] == kills@[i as int].deep_view());
            lemma_each_step(all, i as int, kill_lines());
            let so_far = each(all.take(i as int), kill_lines());
            let mid = grown(start, so_far, seq![echo_text@]);
            let _ = grown(start, mid, seq![kill_text@]);
            assert(mid + seq![kill_text@] == so_far + (seq![echo_text@] + seq![kill_text@]));
        }
    }
    assert(all.take(all.len() as int) == all);
    if kills.len() > 0 {
        put_line(script, "");
        proof {
            lemma_empty_line();
            let _ = grown(start, each(all, kill_lines()), seq![seq![]]);
        }
    }
}

pub open spec fn launcher() -> spec_fn(AppView) -> Seq<Seq<char>> {
    |app: AppView| launch_lines(app)
}

pub open spec fn arranger() -> spec_fn(AppView) -> Seq<Seq<char>> {
    |app: AppView| arrange_lines(app)
}

fn write_launches(script: &mut String, apps: &Vec<App>) -> (r: Result<(), Error>)
    ensures
        r is Ok,
        final(script)@ == old(script)@ + unlines(each(apps.deep_view(), launcher())),
{
    let ghost start = script@;
    let ghost all = apps.deep_view();
    assert(start + Seq::<char>::empty() == start);
    for i in 0..apps.len()
        invariant
            all == apps.deep_view(),
            script@ == start + unlines(each(all.take(i as int), launcher())),
    {
        write_launch_app(script, &apps[i])?;
        proof {
            assert(all[i as int] == apps@[i as int].deep_view());
            lemma_each_step(all, i as int, launcher());
            let _ = grown(start, each(all.take(i as int), launcher()), launch_lines(all[i as int]));
        }
    }
    assert(all.take(all.len() as int) == all);
    Ok(())
}

fn write_arrangements(script: &mut String, apps: &Vec<App>) -> (r: Result<(), Error>)
    ensures
        r is Ok,
        final(script)@ == old(script)@ + unlines(each(apps.deep_view(), arranger())),
{
    let ghost start = script@;
    let ghost all = apps.deep_view();
    assert(start + Seq::<char>::empty() == start);
    for i in 0..apps.len()
        invariant
            all == apps.deep_view(),
            script@ == start + unlines(each(all.take(i as int), arranger())),
    {
        write_configure_app(script, &apps[i])?;
        proof {
            assert(all[i as int] == apps@[i as int].deep_view());
            lemma_each_step(all, i as int, arranger());
            let _ = grown(
                start,
                each(all.take(i as int), arranger()),
                arrange_lines(all[i as int]),
            );
        }
    }
    assert(all.take(all.len() as int) == all);
    Ok(())
}

/// Adds the job of a text entry, which must be for an app that there is.
pub open spec fn entry_job(apps: Seq<AppView>) -> spec_fn(Seq<char>, TextEntryView) -> Result<
    Seq<char>,
    ErrorView,
> {
    |text: Seq<char>, entry: TextEntryView|
        if !is_named(apps, entry.target) {
            Err(ErrorView::UnknownTarget { name: entry.target })
        } else {
            match entry_check(entry) {
                Err(error) => Err(error),
                Ok(_) => Ok(
                    text + unlines(entry_lines(apps[first_named(apps, entry.target)], entry)),
                ),
            }
        }
}

/// Adds the job of a timer, which must be for an app that there is.
pub open spec fn event_job(apps: Seq<AppView>) -> spec_fn(Seq<char>, TimedEventView) -> Result<
    Seq<char>,
    ErrorView,
> {
    |text: Seq<char>, event: TimedEventView|
        if !is_named(apps, event.target) {
            Err(ErrorView::UnknownTarget { name: event.target })
        } else {
            Ok(text + timer_text(apps[first_named(apps, event.target)], event))
        }
}

pub open spec fn rerun_lines(rerun: Option<DurationView>) -> Seq<Seq<char>> {
    match rerun {
        None => seq![],
        Some(after) => seq!["# Rerun the full script after "@ + after.raw + "."@] + seq![
            "( sleep "@ + decimal_of(after.seconds as nat)
                + "; exec \"$SELF\" ) >/tmp/i3-controller-rerun.log 2>&1 &"@,
        ] + seq!["echo $! > \"$STATE_DIR/rerun.pid\""@],
    }
}

/// The script up to the background jobs: the processes are stopped, then every app is launched,
/// then every app is put in its place.
pub open spec fn launch_part(config: ConfigView) -> Seq<char> {
    PREAMBLE@ + unlines(all_kill_lines(config.kills)) + unlines(each(config.apps, launcher()))
        + unlines(each(config.apps, arranger()))
}

/// The launch script of a config, or the first thing that keeps it from being written.
pub open spec fn script_of(config: ConfigView) -> Result<Seq<char>, ErrorView> {
    match fold(launch_part(config), config.text_entries, entry_job(config.apps)) {
        Err(error) => Err(error),
        Ok(with_entries) => match fold(with_entries, config.refreshes, event_job(config.apps)) {
            Err(error) => Err(error),
            Ok(with_events) => Ok(with_events + unlines(rerun_lines(config.rerun))),
        },
    }
}

fn write_rerun(script: &mut String, rerun: &Option<DurationSpec>)
    ensures
        final(script)@ == old(script)@ + unlines(rerun_lines(rerun.deep_view())),
{
    let ghost start = script@;
    match rerun {
        Some(after) => {
            let title = "# Rerun the full script after ".to_owned().concat(&after.raw).concat(".");
            let job = "( sleep ".to_owned().concat(&decimal(after.seconds)).concat(
                "; exec \"$SELF\" ) >/tmp/i3-controller-rerun.log 2>&1 &",
            );
            put_line(script, &title);
            put_line(script, &job);
            put_line(script, "echo $! > \"$STATE_DIR/rerun.pid\"");
            proof {
                let l = grown(start, seq![title@], seq![job@]);
                let _ = grown(start, l, seq!["echo $! > \"$STATE_DIR/rerun.pid\""@]);
            }
        },
        None => {
            assert(start + Seq::<char>::empty() == start);
        },
    }
}

pub fn generate_script(config: &Config) -> (r: Result<String, Error>)
    ensures
        outcome(r) == script_of(config.deep_view()),
{
    let ghost view = config.deep_view();
    let ghost apps = view.apps;
    let mut script = String::new();
    script.append(PREAMBLE);
    assert(script@ == PREAMBLE@);
    write_kills(&mut script, &config.kills);
    write_launches(&mut script, &config.apps)?;
    write_arrangements(&mut script, &config.apps)?;
    let ghost part = launch_part(view);
    for i in 0..config.text_entries.len()
        invariant
            view == config.deep_view(),
            apps == view.apps,
            part == launch_part(view),
            fold(part, view.text_entries.take(i as int), entry_job(apps)) == Ok::<
                Seq<char>,
                ErrorView,
            >(script@),
    {
        let entry = &config.text_entries[i];
        proof {
            assert(view.text_entries[i as int] == config.text_entries@[i as int].deep_view());
            lemma_fold_step(part, view.text_entries, i as int, entry_job(apps));
            if fold(part, view.text_entries.take(i + 1), entry_job(apps)) is Err {
                lemma_fold_error(part, view.text_entries, i + 1, entry_job(apps));
            }
        }
        let app = match find_app(config, &entry.target) {
            Ok(app) => app,
            Err(error) => {
                return Err(error);
            },
        };
        assert(app.deep_view() == apps[first_named(apps, entry.target@)]);
        match write_text_entry(&mut script, app, entry) {
            Ok(_) => {},
            Err(error) => {
                return Err(error);
            },
        }
    }
    proof {
        lemma_fold_all(part, view.text_entries, entry_job(apps));
    }
    let ghost with_entries = script@;
    for i in 0..config.refreshes.len()
        invariant
            view == config.deep_view(),
            apps == view.apps,
            part == launch_part(view),
            fold(part, view.text_entries, entry_job(apps)) == Ok::<Seq<char>, ErrorView>(
                with_entries,
            ),
            fold(with_entries, view.refreshes.take(i as int), event_job(apps)) == Ok::<
                Seq<char>,
                ErrorView,
            >(script@),
    {
        let event = &config.refreshes[i];
        proof {
            assert(view.refreshes[i as int] == config.refreshes@[i as int].deep_view());
            lemma_fold_step(with_entries, view.refreshes, i as int, event_job(apps));
            if fold(with_entries, view.refreshes.take(i + 1), event_job(apps)) is Err {
                lemma_fold_error(with_entries, view.refreshes, i + 1, event_job(apps));
            }
        }
        let app = match find_app(config, &event.target) {
            Ok(app) => app,
            Err(error) => {
                return Err(error);
            },
        };
        assert(app.deep_view() == apps[first_named(apps, event.target@)]);
        write_timed_event(&mut script, app, event)?;
    }
    proof {
        lemma_fold_all(with_entries, view.refreshes, event_job(apps));
    }
    write_rerun(&mut script, &config.rerun);
    Ok(script)
}

} // verus!
