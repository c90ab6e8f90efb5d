//! Writing a config as text.
use crate::config::{
    App, AppKind, AppView, Config, ConfigView, DurationView, KillRule, KillRuleView, RefreshAction,
    TextCommand, TextCommandView, TextEntry, TextEntryView, TimedEvent, TimedEventView,
};
use crate::error::{outcome, Error, ErrorView};
use crate::number::{decimal, decimal_of};
use crate::text::{each, grown, lemma_each_step, lemma_empty_line, put_line, unlines};
use vstd::prelude::*;

verus! {

/// The line of a pair; a pair without a value has none.
pub open spec fn pair_lines(key: Seq<char>, value: Seq<char>) -> Seq<Seq<char>> {
    if value.len() == 0 {
        seq![]
    } else {
        seq![key.push('=') + value]
    }
}

pub fn write_pair(output: &mut String, key: &str, value: &str) -> (r: Result<(), Error>)
    ensures
        r is Ok,
        final(output)@ == old(output)@ + unlines(pair_lines(key@, value@)),
{
    if !value.is_empty() {
        let mut line = key.to_owned();
        line.push('=');
        line.append(value);
        put_line(output, &line);
    } else {
        assert(old(output)@ + Seq::<char>::empty() == old(output)@);
    }
    Ok(())
}

pub open spec fn command_text(command: TextCommandView) -> Seq<char> {
    match command {
        TextCommandView::Type(text) => "type:"@ + text,
        TextCommandView::TypeEnv(name) => "type_env:"@ + name,
        TextCommandView::Key(key) => "key:"@ + key,
        TextCommandView::Wait(seconds) => "wait:"@ + decimal_of(seconds as nat),
    }
}

/// The commands with a semicolon and a space between each two.
pub open spec fn commands_text(commands: Seq<TextCommandView>) -> Seq<char>
    decreases commands.len(),
{
    if commands.len() == 0 {
        seq![]
    } else if commands.len() == 1 {
        command_text(commands[0])
    } else {
        commands_text(commands.drop_last()) + "; "@ + command_text(commands.last())
    }
}

fn text_command_to_string(command: &TextCommand) -> (s: String)
    ensures
        s@ == command_text(command.deep_view()),
{
    match command {
        TextCommand::Type(text) => "type:".to_owned().concat(text),
        TextCommand::TypeEnv(name) => "type_env:".to_owned().concat(name),
        TextCommand::Key(key) => "key:".to_owned().concat(key),
        TextCommand::Wait(seconds) => "wait:".to_owned().concat(&decimal(*seconds)),
    }
}

pub fn text_commands_to_string(commands: &[TextCommand]) -> (s: String)
    ensures
        s@ == commands_text(commands.deep_view()),
{
    let ghost all = commands.deep_view();
    let mut s = String::new();
    for i in 0..commands.len()
        invariant
            all == commands.deep_view(),
            s@ == commands_text(all.take(i as int)),
    {
        if i > 0 {
            s.append("; ");
        }
        s.append(&text_command_to_string(&commands[i]));
        proof {
            assert(all[i as int] == commands@[i as int].deep_view());
            assert(all.take(i + 1).drop_last() == all.take(i as int));
            assert(all.take(i + 1).last() == all[i as int]);
            if i == 0 {
                assert(Seq::<char>::empty() + command_text(all[0]) == command_text(all[0]));
            }
        }
    }
    assert(all.take(all.len() as int) == all);
    s
}

pub open spec fn kill_lines(kill: KillRuleView) -> Seq<Seq<char>> {
    seq!["[kill]"@] + pair_lines("name"@, kill.name) + pair_lines("pattern"@, kill.pattern)
        + pair_lines("signal"@, kill.signal) + seq![seq![]]
}

fn write_kill(output: &mut String, kill: &KillRule) -> (r: Result<(), Error>)
    ensures
        r is Ok,
        final(output)@ == old(output)@ + unlines(kill_lines(kill.deep_view())),
{
    let ghost start = output@;
    let ghost mut l = seq!["[kill]"@];
    put_line(output, "[kill]");
    write_pair(output, "name", &kill.name)?;
    proof {
        l = grown(start, l, pair_lines("name"@, kill.name@));
    }
    write_pair(output, "pattern", &kill.pattern)?;
    proof {
        l = grown(start, l, pair_lines("pattern"@, kill.pattern@));
    }
    write_pair(output, "signal", &kill.signal)?;
    proof {
        l = grown(start, l, pair_lines("signal"@, kill.signal@));
    }
    put_line(output, "");
    proof {
        lemma_empty_line();
        l = grown(start, l, seq![seq![]]);
    }
    Ok(())
}

pub open spec fn kind_text(kind: AppKind) -> Seq<char> {
    match kind {
        AppKind::Web => "web"@,
        AppKind::Native => "native"@,
    }
}

/// The pairs that only an app of this kind has.
pub open spec fn kind_lines(app: AppView) -> Seq<Seq<char>> {
    match app.kind {
        AppKind::Web => pair_lines("url"@, app.url) + pair_lines("browser"@, app.browser)
            + pair_lines("browser_args"@, app.browser_args) + pair_lines("profile"@, app.profile),
        AppKind::Native => pair_lines("command"@, app.command) + pair_lines("args"@, app.args),
    }
}

pub open spec fn app_lines(app: AppView) -> Seq<Seq<char>> {
    seq!["[app]"@] + pair_lines("name"@, app.name) + pair_lines("kind"@, kind_text(app.kind))
        + kind_lines(app) + pair_lines("workspace"@, app.workspace) + pair_lines(
        "match"@,
        app.match_criteria,
    ) + pair_lines("layout"@, app.layout) + pair_lines(
        "startup_delay"@,
        decimal_of(app.startup_delay as nat),
    ) + seq![seq![]]
}

fn write_kind_pairs(output: &mut String, app: &App) -> (r: Result<(), Error>)
    ensures
        r is Ok,
        final(output)@ == old(output)@ + unlines(kind_lines(app.deep_view())),
{
    let ghost start = output@;
    let ghost mut l: Seq<Seq<char>> = seq![];
    match app.kind {
        AppKind::Web => {
            write_pair(output, "url", &app.url)?;
            proof {
                l = pair_lines("url"@, app.url@);
            }
            write_pair(output, "browser", &app.browser)?;
            proof {
                l = grown(start, l, pair_lines("browser"@, app.browser@));
            }
            write_pair(output, "browser_args", &app.browser_args)?;
            proof {
                l = grown(start, l, pair_lines("browser_args"@, app.browser_args@));
            }
            write_pair(output, "profile", &app.profile)?;
            proof {
                l = grown(start, l, pair_lines("profile"@, app.profile@));
            }
        },
        AppKind::Native => {
            write_pair(output, "command", &app.command)?;
            proof {
                l = pair_lines("command"@, app.command@);
            }
            write_pair(output, "args", &app.args)?;
            proof {
                l = grown(start, l, pair_lines("args"@, app.args@));
            }
        },
    }
    Ok(())
}

fn write_app(output: &mut String, app: &App) -> (r: Result<(), Error>)
    ensures
        r is Ok,
        final(output)@ == old(output)@ + unlines(app_lines(app.deep_view())),
{
    let ghost start = output@;
    let ghost mut l = seq!["[app]"@];
    let ghost view = app.deep_view();
    put_line(output, "[app]");
    write_pair(output, "name", &app.name)?;
    proof {
        l = grown(start, l, pair_lines("name"@, view.name));
    }
    write_pair(
        output,
        "kind",
        match app.kind {
            AppKind::Web => "web",
            AppKind::Native => "native",
        },
    )?;
    proof {
        l = grown(start, l, pair_lines("kind"@, kind_text(view.kind)));
    }
    write_kind_pairs(output, app)?;
    proof {
        l = grown(start, l, kind_lines(view));
    }
    write_pair(output, "workspace", &app.workspace)?;
    proof {
        l = grown(start, l, pair_lines("workspace"@, view.workspace));
    }
    write_pair(output, "match", &app.match_criteria)?;
    proof {
        l = grown(start, l, pair_lines("match"@, view.match_criteria));
    }
    write_pair(output, "layout", &app.layout)?;
    proof {
        l = grown(start, l, pair_lines("layout"@, view.layout));
    }
    write_pair(output, "startup_delay", &decimal(app.startup_delay))?;
    proof {
        l = grown(start, l, pair_lines("startup_delay"@, decimal_of(view.startup_delay as nat)));
    }
    put_line(output, "");
    proof {
        lemma_empty_line();
        l = grown(start, l, seq![seq![]]);
    }
    Ok(())
}

pub open spec fn entry_lines(entry: TextEntryView) -> Seq<Seq<char>> {
    seq!["[text]"@] + pair_lines("target"@, entry.target) + pair_lines(
        "delay"@,
        decimal_of(entry.delay as nat),
    ) + pair_lines("commands"@, commands_text(entry.commands)) + seq![seq![]]
}

fn write_entry(output: &mut String, entry: &TextEntry) -> (r: Result<(), Error>)
    ensures
        r is Ok,
        final(output)@ == old(output)@ + unlines(entry_lines(entry.deep_view())),
{
    let ghost start = output@;
    let ghost mut l = seq!["[text]"@];
    let ghost view = entry.deep_view();
    put_line(output, "[text]");
    write_pair(output, "target", &entry.target)?;
    proof {
        l = grown(start, l, pair_lines("target"@, view.target));
    }
    write_pair(output, "delay", &decimal(entry.delay))?;
    proof {
        l = grown(start, l, pair_lines("delay"@, decimal_of(view.delay as nat)));
    }
    write_pair(output, "commands", &text_commands_to_string(&entry.commands))?;
    proof {
        l = grown(start, l, pair_lines("commands"@, commands_text(view.commands)));
    }
    put_line(output, "");
    proof {
        lemma_empty_line();
        l = grown(start, l, seq![seq![]]);
    }
    Ok(())
}

pub open spec fn action_text(action: RefreshAction) -> Seq<char> {
    match action {
        RefreshAction::Reload => "reload"@,
        RefreshAction::Relaunch => "relaunch"@,
    }
}

pub open spec fn bool_text(b: bool) -> Seq<char> {
    if b {
        "true"@
    } else {
        "false"@
    }
}

pub open spec fn event_lines(event: TimedEventView) -> Seq<Seq<char>> {
    seq!["[refresh]"@] + pair_lines("target"@, event.target) + pair_lines(
        "after"@,
        event.after.raw,
    ) + pair_lines("action"@, action_text(event.action)) + pair_lines(
        "repeat"@,
        bool_text(event.repeat),
    ) + seq![seq![]]
}

/// The word for a timer's action.
pub fn action_word(action: RefreshAction) -> (s: &'static str)
    ensures
        s@ == action_text(action),
{
    match action {
        RefreshAction::Reload => "reload",
        RefreshAction::Relaunch => "relaunch",
    }
}

fn write_event(output: &mut String, event: &TimedEvent) -> (r: Result<(), Error>)
    ensures
        r is Ok,
        final(output)@ == old(output)@ + unlines(event_lines(event.deep_view())),
{
    let ghost start = output@;
    let ghost mut l = seq!["[refresh]"@];
    let ghost view = event.deep_view();
    put_line(output, "[refresh]");
    write_pair(output, "target", &event.target)?;
    proof {
        l = grown(start, l, pair_lines("target"@, view.target));
    }
    write_pair(output, "after", &event.after.raw)?;
    proof {
        l = grown(start, l, pair_lines("after"@, view.after.raw));
    }
    write_pair(output, "action", action_word(event.action))?;
    proof {
        l = grown(start, l, pair_lines("action"@, action_text(view.action)));
    }
    write_pair(
        output,
        "repeat",
        if event.repeat {
            "true"
        } else {
            "false"
        },
    )?;
    proof {
        l = grown(start, l, pair_lines("repeat"@, bool_text(view.repeat)));
    }
    put_line(output, "");
    proof {
        lemma_empty_line();
        l = grown(start, l, seq![seq![]]);
    }
    Ok(())
}

pub open spec fn rerun_lines(rerun: Option<DurationView>) -> Seq<Seq<char>> {
    match rerun {
        None => seq![],
        Some(after) => seq!["[rerun]"@] + pair_lines("after"@, after.raw),
    }
}

pub open spec fn title_lines() -> Seq<Seq<char>> {
    seq!["# i3-controller config"@, "# Created by `i3-controller wizard`."@, seq![]]
}

pub open spec fn kill_writer() -> spec_fn(KillRuleView) -> Seq<Seq<char>> {
    |kill: KillRuleView| kill_lines(kill)
}

pub open spec fn app_writer() -> spec_fn(AppView) -> Seq<Seq<char>> {
    |app: AppView| app_lines(app)
}

pub open spec fn entry_writer() -> spec_fn(TextEntryView) -> Seq<Seq<char>> {
    |entry: TextEntryView| entry_lines(entry)
}

pub open spec fn event_writer() -> spec_fn(TimedEventView) -> Seq<Seq<char>> {
    |event: TimedEventView| event_lines(event)
}

fn write_kills(output: &mut String, kills: &Vec<KillRule>) -> (r: Result<(), Error>)
    ensures
        r is Ok,
        final(output)@ == old(output)@ + unlines(each(kills.deep_view(), kill_writer())),
{
    let ghost start = output@;
    let ghost all = kills.deep_view();
    assert(start + Seq::<char>::empty() == start);
    for i in 0..kills.len()
        invariant
            all == kills.deep_view(),
            output@ == start + unlines(each(all.take(i as int), kill_writer())),
    {
        write_kill(output, &kills[i])?;
        proof {
            assert(all[i as int] == kills@[i as int].deep_view());
            lemma_each_step(all, i as int, kill_writer());
            let _ = grown(start, each(all.take(i as int), kill_writer()), kill_lines(all[i as int]));
        }
    }
    assert(all.take(all.len() as int) == all);
    Ok(())
}

fn write_apps(output: &mut String, apps: &Vec<App>) -> (r: Result<(), Error>)
    ensures
        r is Ok,
        final(output)@ == old(output)@ + unlines(each(apps.deep_view(), app_writer())),
{
    let ghost start = output@;
    let ghost all = apps.deep_view();
    assert(start + Seq::<char>::empty() == start);
    for i in 0..apps.len()
        invariant
            all == apps.deep_view(),
            output@ == start + unlines(each(all.take(i as int), app_writer())),
    {
        write_app(output, &apps[i])?;
        proof {
            assert(all[i as int] == apps@[i as int].deep_view());
            lemma_each_step(all, i as int, app_writer());
            let _ = grown(start, each(all.take(i as int), app_writer()), app_lines(all[i as int]));
        }
    }
    assert(all.take(all.len() as int) == all);
    Ok(())
}

fn write_entries(output: &mut String, entries: &Vec<TextEntry>) -> (r: Result<(), Error>)
    ensures
        r is Ok,
        final(output)@ == old(output)@ + unlines(each(entries.deep_view(), entry_writer())),
{
    let ghost start = output@;
    let ghost all = entries.deep_view();
    assert(start + Seq::<char>::empty() == start);
    for i in 0..entries.len()
        invariant
            all == entries.deep_view(),
            output@ == start + unlines(each(all.take(i as int), entry_writer())),
    {
        write_entry(output, &entries[i])?;
        proof {
            assert(all[i as int] == entries@[i as int].deep_view());
            lemma_each_step(all, i as int, entry_writer());
            let _ = grown(start, each(all.take(i as int), entry_writer()), entry_lines(all[i as int]));
        }
    }
    assert(all.take(all.len() as int) == all);
    Ok(())
}

fn write_events(output: &mut String, events: &Vec<TimedEvent>) -> (r: Result<(), Error>)
    ensures
        r is Ok,
        final(output)@ == old(output)@ + unlines(each(events.deep_view(), event_writer())),
{
    let ghost start = output@;
    let ghost all = events.deep_view();
    assert(start + Seq::<char>::empty() == start);
    for i in 0..events.len()
        invariant
            all == events.deep_view(),
            output@ == start + unlines(each(all.take(i as int), event_writer())),
    {
        write_event(output, &events[i])?;
        proof {
            assert(all[i as int] == events@[i as int].deep_view());
            lemma_each_step(all, i as int, event_writer());
            let _ = grown(start, each(all.take(i as int), event_writer()), event_lines(all[i as int]));
        }
    }
    assert(all.take(all.len() as int) == all);
    Ok(())
}

/// The lines of a config's file.
pub open spec fn config_lines(config: ConfigView) -> Seq<Seq<char>> {
    title_lines() + each(config.kills, kill_writer()) + each(config.apps, app_writer()) + each(
        config.text_entries,
        entry_writer(),
    ) + each(config.refreshes, event_writer()) + rerun_lines(config.rerun)
}

/// The text of a config's file.
pub open spec fn config_text(config: ConfigView) -> Seq<char> {
    unlines(config_lines(config))
}

pub fn config_to_string(config: &Config) -> (r: Result<String, Error>)
    ensures
        outcome(r) == Ok::<Seq<char>, ErrorView>(config_text(config.deep_view())),
{
    let mut output = String::new();
    let ghost start = output@;
    let ghost mut l = seq!["# i3-controller config"@];
    let ghost view = config.deep_view();
    put_line(&mut output, "# i3-controller config");
    put_line(&mut output, "# Created by `i3-controller wizard`.");
    proof {
        l = grown(start, l, seq!["# Created by `i3-controller wizard`."@]);
    }
    put_line(&mut output, "");
    proof {
        lemma_empty_line();
        l = grown(start, l, seq![seq![]]);
        assert(l == title_lines());
    }
    write_kills(&mut output, &config.kills)?;
    proof {
        l = grown(start, l, each(view.kills, kill_writer()));
    }
    write_apps(&mut output, &config.apps)?;
    proof {
        l = grown(start, l, each(view.apps, app_writer()));
    }
    write_entries(&mut output, &config.text_entries)?;
    proof {
        l = grown(start, l, each(view.text_entries, entry_writer()));
    }
    write_events(&mut output, &config.refreshes)?;
    proof {
        l = grown(start, l, each(view.refreshes, event_writer()));
    }
    match &config.rerun {
        Some(after) => {
            put_line(&mut output, "[rerun]");
            write_pair(&mut output, "after", &after.raw)?;
            proof {
                l = grown(start, l, seq!["[rerun]"@]);
                l = grown(start, l, pair_lines("after"@, after.raw@));
                assert(l == config_lines(view));
            }
        },
        None => {
            assert(l == config_lines(view));
        },
    }
    assert(start + unlines(l) == unlines(l));
    Ok(output)
}

} // verus!
