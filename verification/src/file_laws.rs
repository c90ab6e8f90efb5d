//! What the file of a config holds, block by block.
use crate::config::{
    no_app, no_config, no_kill, no_text_entry, no_timed_event, AppKind, AppView, ConfigView,
    DurationView, KillRuleView, RefreshAction, TextCommandView, TextEntryView, TimedEventView,
};
use crate::format::{
    app_lines, commands_text, config_lines, config_text, entry_lines, event_lines, kill_lines,
    rerun_lines,
};
use crate::number::{decimal_of, lemma_decimal_digits};
use crate::script_lines::where_true;
use crate::text::{each, lemma_unlines_concat, unlines};
use vstd::prelude::*;

verus! {

/// A value's line in a file; a value that is empty has none.
pub open spec fn line_for(key: Seq<char>, value: Seq<char>) -> Seq<Seq<char>> {
    where_true(value.len() > 0, seq![key + "="@ + value])
}

/// An app's block: its name and its kind, what is asked of an app of that kind and nothing of the
/// other, and its place.
pub proof fn law_app_in_a_file(app: AppView)
    ensures
        ({
            let web = app.kind == AppKind::Web;
            app_lines(app) == seq!["[app]"@] + line_for("name"@, app.name) + seq![
                if web {
                    "kind=web"@
                } else {
                    "kind=native"@
                },
            ] + where_true(web, line_for("url"@, app.url)) + where_true(
                web,
                line_for("browser"@, app.browser),
            ) + where_true(web, line_for("browser_args"@, app.browser_args)) + where_true(
                web,
                line_for("profile"@, app.profile),
            ) + where_true(!web, line_for("command"@, app.command)) + where_true(
                !web,
                line_for("args"@, app.args),
            ) + line_for("workspace"@, app.workspace) + line_for("match"@, app.match_criteria)
                + line_for("layout"@, app.layout) + seq![
                "startup_delay="@ + decimal_of(app.startup_delay as nat),
            ] + seq![seq![]]
        }),
{
    reveal_strlit("=");
    reveal_strlit("kind");
    reveal_strlit("web");
    reveal_strlit("native");
    reveal_strlit("kind=web");
    reveal_strlit("kind=native");
    reveal_strlit("startup_delay");
    reveal_strlit("startup_delay=");
    assert("kind"@ + "="@ + "web"@ == "kind=web"@);
    assert("kind"@ + "="@ + "native"@ == "kind=native"@);
    assert("startup_delay"@ + "="@ == "startup_delay="@);
    lemma_decimal_digits(app.startup_delay as nat);
    lemma_pairs();
    let web = app.kind == AppKind::Web;
    let front = seq!["[app]"@] + line_for("name"@, app.name) + seq![
        if web {
            "kind=web"@
        } else {
            "kind=native"@
        },
    ];
    let none = Seq::<Seq<char>>::empty();
    let u = line_for("url"@, app.url);
    let b = line_for("browser"@, app.browser);
    let f = line_for("browser_args"@, app.browser_args);
    let p = line_for("profile"@, app.profile);
    let c = line_for("command"@, app.command);
    let a = line_for("args"@, app.args);
    if web {
        assert(front + u + b + f + p + none + none == front + (u + b + f + p));
    } else {
        assert(front + none + none + none + none + c + a == front + (c + a));
    }
}

proof fn lemma_pairs()
    ensures
        forall|key: Seq<char>, value: Seq<char>| #[trigger]
            crate::format::pair_lines(key, value) == line_for(key, value),
{
    reveal_strlit("=");
    assert("="@ == seq!['=']);
    assert forall|key: Seq<char>, value: Seq<char>| #[trigger]
        crate::format::pair_lines(key, value) == line_for(key, value) by {
        assert(key.push('=') + value == key + "="@ + value);
    }
}

/// The blocks of a kill rule, a text entry, a timer and a rerun.
pub proof fn law_blocks_in_a_file(
    kill: KillRuleView,
    entry: TextEntryView,
    event: TimedEventView,
    after: DurationView,
)
    ensures
        kill_lines(kill) == seq!["[kill]"@] + line_for("name"@, kill.name) + line_for(
            "pattern"@,
            kill.pattern,
        ) + line_for("signal"@, kill.signal) + seq![seq![]],
        entry_lines(entry) == seq!["[text]"@] + line_for("target"@, entry.target) + line_for(
            "delay"@,
            decimal_of(entry.delay as nat),
        ) + line_for("commands"@, commands_text(entry.commands)) + seq![seq![]],
        event_lines(event) == seq!["[refresh]"@] + line_for("target"@, event.target) + line_for(
            "after"@,
            event.after.raw,
        ) + line_for(
            "action"@,
            match event.action {
                RefreshAction::Reload => "reload"@,
                RefreshAction::Relaunch => "relaunch"@,
            },
        ) + line_for(
            "repeat"@,
            if event.repeat {
                "true"@
            } else {
                "false"@
            },
        ) + seq![seq![]],
        rerun_lines(Some(after)) == seq!["[rerun]"@] + line_for("after"@, after.raw),
{
    lemma_pairs();
}

/// Text commands are written with a semicolon and a space between each two, each as its kind, a
/// colon, and its value.
pub proof fn law_commands_in_a_file(
    commands: Seq<TextCommandView>,
    text: Seq<char>,
    seconds: u64,
    last: TextCommandView,
)
    ensures
        commands_text(Seq::<TextCommandView>::empty()).len() == 0,
        commands_text(seq![TextCommandView::Type(text)]) == "type:"@ + text,
        commands_text(seq![TextCommandView::TypeEnv(text)]) == "type_env:"@ + text,
        commands_text(seq![TextCommandView::Key(text)]) == "key:"@ + text,
        commands_text(seq![TextCommandView::Wait(seconds)]) == "wait:"@ + decimal_of(
            seconds as nat,
        ),
        commands.len() > 0 ==> commands_text(commands.push(last)) == commands_text(commands)
            + "; "@ + commands_text(seq![last]),
{
    assert(commands.push(last).drop_last() == commands);
}

/// A file begins with two lines of comment and a blank line.
pub proof fn law_file_begins_with_its_title()
    ensures
        config_lines(no_config()) == seq![
            "# i3-controller config"@,
            "# Created by `i3-controller wizard`."@,
            seq![],
        ],
{
}

/// Blocks stand in the order kill rules, apps, text entries, timers, rerun, and within each kind in
/// the order of the config: one more of a kind, with none of a later kind, puts its lines at the end
/// of the file.
pub proof fn law_one_block_more(
    config: ConfigView,
    kill: KillRuleView,
    app: AppView,
    entry: TextEntryView,
    event: TimedEventView,
    after: DurationView,
)
    requires
        config.rerun is None,
    ensures
        config_text(ConfigView { rerun: Some(after), ..config }) == config_text(config) + unlines(
            rerun_lines(Some(after)),
        ),
        config_text(ConfigView { refreshes: config.refreshes.push(event), ..config })
            == config_text(config) + unlines(event_lines(event)),
        config.refreshes.len() == 0 ==> config_text(
            ConfigView { text_entries: config.text_entries.push(entry), ..config },
        ) == config_text(config) + unlines(entry_lines(entry)),
        config.refreshes.len() == 0 && config.text_entries.len() == 0 ==> config_text(
            ConfigView { apps: config.apps.push(app), ..config },
        ) == config_text(config) + unlines(app_lines(app)),
        config.refreshes.len() == 0 && config.text_entries.len() == 0 && config.apps.len() == 0
            ==> config_text(ConfigView { kills: config.kills.push(kill), ..config })
            == config_text(config) + unlines(kill_lines(kill)),
{
    let ls = config_lines(config);
    let none = Seq::<Seq<char>>::empty();
    assert(rerun_lines(None) == none);
    let with_rerun = ConfigView { rerun: Some(after), ..config };
    assert(config_lines(with_rerun) == ls + rerun_lines(Some(after)));
    lemma_unlines_concat(ls, rerun_lines(Some(after)));
    let with_event = ConfigView { refreshes: config.refreshes.push(event), ..config };
    assert(with_event.refreshes.drop_last() == config.refreshes);
    assert(config_lines(with_event) == ls + event_lines(event));
    lemma_unlines_concat(ls, event_lines(event));
    if config.refreshes.len() == 0 {
        let more = ConfigView { text_entries: config.text_entries.push(entry), ..config };
        assert(more.text_entries.drop_last() == config.text_entries);
        assert(config_lines(more) == ls + entry_lines(entry));
        lemma_unlines_concat(ls, entry_lines(entry));
        if config.text_entries.len() == 0 {
            let more = ConfigView { apps: config.apps.push(app), ..config };
            assert(more.apps.drop_last() == config.apps);
            assert(config_lines(more) == ls + app_lines(app));
            lemma_unlines_concat(ls, app_lines(app));
            if config.apps.len() == 0 {
                let more = ConfigView { kills: config.kills.push(kill), ..config };
                assert(more.kills.drop_last() == config.kills);
                assert(config_lines(more) == ls + kill_lines(kill));
                lemma_unlines_concat(ls, kill_lines(kill));
            }
        }
    }
}

/// Of what is not set, texts are empty and numbers zero; an app is native, and a timer reloads, once.
pub proof fn law_nothing_is_set()
    ensures
        no_app() == (AppView {
            name: seq![],
            kind: AppKind::Native,
            command: seq![],
            args: seq![],
            url: seq![],
            browser: seq![],
            browser_args: seq![],
            profile: seq![],
            workspace: seq![],
            match_criteria: seq![],
            layout: seq![],
            startup_delay: 0,
        }),
        no_kill() == (KillRuleView { name: seq![], pattern: seq![], signal: seq![] }),
        no_text_entry() == (TextEntryView { target: seq![], delay: 0, commands: seq![] }),
        no_timed_event() == (TimedEventView {
            target: seq![],
            after: DurationView { raw: seq![], seconds: 0 },
            action: RefreshAction::Reload,
            repeat: false,
        }),
{
}

} // verus!
