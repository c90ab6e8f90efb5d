//! Where the answers that a wizard is given end up.
use crate::answers::{detail_taken, flag_taken, number_taken, turn, url_list};
use crate::config::{
    no_app, no_kill, no_timed_event, AppKind, AppView, ConfigView, DurationView, KillRuleView,
    RefreshAction, TextCommandView, TextEntryView, TimedEventView,
};
use crate::devtools::picked_url;
use crate::dialogue::law_questions_take_lines;
use crate::format::config_text;
use crate::number::{decimal_of, number_of};
use crate::parse::config_of;
use crate::preview::{law_preview_is_generated, previewed};
use crate::prompt::{reading, AnswerView, QuestionView};
use crate::question_laws::{
    given, is_no, is_yes, law_choice_answers, law_flag_answers, law_number_answers,
    law_text_answers,
};
use crate::script::script_of;
use crate::shell::{file_safe_text, law_variable_names, names_a_variable, variable_check};
use crate::text::{lowered, replaced, trimmed};
use crate::validate::config_check;
use crate::values::{duration_of, Stop};
use crate::wizard::{
    asked, kinds, requested, started, text_steps, timed_actions, InputView, ReplyView, RequestView,
    Step, WizardView,
};
use vstd::prelude::*;

verus! {

/// What a wizard is after a line.
#[verifier::opaque]
pub open spec fn told(w: WizardView, line: Seq<char>) -> WizardView {
    turn(w, InputView::Line(line)).0
}

/// A text is asked for, and nothing else is waited for.
#[verifier::opaque]
pub open spec fn asks(w: WizardView, label: Seq<char>, offered: Seq<char>) -> bool {
    requested(w) == RequestView::Ask(QuestionView::Text { label, default: offered })
}

#[verifier::opaque]
pub open spec fn asks_for(w: WizardView, label: Seq<char>, offered: Seq<char>) -> bool {
    requested(w) == RequestView::Ask(QuestionView::Required { label, default: offered })
}

#[verifier::opaque]
pub open spec fn asks_number(w: WizardView, label: Seq<char>, offered: u64) -> bool {
    requested(w) == RequestView::Ask(QuestionView::Number { label, default: offered })
}

#[verifier::opaque]
pub open spec fn asks_whether(w: WizardView, label: Seq<char>, offered: bool) -> bool {
    requested(w) == RequestView::Ask(QuestionView::Flag { label, default: offered })
}

#[verifier::opaque]
pub open spec fn asks_which(
    w: WizardView,
    label: Seq<char>,
    choices: Seq<Seq<char>>,
    offered: Seq<char>,
) -> bool {
    requested(w) == RequestView::Ask(QuestionView::Choice { label, choices, default: offered })
}

/// The number that a line gives: what it holds, or what is offered if it holds nothing.
pub open spec fn gives_number(line: Seq<char>, offered: u64, number: u64) -> bool {
    if trimmed(line).len() == 0 {
        number == offered
    } else {
        number_of(trimmed(line)) == Ok::<u64, crate::number::NumberError>(number)
    }
}

/// The answer to yes or no that a line gives.
pub open spec fn gives_flag(line: Seq<char>, offered: bool, yes: bool) -> bool {
    ||| is_yes(trimmed(line)) && yes
    ||| is_no(trimmed(line)) && !yes
    ||| (trimmed(line).len() == 0 || lowered(trimmed(line)) == "y/n"@) && yes == offered
}

/// Two wizards that are the same but for the step, the app that is being asked for, and the pages.
pub open spec fn differ_in_app_only(a: WizardView, b: WizardView) -> bool {
    &&& a.path == b.path
    &&& a.config == b.config
    &&& a.kill == b.kill
    &&& a.commands == b.commands
    &&& a.target == b.target
    &&& a.event == b.event
    &&& a.output == b.output
}

// One answer.

proof fn lemma_browser(w: WizardView, line: Seq<char>)
    requires
        w.step == Step::Browser,
    ensures
        asks(w, "Browser command"@, "chromium-browser"@),
        ({
            let value = given(line, "chromium-browser"@);
            told(w, line) == (WizardView { step: Step::BrowserArgs, app: AppView { browser: value, ..w.app }, ..w })
        }),
{
    reveal(told);
    reveal(asks);
    law_text_answers(line, "Browser command"@, "chromium-browser"@);
}

proof fn lemma_browser_args(w: WizardView, line: Seq<char>)
    requires
        w.step == Step::BrowserArgs,
    ensures
        asks(w, "Extra browser flags"@, seq![]),
        ({
            let value = given(line, seq![]);
            told(w, line) == (WizardView { step: Step::FindUrls, app: AppView { browser_args: value, ..w.app }, ..w })
        }),
{
    reveal(told);
    reveal(asks);
    law_text_answers(line, "Extra browser flags"@, seq![]);
}

proof fn lemma_url_pick(w: WizardView, line: Seq<char>)
    requires
        w.step == Step::UrlPick,
    ensures
        asks(w, "Pick a URL number or enter a URL"@, "1"@),
        ({
            let value = given(line, "1"@);
            told(w, line) == (WizardView { step: Step::Url, url: picked_url(w.urls, value), ..w })
        }),
{
    reveal(told);
    reveal(asks);
    law_text_answers(line, "Pick a URL number or enter a URL"@, "1"@);
}

proof fn lemma_profile(w: WizardView, line: Seq<char>)
    requires
        w.step == Step::Profile,
    ensures
        asks(w, "Dedicated browser profile path"@, "/tmp/i3-controller-"@ + file_safe_text(w.app.name)),
        ({
            let value = given(line, "/tmp/i3-controller-"@ + file_safe_text(w.app.name));
            told(w, line) == (WizardView { step: Step::Workspace, app: AppView { profile: value, ..w.app }, ..w })
        }),
{
    reveal(told);
    reveal(asks);
    law_text_answers(line, "Dedicated browser profile path"@, "/tmp/i3-controller-"@ + file_safe_text(w.app.name));
}

proof fn lemma_args(w: WizardView, line: Seq<char>)
    requires
        w.step == Step::Args,
    ensures
        asks(w, "Arguments"@, seq![]),
        ({
            let value = given(line, seq![]);
            told(w, line) == (WizardView { step: Step::Workspace, app: AppView { args: value, ..w.app }, ..w })
        }),
{
    reveal(told);
    reveal(asks);
    law_text_answers(line, "Arguments"@, seq![]);
}

proof fn lemma_workspace(w: WizardView, line: Seq<char>)
    requires
        w.step == Step::Workspace,
    ensures
        asks(w, "Workspace"@, "i3-controller-"@ + file_safe_text(w.app.name)),
        ({
            let value = given(line, "i3-controller-"@ + file_safe_text(w.app.name));
            told(w, line) == (WizardView { step: Step::Match, app: AppView { workspace: value, ..w.app }, ..w })
        }),
{
    reveal(told);
    reveal(asks);
    law_text_answers(line, "Workspace"@, "i3-controller-"@ + file_safe_text(w.app.name));
}

proof fn lemma_layout(w: WizardView, line: Seq<char>)
    requires
        w.step == Step::Layout,
    ensures
        asks(w, "Layout commands separated by semicolons"@, "move position 0 0; resize set 1280 720"@),
        ({
            let value = given(line, "move position 0 0; resize set 1280 720"@);
            told(w, line) == (WizardView { step: Step::StartupDelay, app: AppView { layout: value, ..w.app }, ..w })
        }),
{
    reveal(told);
    reveal(asks);
    law_text_answers(line, "Layout commands separated by semicolons"@, "move position 0 0; resize set 1280 720"@);
}

proof fn lemma_kill_name(w: WizardView, line: Seq<char>)
    requires
        w.step == Step::KillName,
    ensures
        asks(w, "Friendly name"@, w.kill.pattern),
        ({
            let value = given(line, w.kill.pattern);
            told(w, line) == (WizardView { step: Step::KillSignal, kill: KillRuleView { name: value, ..w.kill }, ..w })
        }),
{
    reveal(told);
    reveal(asks);
    law_text_answers(line, "Friendly name"@, w.kill.pattern);
}

proof fn lemma_kill_signal(w: WizardView, line: Seq<char>)
    requires
        w.step == Step::KillSignal,
    ensures
        asks(w, "Signal"@, "TERM"@),
        ({
            let value = given(line, "TERM"@);
            told(w, line) == (WizardView { step: Step::MoreKills, kill: no_kill(), config: ConfigView { kills: w.config.kills.push(KillRuleView { signal: value, ..w.kill }), ..w.config }, ..w })
        }),
{
    reveal(told);
    reveal(asks);
    law_text_answers(line, "Signal"@, "TERM"@);
}

proof fn lemma_text_type(w: WizardView, line: Seq<char>)
    requires
        w.step == Step::TextType,
    ensures
        asks(w, "Text to type"@, seq![]),
        ({
            let value = given(line, seq![]);
            told(w, line) == (WizardView { step: Step::TextStep, commands: w.commands.push(TextCommandView::Type(value)), ..w })
        }),
{
    reveal(told);
    reveal(asks);
    law_text_answers(line, "Text to type"@, seq![]);
}

proof fn lemma_text_key(w: WizardView, line: Seq<char>)
    requires
        w.step == Step::TextKey,
    ensures
        asks(w, "xdotool key name"@, "Tab"@),
        ({
            let value = given(line, "Tab"@);
            told(w, line) == (WizardView { step: Step::TextStep, commands: w.commands.push(TextCommandView::Key(value)), ..w })
        }),
{
    reveal(told);
    reveal(asks);
    law_text_answers(line, "xdotool key name"@, "Tab"@);
}

proof fn lemma_kill_pattern(w: WizardView, line: Seq<char>)
    requires
        w.step == Step::KillPattern,
    ensures
        asks(w, "Process pattern to stop"@, seq![]),
        told(w, line) == if trimmed(line).len() == 0 {
            WizardView { step: Step::AppName, ..w }
        } else {
            WizardView {
                step: Step::KillName,
                kill: KillRuleView { pattern: trimmed(line), ..no_kill() },
                ..w
            }
        },
{
    reveal(told);
    reveal(asks);
    law_text_answers(line, "Process pattern to stop"@, seq![]);
}

proof fn lemma_url(w: WizardView, line: Seq<char>)
    requires
        w.step == Step::Url,
        trimmed(line).len() > 0 || trimmed(w.url).len() > 0,
    ensures
        asks_for(w, "Web app URL"@, w.url),
        told(w, line) == (WizardView {
            step: Step::Profile,
            app: AppView { url: given(line, w.url), ..w.app },
            ..w
        }),
{
    reveal(told);
    reveal(asks_for);
    law_text_answers(line, "Web app URL"@, w.url);
}

proof fn lemma_command(w: WizardView, line: Seq<char>)
    requires
        w.step == Step::Command,
        trimmed(line).len() > 0,
    ensures
        asks_for(w, "Command"@, seq![]),
        told(w, line) == (WizardView {
            step: Step::Args,
            app: AppView { command: trimmed(line), ..w.app },
            ..w
        }),
{
    reveal(told);
    reveal(asks_for);
    law_text_answers(line, "Command"@, seq![]);
}

proof fn lemma_app_name(w: WizardView, line: Seq<char>)
    requires
        w.step == Step::AppName,
        trimmed(line).len() > 0,
    ensures
        asks(w, "App name"@, seq![]),
        told(w, line) == (WizardView {
            step: Step::Kind,
            app: AppView {
                name: trimmed(line),
                browser: "chromium-browser"@,
                startup_delay: 5,
                ..no_app()
            },
            ..w
        }),
{
    reveal(told);
    reveal(asks);
    law_text_answers(line, "App name"@, seq![]);
}

proof fn lemma_kind(w: WizardView, line: Seq<char>)
    requires
        w.step == Step::Kind,
        given(line, "web"@) == "web"@ || given(line, "web"@) == "native"@,
    ensures
        asks_which(w, "App type"@, seq!["web"@, "native"@], "web"@),
        given(line, "web"@) == "web"@ ==> told(w, line) == (WizardView {
            step: Step::Browser,
            app: AppView { kind: AppKind::Web, ..w.app },
            ..w
        }),
        given(line, "web"@) != "web"@ ==> told(w, line) == (WizardView {
            step: Step::Command,
            app: AppView { kind: AppKind::Native, ..w.app },
            ..w
        }),
{
    reveal(told);
    reveal(asks_which);
    assert(kinds()[0] == "web"@ && kinds()[1] == "native"@);
    assert(kinds().contains(given(line, "web"@)));
    law_choice_answers(line, "App type"@, kinds(), "web"@);
}

proof fn lemma_startup_delay(w: WizardView, line: Seq<char>, seconds: u64)
    requires
        w.step == Step::StartupDelay,
        gives_number(line, 5, seconds),
    ensures
        asks_number(w, "Seconds to wait after launching"@, 5),
        told(w, line) == (WizardView {
            step: Step::TextWanted,
            config: ConfigView {
                apps: w.config.apps.push(AppView { startup_delay: seconds, ..w.app }),
                ..w.config
            },
            target: w.app.name,
            app: no_app(),
            ..w
        }),
{
    reveal(told);
    reveal(asks_number);
    law_number_answers(line, "Seconds to wait after launching"@, 5);
}

proof fn lemma_text_wait(w: WizardView, line: Seq<char>, seconds: u64)
    requires
        w.step == Step::TextWait,
        gives_number(line, 2, seconds),
    ensures
        asks_number(w, "Wait seconds"@, 2),
        told(w, line) == (WizardView {
            step: Step::TextStep,
            commands: w.commands.push(TextCommandView::Wait(seconds)),
            ..w
        }),
{
    reveal(told);
    reveal(asks_number);
    law_number_answers(line, "Wait seconds"@, 2);
}

proof fn lemma_text_delay(w: WizardView, line: Seq<char>, seconds: u64)
    requires
        w.step == Step::TextDelay,
        gives_number(line, 5, seconds),
    ensures
        asks_number(w, "Seconds to wait before text entry starts"@, 5),
        told(w, line) == (WizardView {
            step: Step::TimerWanted,
            config: ConfigView {
                text_entries: w.config.text_entries.push(
                    TextEntryView { target: w.target, delay: seconds, commands: w.commands },
                ),
                ..w.config
            },
            commands: seq![],
            ..w
        }),
{
    reveal(told);
    reveal(asks_number);
    law_number_answers(line, "Seconds to wait before text entry starts"@, 5);
}

proof fn lemma_text_env(w: WizardView, line: Seq<char>)
    requires
        w.step == Step::TextEnv,
    ensures
        asks(w, "Environment variable name"@, seq![]),
        names_a_variable(given(line, seq![])) ==> told(w, line) == (WizardView {
            step: Step::TextStep,
            commands: w.commands.push(TextCommandView::TypeEnv(given(line, seq![]))),
            ..w
        }),
        !names_a_variable(given(line, seq![])) ==> turn(w, InputView::Line(line)).1 is Fail,
{
    reveal(told);
    reveal(asks);
    law_text_answers(line, "Environment variable name"@, seq![]);
    law_variable_names(given(line, seq![]));
}

/// The step that a kind of text command leads to.
proof fn lemma_text_step(w: WizardView, kind: Seq<char>)
    requires
        w.step == Step::TextStep,
    ensures
        asks_which(
            w,
            "Step type"@,
            seq!["type"@, "key"@, "wait"@, "env"@, "record"@, "done"@],
            "key"@,
        ),
        given(kind, "key"@) == "type"@ ==> told(w, kind) == (WizardView {
            step: Step::TextType,
            ..w
        }),
        given(kind, "key"@) == "key"@ ==> told(w, kind) == (WizardView { step: Step::TextKey, ..w }),
        given(kind, "key"@) == "wait"@ ==> told(w, kind) == (WizardView {
            step: Step::TextWait,
            ..w
        }),
        given(kind, "key"@) == "env"@ ==> told(w, kind) == (WizardView { step: Step::TextEnv, ..w }),
        given(kind, "key"@) == "record"@ ==> told(w, kind) == (WizardView {
            step: Step::Record,
            ..w
        }),
        given(kind, "key"@) == "done"@ ==> told(w, kind) == (WizardView {
            step: if w.commands.len() == 0 {
                Step::TimerWanted
            } else {
                Step::TextDelay
            },
            ..w
        }),
{
    reveal(told);
    reveal(asks_which);
    let steps = text_steps();
    let word = given(kind, "key"@);
    assert(steps[0] == "type"@ && steps[1] == "key"@ && steps[2] == "wait"@ && steps[3] == "env"@);
    assert(steps[4] == "record"@ && steps[5] == "done"@);
    lemma_step_words();
    law_choice_answers(kind, "Step type"@, steps, "key"@);
    if word == "type"@ || word == "key"@ || word == "wait"@ || word == "env"@ || word == "record"@
        || word == "done"@ {
        assert(steps.contains(word));
    }
}

proof fn lemma_timer_wanted(w: WizardView, line: Seq<char>)
    requires
        w.step == Step::TimerWanted,
    ensures
        asks_whether(w, "Add timed refresh/relaunch for this app?"@, false),
        gives_flag(line, false, true) ==> told(w, line) == (WizardView {
            step: Step::TimerAction,
            event: TimedEventView { target: w.target, ..no_timed_event() },
            ..w
        }),
{
    reveal(told);
    reveal(asks_whether);
    lemma_yes_no_words();
    law_flag_answers(line, "Add timed refresh/relaunch for this app?"@, false);
}

proof fn lemma_timer_action(w: WizardView, line: Seq<char>)
    requires
        w.step == Step::TimerAction,
        given(line, "reload"@) == "reload"@ || given(line, "reload"@) == "relaunch"@,
    ensures
        asks_which(w, "Timed action"@, seq!["reload"@, "relaunch"@], "reload"@),
        told(w, line) == (WizardView {
            step: Step::TimerAfter,
            event: TimedEventView {
                action: if given(line, "reload"@) == "relaunch"@ {
                    RefreshAction::Relaunch
                } else {
                    RefreshAction::Reload
                },
                ..w.event
            },
            ..w
        }),
{
    reveal(told);
    reveal(asks_which);
    assert(timed_actions()[0] == "reload"@ && timed_actions()[1] == "relaunch"@);
    assert(timed_actions().contains(given(line, "reload"@)));
    law_choice_answers(line, "Timed action"@, timed_actions(), "reload"@);
}

proof fn lemma_timer_after(w: WizardView, line: Seq<char>)
    requires
        w.step == Step::TimerAfter,
    ensures
        asks(w, "Run action after"@, "30m"@),
        duration_of(given(line, "30m"@)) matches Ok(after) ==> told(w, line) == (WizardView {
            step: Step::TimerRepeat,
            event: TimedEventView { after, ..w.event },
            ..w
        }),
{
    reveal(told);
    reveal(asks);
    law_text_answers(line, "Run action after"@, "30m"@);
}

proof fn lemma_timer_repeat(w: WizardView, line: Seq<char>, repeat: bool)
    requires
        w.step == Step::TimerRepeat,
        gives_flag(line, true, repeat),
    ensures
        asks_whether(w, "Repeat this timed action forever?"@, true),
        told(w, line) == (WizardView {
            step: Step::CheckPreview,
            config: ConfigView {
                refreshes: w.config.refreshes.push(TimedEventView { repeat, ..w.event }),
                ..w.config
            },
            event: no_timed_event(),
            ..w
        }),
{
    reveal(told);
    reveal(asks_whether);
    lemma_yes_no_words();
    law_flag_answers(line, "Repeat this timed action forever?"@, true);
}

// Kill rules.

/// Three lines make a kill rule: its pattern, its name, for which the pattern is offered, and its
/// signal. It is added behind the others, and nothing else changes.
pub proof fn law_kill_rule_is_made(
    w: WizardView,
    pattern: Seq<char>,
    name: Seq<char>,
    signal: Seq<char>,
)
    requires
        w.step == Step::KillPattern,
        trimmed(pattern).len() > 0,
    ensures
        ({
            let w1 = told(w, pattern);
            let w2 = told(w1, name);
            let w3 = told(w2, signal);
            &&& asks(w, "Process pattern to stop"@, seq![])
            &&& asks(w1, "Friendly name"@, trimmed(pattern))
            &&& asks(w2, "Signal"@, "TERM"@)
            &&& asks_whether(w3, "Add another kill rule?"@, false)
            &&& w3.config.kills == w.config.kills.push(
                KillRuleView {
                    name: given(name, trimmed(pattern)),
                    pattern: trimmed(pattern),
                    signal: given(signal, "TERM"@),
                },
            )
            &&& w3.config == ConfigView { kills: w3.config.kills, ..w.config }
            &&& w3.app == w.app && w3.commands == w.commands && w3.event == w.event
            &&& w3.target == w.target && w3.path == w.path
        }),
{
    let w1 = told(w, pattern);
    let w2 = told(w1, name);
    lemma_kill_pattern(w, pattern);
    lemma_kill_name(w1, name);
    lemma_kill_signal(w2, signal);
    reveal(asks_whether);
}

/// A blank pattern ends the kill rules.
pub proof fn law_blank_pattern_ends_kill_rules(w: WizardView, line: Seq<char>)
    requires
        w.step == Step::KillPattern,
        trimmed(line).len() == 0,
    ensures
        told(w, line) == (WizardView { step: Step::AppName, ..w }),
        asks(told(w, line), "App name"@, seq![]),
{
    lemma_kill_pattern(w, line);
    reveal(asks);
}

// Apps.

/// A name that is not blank begins an app, of which nothing else is set but the browser and the
/// time to wait.
pub proof fn law_app_begins_with_its_name(w: WizardView, name: Seq<char>, kind: Seq<char>)
    requires
        w.step == Step::AppName,
        trimmed(name).len() > 0,
        given(kind, "web"@) == "web"@ || given(kind, "web"@) == "native"@,
    ensures
        ({
            let w1 = told(w, name);
            let w2 = told(w1, kind);
            let web = given(kind, "web"@) == "web"@;
            &&& asks(w, "App name"@, seq![])
            &&& asks_which(w1, "App type"@, seq!["web"@, "native"@], "web"@)
            &&& web ==> asks(w2, "Browser command"@, "chromium-browser"@)
            &&& !web ==> asks_for(w2, "Command"@, seq![])
            &&& w2.app == AppView {
                name: trimmed(name),
                kind: if web {
                    AppKind::Web
                } else {
                    AppKind::Native
                },
                command: seq![],
                args: seq![],
                url: seq![],
                browser: "chromium-browser"@,
                browser_args: seq![],
                profile: seq![],
                workspace: seq![],
                match_criteria: seq![],
                layout: seq![],
                startup_delay: 5,
            }
            &&& differ_in_app_only(w, w2)
        }),
{
    let w1 = told(w, name);
    lemma_app_name(w, name);
    lemma_kind(w1, kind);
    reveal(asks);
    reveal(asks_for);
}

/// A blank name is refused while there is no app, and ends the apps once there is one.
pub proof fn law_blank_name_ends_apps(w: WizardView, line: Seq<char>)
    requires
        w.step == Step::AppName,
        trimmed(line).len() == 0,
    ensures
        w.config.apps.len() == 0 ==> turn(w, InputView::Line(line)) == (
            w,
            ReplyView::Tell("At least one app is required."@),
        ),
        w.config.apps.len() > 0 ==> told(w, line) == (WizardView { step: Step::RerunWanted, ..w }),
{
    reveal(told);
    law_text_answers(line, "App name"@, seq![]);
}

/// A web app is asked for its browser, its flags, its page, for which the one that was picked is
/// offered, and its profile; each answer is kept as it is given, and the rest of the app stays.
pub proof fn law_web_app_is_asked_for(
    w: WizardView,
    browser: Seq<char>,
    flags: Seq<char>,
    urls: Seq<Seq<char>>,
    pick: Seq<char>,
    url: Seq<char>,
    profile: Seq<char>,
)
    requires
        w.step == Step::Browser,
        trimmed(url).len() > 0 || urls.len() > 0 && trimmed(
            picked_url(urls, given(pick, "1"@)),
        ).len() > 0,
    ensures
        ({
            let w1 = told(w, browser);
            let w2 = told(w1, flags);
            let w3 = turn(w2, InputView::Urls(urls)).0;
            let w4 = if urls.len() > 0 {
                told(w3, pick)
            } else {
                w3
            };
            let offered = if urls.len() > 0 {
                picked_url(urls, given(pick, "1"@))
            } else {
                seq![]
            };
            let w5 = told(w4, url);
            let w6 = told(w5, profile);
            let own_profile = "/tmp/i3-controller-"@ + file_safe_text(w.app.name);
            &&& asks(w, "Browser command"@, "chromium-browser"@)
            &&& asks(w1, "Extra browser flags"@, seq![])
            &&& requested(w2) == RequestView::FindUrls
            &&& urls.len() > 0 ==> asks(w3, "Pick a URL number or enter a URL"@, "1"@)
            &&& asks_for(w4, "Web app URL"@, offered)
            &&& asks(w5, "Dedicated browser profile path"@, own_profile)
            &&& asks(w6, "Workspace"@, "i3-controller-"@ + file_safe_text(w.app.name))
            &&& w6.app == AppView {
                browser: given(browser, "chromium-browser"@),
                browser_args: given(flags, seq![]),
                url: given(url, offered),
                profile: given(profile, own_profile),
                ..w.app
            }
            &&& differ_in_app_only(w, w6)
        }),
{
    let w1 = told(w, browser);
    lemma_browser(w, browser);
    let w2 = told(w1, flags);
    lemma_browser_args(w1, flags);
    let w3 = turn(w2, InputView::Urls(urls)).0;
    assert(w3 == if urls.len() > 0 {
        WizardView { step: Step::UrlPick, urls, ..w2 }
    } else {
        WizardView { step: Step::Url, urls, url: seq![], ..w2 }
    });
    if urls.len() > 0 {
        lemma_url_pick(w3, pick);
    }
    let w4 = if urls.len() > 0 {
        told(w3, pick)
    } else {
        w3
    };
    crate::facts::lemma_trimmed_iff(seq![]);
    lemma_url(w4, url);
    let w5 = told(w4, url);
    lemma_profile(w5, profile);
    let w6 = told(w5, profile);
    lemma_workspace(w6, seq![]);
}

/// A native app is asked for its command, which it must have, and its arguments.
pub proof fn law_native_app_is_asked_for(w: WizardView, command: Seq<char>, args: Seq<char>)
    requires
        w.step == Step::Command,
        trimmed(command).len() > 0,
    ensures
        ({
            let w1 = told(w, command);
            let w2 = told(w1, args);
            &&& asks_for(w, "Command"@, seq![])
            &&& asks(w1, "Arguments"@, seq![])
            &&& asks(w2, "Workspace"@, "i3-controller-"@ + file_safe_text(w.app.name))
            &&& w2.app == AppView {
                command: trimmed(command),
                args: given(args, seq![]),
                ..w.app
            }
            &&& differ_in_app_only(w, w2)
            &&& w2.urls == w.urls && w2.url == w.url
        }),
{
    let w1 = told(w, command);
    lemma_command(w, command);
    lemma_args(w1, args);
    lemma_workspace(told(w1, args), seq![]);
}

/// Criteria that are given are kept as they are given, and no title is asked for; the rest of the
/// app stays.
pub proof fn law_criteria_are_kept(w: WizardView, criteria: Seq<char>)
    requires
        w.step == Step::Match,
        trimmed(criteria).len() > 0,
    ensures
        asks(w, "i3 match criteria, for example title=\"Dashboard\""@, seq![]),
        told(w, criteria) == (WizardView {
            step: Step::Layout,
            app: AppView { match_criteria: trimmed(criteria), ..w.app },
            ..w
        }),
{
    reveal(told);
    reveal(asks);
    law_text_answers(criteria, "i3 match criteria, for example title=\"Dashboard\""@, seq![]);
}

/// Without criteria a title is asked for, and the criteria are made from it, with a backslash before
/// each quote; without a title there are none.
pub proof fn law_title_makes_criteria(w: WizardView, criteria: Seq<char>, title: Seq<char>)
    requires
        w.step == Step::Match,
        trimmed(criteria).len() == 0,
    ensures
        ({
            let w1 = told(w, criteria);
            let w2 = told(w1, title);
            &&& asks(w, "i3 match criteria, for example title=\"Dashboard\""@, seq![])
            &&& asks(w1, "Window title to match exactly"@, seq![])
            &&& w2 == (WizardView {
                step: Step::Layout,
                app: AppView {
                    match_criteria: if trimmed(title).len() > 0 {
                        "title=\""@ + replaced(trimmed(title), seq!['"'], seq!['\\', '"']) + "\""@
                    } else {
                        seq![]
                    },
                    ..w.app
                },
                ..w
            })
        }),
{
    reveal(told);
    reveal(asks);
    law_text_answers(criteria, "i3 match criteria, for example title=\"Dashboard\""@, seq![]);
    law_text_answers(title, "Window title to match exactly"@, seq![]);
}

/// The workspace, the criteria or the title, the layout and the time to wait end an app: it is added
/// behind the others with all that was asked for, and nothing else of the config changes.
pub proof fn law_app_is_added(
    w: WizardView,
    workspace: Seq<char>,
    criteria: Seq<char>,
    title: Seq<char>,
    layout: Seq<char>,
    delay: Seq<char>,
    seconds: u64,
)
    requires
        w.step == Step::Workspace,
        gives_number(delay, 5, seconds),
    ensures
        ({
            let w1 = told(w, workspace);
            let w2 = told(w1, criteria);
            let w3 = if trimmed(criteria).len() > 0 {
                w2
            } else {
                told(w2, title)
            };
            let w4 = told(w3, layout);
            let w5 = told(w4, delay);
            let own = "i3-controller-"@ + file_safe_text(w.app.name);
            let place = "move position 0 0; resize set 1280 720"@;
            &&& asks(w, "Workspace"@, own)
            &&& asks(w1, "i3 match criteria, for example title=\"Dashboard\""@, seq![])
            &&& asks(w3, "Layout commands separated by semicolons"@, place)
            &&& asks_number(w4, "Seconds to wait after launching"@, 5)
            &&& asks_whether(w5, "Add login/text-entry automation for this app?"@, false)
            &&& w5.config.apps == w.config.apps.push(
                AppView {
                    workspace: given(workspace, own),
                    match_criteria: if trimmed(criteria).len() > 0 {
                        trimmed(criteria)
                    } else if trimmed(title).len() > 0 {
                        "title=\""@ + replaced(trimmed(title), seq!['"'], seq!['\\', '"']) + "\""@
                    } else {
                        seq![]
                    },
                    layout: given(layout, place),
                    startup_delay: seconds,
                    ..w.app
                },
            )
            &&& w5.config == ConfigView { apps: w5.config.apps, ..w.config }
            &&& w5.target == w.app.name
            &&& w5.kill == w.kill && w5.commands == w.commands && w5.event == w.event
            &&& w5.path == w.path
        }),
{
    let w1 = told(w, workspace);
    lemma_workspace(w, workspace);
    if trimmed(criteria).len() > 0 {
        law_criteria_are_kept(w1, criteria);
    } else {
        law_title_makes_criteria(w1, criteria, title);
    }
    let w2 = told(w1, criteria);
    let w3 = if trimmed(criteria).len() > 0 {
        w2
    } else {
        told(w2, title)
    };
    lemma_layout(w3, layout);
    let w4 = told(w3, layout);
    lemma_startup_delay(w4, delay, seconds);
    reveal(asks_whether);
}

// Text entry.

/// A step of text entry adds one command, of the kind that was chosen, with what was given for it;
/// then the next is asked for. What was there stays.
pub proof fn law_text_step_is_added(w: WizardView, kind: Seq<char>, line: Seq<char>, seconds: u64)
    requires
        w.step == Step::TextStep,
    ensures
        asks_which(
            w,
            "Step type"@,
            seq!["type"@, "key"@, "wait"@, "env"@, "record"@, "done"@],
            "key"@,
        ),
        given(kind, "key"@) == "type"@ ==> asks(told(w, kind), "Text to type"@, seq![]) && told(
            told(w, kind),
            line,
        ) == (WizardView {
            commands: w.commands.push(TextCommandView::Type(given(line, seq![]))),
            ..w
        }),
        given(kind, "key"@) == "key"@ ==> asks(told(w, kind), "xdotool key name"@, "Tab"@) && told(
            told(w, kind),
            line,
        ) == (WizardView {
            commands: w.commands.push(TextCommandView::Key(given(line, "Tab"@))),
            ..w
        }),
        given(kind, "key"@) == "wait"@ && gives_number(line, 2, seconds) ==> asks_number(
            told(w, kind),
            "Wait seconds"@,
            2,
        ) && told(told(w, kind), line) == (WizardView {
            commands: w.commands.push(TextCommandView::Wait(seconds)),
            ..w
        }),
        given(kind, "key"@) == "env"@ && names_a_variable(given(line, seq![])) ==> asks(
            told(w, kind),
            "Environment variable name"@,
            seq![],
        ) && told(told(w, kind), line) == (WizardView {
            commands: w.commands.push(TextCommandView::TypeEnv(given(line, seq![]))),
            ..w
        }),
        given(kind, "key"@) == "env"@ && !names_a_variable(given(line, seq![])) ==> turn(
            told(w, kind),
            InputView::Line(line),
        ).1 is Fail,
{
    let w1 = told(w, kind);
    lemma_text_step(w, kind);
    lemma_step_words();
    let word = given(kind, "key"@);
    if word == "type"@ {
        lemma_text_type(w1, line);
    } else if word == "key"@ {
        lemma_text_key(w1, line);
    } else if word == "wait"@ && gives_number(line, 2, seconds) {
        lemma_text_wait(w1, line, seconds);
    } else if word == "env"@ {
        lemma_text_env(w1, line);
    }
}

proof fn lemma_step_words()
    ensures
        "type"@.len() == 4 && "key"@.len() == 3 && "wait"@.len() == 4 && "env"@.len() == 3,
        "record"@.len() == 6 && "done"@.len() == 4,
        "wait"@ != "type"@ && "env"@ != "key"@ && "done"@ != "type"@ && "done"@ != "wait"@,
{
    reveal_strlit("type");
    reveal_strlit("key");
    reveal_strlit("wait");
    reveal_strlit("env");
    reveal_strlit("record");
    reveal_strlit("done");
    assert("wait"@[0] == 'w' && "type"@[0] == 't' && "env"@[0] == 'e' && "key"@[0] == 'k');
    assert("done"@[0] == 'd');
}

/// A recording adds all of its keys, in order, behind what is there.
pub proof fn law_recording_is_added(w: WizardView, kind: Seq<char>, keys: Seq<TextCommandView>)
    requires
        w.step == Step::TextStep,
        given(kind, "key"@) == "record"@,
    ensures
        requested(told(w, kind)) == RequestView::Record,
        turn(told(w, kind), InputView::Keys(keys)).0 == (WizardView {
            commands: w.commands + keys,
            ..w
        }),
{
    lemma_text_step(w, kind);
}

/// When the steps are done the text entry is added, for the app that was added last, with all of the
/// steps and the time to wait; without steps there is none. Then a timer is asked for.
pub proof fn law_text_entry_is_added(
    w: WizardView,
    kind: Seq<char>,
    delay: Seq<char>,
    seconds: u64,
)
    requires
        w.step == Step::TextStep,
        given(kind, "key"@) == "done"@,
        gives_number(delay, 5, seconds),
    ensures
        w.commands.len() == 0 ==> told(w, kind) == (WizardView { step: Step::TimerWanted, ..w }),
        w.commands.len() > 0 ==> asks_number(
            told(w, kind),
            "Seconds to wait before text entry starts"@,
            5,
        ) && told(told(w, kind), delay) == (WizardView {
            step: Step::TimerWanted,
            config: ConfigView {
                text_entries: w.config.text_entries.push(
                    TextEntryView { target: w.target, delay: seconds, commands: w.commands },
                ),
                ..w.config
            },
            commands: seq![],
            ..w
        }),
        asks_whether(
            (WizardView { step: Step::TimerWanted, ..w }),
            "Add timed refresh/relaunch for this app?"@,
            false,
        ),
{
    lemma_text_step(w, kind);
    lemma_timer_wanted(WizardView { step: Step::TimerWanted, ..w }, seq![]);
    if w.commands.len() > 0 {
        lemma_text_delay(told(w, kind), delay, seconds);
    }
}

// Timers.

/// Four lines make a timer for the app that was added last: that there is to be one, what it does,
/// after which time, and whether it repeats. It is added behind the others, and nothing else of the
/// config changes.
pub proof fn law_timer_is_made(
    w: WizardView,
    wanted: Seq<char>,
    action: Seq<char>,
    time: Seq<char>,
    again: Seq<char>,
    repeat: bool,
)
    requires
        w.step == Step::TimerWanted,
        gives_flag(wanted, false, true),
        given(action, "reload"@) == "reload"@ || given(action, "reload"@) == "relaunch"@,
        duration_of(given(time, "30m"@)) is Ok,
        gives_flag(again, true, repeat),
    ensures
        ({
            let w1 = told(w, wanted);
            let w2 = told(w1, action);
            let w3 = told(w2, time);
            let w4 = told(w3, again);
            &&& asks_which(w1, "Timed action"@, seq!["reload"@, "relaunch"@], "reload"@)
            &&& asks(w2, "Run action after"@, "30m"@)
            &&& asks_whether(w3, "Repeat this timed action forever?"@, true)
            &&& requested(w4) == RequestView::CheckPreview
            &&& w4.config.refreshes == w.config.refreshes.push(
                TimedEventView {
                    target: w.target,
                    after: duration_of(given(time, "30m"@))->Ok_0,
                    action: if given(action, "reload"@) == "relaunch"@ {
                        RefreshAction::Relaunch
                    } else {
                        RefreshAction::Reload
                    },
                    repeat,
                },
            )
            &&& w4.config == ConfigView { refreshes: w4.config.refreshes, ..w.config }
            &&& w4.app == w.app && w4.kill == w.kill && w4.commands == w.commands
            &&& w4.target == w.target && w4.path == w.path
        }),
{
    let w1 = told(w, wanted);
    lemma_timer_wanted(w, wanted);
    lemma_timer_action(w1, action);
    let w2 = told(w1, action);
    lemma_timer_after(w2, time);
    let w3 = told(w2, time);
    lemma_timer_repeat(w3, again, repeat);
}

proof fn lemma_yes_no_words()
    ensures
        forall|word: Seq<char>| !(#[trigger] is_yes(word) && is_no(word)),
        forall|word: Seq<char>| #[trigger] is_yes(word) ==> word.len() > 0 && lowered(word) != "y/n"@,
        forall|word: Seq<char>| #[trigger] is_no(word) ==> word.len() > 0 && lowered(word) != "y/n"@,
{
    reveal_strlit("y/n");
    reveal_strlit("y");
    reveal_strlit("yes");
    reveal_strlit("n");
    reveal_strlit("no");
    assert("y"@[0] == 'y' && "n"@[0] == 'n' && "y"@.len() == 1 && "n"@.len() == 1);
    assert("yes"@.len() == 3 && "no"@.len() == 2 && "y/n"@.len() == 3);
    assert("yes"@[1] == 'e' && "y/n"@[1] == '/');
}

/// A time that is wrong ends the dialogue with what is wrong with it, for a timer and for a rerun.
pub proof fn law_wrong_time_ends_the_dialogue(w: WizardView, line: Seq<char>)
    ensures
        w.step == Step::TimerAfter && (duration_of(given(line, "30m"@)) matches Err(
            Stop::Wrong(error),
        )) ==> turn(w, InputView::Line(line)).1 == ReplyView::Fail(
            duration_of(given(line, "30m"@))->Err_0->Wrong_0,
        ),
        w.step == Step::RerunAfter && (duration_of(given(line, "6h"@)) matches Err(
            Stop::Wrong(error),
        )) ==> turn(w, InputView::Line(line)).1 == ReplyView::Fail(
            duration_of(given(line, "6h"@))->Err_0->Wrong_0,
        ),
        w.step == Step::TimerAfter && duration_of(given(line, "30m"@)) == Err::<
            DurationView,
            Stop,
        >(Stop::Overflow) ==> turn(w, InputView::Line(line)).1 == ReplyView::Overflow,
        w.step == Step::RerunAfter && duration_of(given(line, "6h"@)) == Err::<DurationView, Stop>(
            Stop::Overflow,
        ) ==> turn(w, InputView::Line(line)).1 == ReplyView::Overflow,
{
    law_text_answers(line, "Run action after"@, "30m"@);
    law_text_answers(line, "Rerun after"@, "6h"@);
}

// Where the dialogue goes.

/// What a yes and a no lead to, and that they change nothing else, where nothing is added.
pub proof fn law_where_flags_lead(w: WizardView, line: Seq<char>, yes: bool)
    ensures
        w.step == Step::LoadWanted ==> asks_whether(w, "Load existing "@ + w.path + "?"@, true),
        w.step == Step::LoadWanted && gives_flag(line, true, yes) ==> told(w, line) == (WizardView {
            step: if yes {
                Step::Load
            } else {
                Step::KillsWanted
            },
            ..w
        }),
        w.step == Step::KillsWanted ==> asks_whether(
            w,
            "Add process kill rules before launching apps?"@,
            false,
        ),
        (w.step == Step::KillsWanted || w.step == Step::MoreKills) && gives_flag(line, false, yes)
            ==> told(w, line) == (WizardView {
            step: if yes {
                Step::KillPattern
            } else {
                Step::AppName
            },
            ..w
        }),
        w.step == Step::TextWanted && gives_flag(line, false, yes) ==> told(w, line)
            == (WizardView {
            step: if yes {
                Step::TextStep
            } else {
                Step::TimerWanted
            },
            commands: if yes {
                seq![]
            } else {
                w.commands
            },
            ..w
        }),
        w.step == Step::TimerWanted && gives_flag(line, false, false) ==> told(w, line)
            == (WizardView { step: Step::CheckPreview, ..w }),
        w.step == Step::PreviewWanted ==> asks_whether(
            w,
            "Preview current config in an i3 test workspace?"@,
            false,
        ),
        w.step == Step::PreviewWanted && gives_flag(line, false, false) ==> told(w, line)
            == (WizardView { step: Step::MoreApps, ..w }),
        w.step == Step::MoreApps ==> asks_whether(w, "Add another app?"@, true),
        w.step == Step::MoreApps && gives_flag(line, true, yes) ==> told(w, line) == (WizardView {
            step: if yes {
                Step::AppName
            } else {
                Step::RerunWanted
            },
            ..w
        }),
        w.step == Step::RerunWanted ==> asks_whether(w, "Rerun the full script on a timer?"@, false),
        w.step == Step::RerunWanted && gives_flag(line, false, true) ==> told(w, line)
            == (WizardView { step: Step::RerunAfter, ..w }),
        w.step == Step::RerunAfter ==> asks(w, "Rerun after"@, "6h"@),
        w.step == Step::ScriptWanted ==> asks_whether(
            w,
            "Generate launch script beside the config?"@,
            true,
        ),
        w.step == Step::ScriptWanted && gives_flag(line, true, false) ==> told(w, line)
            == (WizardView { step: Step::Finished, ..w }),
        w.step == Step::Finished ==> requested(w) == RequestView::Finish,
{
    reveal(told);
    reveal(asks);
    reveal(asks_whether);
    lemma_yes_no_words();
    law_flag_answers(line, "Load existing "@ + w.path + "?"@, true);
    law_flag_answers(line, "Add process kill rules before launching apps?"@, false);
    law_flag_answers(line, "Add another kill rule?"@, false);
    law_flag_answers(line, "Add login/text-entry automation for this app?"@, false);
    law_flag_answers(line, "Add timed refresh/relaunch for this app?"@, false);
    law_flag_answers(line, "Preview current config in an i3 test workspace?"@, false);
    law_flag_answers(line, "Add another app?"@, true);
    law_flag_answers(line, "Rerun the full script on a timer?"@, false);
    law_flag_answers(line, "Generate launch script beside the config?"@, true);
}

/// What is done for a wizard moves it on and changes nothing else: a config that is loaded takes the
/// place of the one that there was.
pub proof fn law_where_other_inputs_lead(w: WizardView, text: Seq<char>, possible: bool)
    ensures
        w.step == Step::Load ==> requested(w) == RequestView::Load,
        w.step == Step::Load && config_of(text) is Ok ==> turn(w, InputView::Loaded(text)) == (
            WizardView { step: Step::KillsWanted, config: config_of(text)->Ok_0, ..w },
            ReplyView::Next,
        ),
        w.step == Step::Load && (config_of(text) matches Err(Stop::Wrong(error))) ==> turn(
            w,
            InputView::Loaded(text),
        ).1 == ReplyView::Fail(config_of(text)->Err_0->Wrong_0),
        w.step == Step::Load && config_of(text) == Err::<ConfigView, Stop>(Stop::Overflow) ==> turn(
            w,
            InputView::Loaded(text),
        ).1 == ReplyView::Overflow,
        w.step == Step::CheckPreview ==> requested(w) == RequestView::CheckPreview,
        w.step == Step::CheckPreview ==> turn(w, InputView::Possible(possible)) == (
            WizardView {
                step: if possible {
                    Step::PreviewWanted
                } else {
                    Step::MoreApps
                },
                ..w
            },
            ReplyView::Next,
        ),
        w.step == Step::Preview ==> turn(w, InputView::Done) == (
            WizardView { step: Step::MoreApps, ..w },
            ReplyView::Next,
        ),
        w.step == Step::Save ==> turn(w, InputView::Done) == (
            WizardView { step: Step::ScriptWanted, ..w },
            ReplyView::Next,
        ),
        w.step == Step::WriteScript ==> turn(w, InputView::Done) == (
            WizardView { step: Step::Finished, ..w },
            ReplyView::Next,
        ),
{
}

/// A wizard starts with an empty config: by asking whether to load the one that there is, or with
/// the first question.
pub proof fn law_how_a_wizard_starts(path: Seq<char>, exists: bool)
    ensures
        ({
            let w = started(path, exists);
            &&& w.path == path
            &&& w.config.apps.len() == 0 && w.config.kills.len() == 0
            &&& w.config.text_entries.len() == 0 && w.config.refreshes.len() == 0
            &&& w.config.rerun is None
            &&& exists ==> asks_whether(w, "Load existing "@ + path + "?"@, true)
            &&& !exists ==> asks_whether(
                w,
                "Add process kill rules before launching apps?"@,
                false,
            )
        }),
{
    reveal(told);
    reveal(asks);
    reveal(asks_whether);
}

// What is saved and run.

/// A preview runs the script of the apps on the workspace for previews.
pub proof fn law_preview_runs_its_script(w: WizardView, line: Seq<char>)
    requires
        w.step == Step::PreviewWanted,
        gives_flag(line, false, true),
    ensures
        requested(told(w, line)) == RequestView::Preview(script_of(previewed(w.config))->Ok_0),
        script_of(previewed(w.config)) is Ok,
        told(w, line) == (WizardView {
            step: Step::Preview,
            output: told(w, line).output,
            ..w
        }),
{
    reveal(told);
    reveal(asks);
    reveal(asks_whether);
    lemma_yes_no_words();
    law_flag_answers(line, "Preview current config in an i3 test workspace?"@, false);
    law_preview_is_generated(w.config);
}

/// Without a new time the config is saved as it is, with the rerun that it has, if it is valid.
pub proof fn law_config_is_saved_without_new_rerun(w: WizardView, line: Seq<char>)
    requires
        w.step == Step::RerunWanted,
        gives_flag(line, false, false),
    ensures
        config_check(w.config) is Ok ==> told(w, line) == (WizardView {
            step: Step::Save,
            output: config_text(w.config),
            ..w
        }) && requested(told(w, line)) == RequestView::Save(config_text(w.config)) && turn(
            w,
            InputView::Line(line),
        ).1 == ReplyView::Next,
        config_check(w.config) matches Err(error) ==> turn(w, InputView::Line(line)).1
            == ReplyView::Fail(error),
{
    reveal(told);
    reveal(asks);
    reveal(asks_whether);
    lemma_yes_no_words();
    law_flag_answers(line, "Rerun the full script on a timer?"@, false);
}

/// With a new time the config is saved with that time, if it is valid.
pub proof fn law_config_is_saved_with_rerun(w: WizardView, line: Seq<char>)
    requires
        w.step == Step::RerunAfter,
        duration_of(given(line, "6h"@)) is Ok,
    ensures
        ({
            let config = ConfigView {
                rerun: Some(duration_of(given(line, "6h"@))->Ok_0),
                ..w.config
            };
            &&& config_check(config) is Ok ==> told(w, line) == (WizardView {
                step: Step::Save,
                config,
                output: config_text(config),
                ..w
            }) && requested(told(w, line)) == RequestView::Save(config_text(config)) && turn(
                w,
                InputView::Line(line),
            ).1 == ReplyView::Next
            &&& config_check(config) matches Err(error) ==> turn(w, InputView::Line(line)).1
                == ReplyView::Fail(error)
        }),
{
    reveal(told);
    reveal(asks);
    reveal(asks_whether);
    law_text_answers(line, "Rerun after"@, "6h"@);
}

/// The script that is written is that of the config that was saved, if it has one.
pub proof fn law_script_is_written(w: WizardView, line: Seq<char>)
    requires
        w.step == Step::ScriptWanted,
        gives_flag(line, true, true),
    ensures
        script_of(w.config) matches Ok(script) ==> requested(told(w, line))
            == RequestView::WriteScript(script) && told(w, line).config == w.config && turn(
            w,
            InputView::Line(line),
        ).1 == ReplyView::Next,
        script_of(w.config) matches Err(error) ==> turn(w, InputView::Line(line)).1
            == ReplyView::Fail(error),
{
    reveal(told);
    reveal(asks);
    reveal(asks_whether);
    lemma_yes_no_words();
    law_flag_answers(line, "Generate launch script beside the config?"@, true);
}

// What the user is told.

/// The pages that are open are listed, each on a line with its number, counted from one.
pub proof fn law_list_of_pages(urls: Seq<Seq<char>>, url: Seq<char>)
    ensures
        url_list(Seq::<Seq<char>>::empty()) == "Open Chromium URLs:"@,
        url_list(urls.push(url)) == url_list(urls) + "\n  "@ + decimal_of(urls.len() + 1) + ". "@
            + url,
{
    assert(urls.push(url).drop_last() == urls);
}

/// The user is told what a line lacks that does not answer, what helps with the next answer, and
/// which pages there are; otherwise nothing.
pub proof fn law_what_is_told(w: WizardView, line: Seq<char>, urls: Seq<Seq<char>>)
    ensures
        w.step == Step::Command && trimmed(line).len() > 0 ==> turn(w, InputView::Line(line)).1
            == ReplyView::Tell(
            "Args are passed through a shell. For terminals, use something like: -e sh -lc 'cd ~/lab && ./plc_pinger.sh; exec sh'"@,
        ),
        w.step == Step::TextWanted && is_yes(trimmed(line)) ==> turn(w, InputView::Line(line)).1
            == ReplyView::Tell(
            "Build text-entry steps. Use explicit waits when pages are slow.\nStep types: type, env, key, wait, record, done.\nRecording uses xinput/xmodmap when available and stops when you press End.\n"@,
        ),
        w.step == Step::FindUrls && urls.len() == 0 ==> turn(w, InputView::Urls(urls)).1
            == ReplyView::Tell(
            "No Chromium DevTools URLs found. To enable import, launch Chromium with --remote-debugging-port=9222."@,
        ),
        w.step == Step::FindUrls && urls.len() > 0 ==> turn(w, InputView::Urls(urls)).1
            == ReplyView::Tell(url_list(urls)),
        w.step != Step::Command && w.step != Step::TextWanted && w.step != Step::AppName && asked(w)
            is Some && reading(asked(w)->0, line) is Ok ==> !(turn(w, InputView::Line(line)).1
            is Tell),
{
    law_text_answers(line, "Command"@, seq![]);
    law_flag_answers(line, "Add login/text-entry automation for this app?"@, false);
}

/// The steps at which an answer may be wrong though it answers the question: a variable's name, a
/// time, and what completes the config or makes its script.
pub open spec fn may_fail(step: Step) -> bool {
    step == Step::TextEnv || step == Step::TimerAfter || step == Step::RerunAfter || step
        == Step::RerunWanted || step == Step::ScriptWanted
}

/// A line that answers the question takes the dialogue on, but where it may be wrong all the same;
/// there it does if it is not.
pub proof fn law_when_the_dialogue_goes_on(w: WizardView, line: Seq<char>)
    requires
        asked(w) is Some,
        reading(asked(w)->0, line) is Ok,
    ensures
        !may_fail(w.step) ==> turn(w, InputView::Line(line)).1 == ReplyView::Next || turn(
            w,
            InputView::Line(line),
        ).1 is Tell,
        w.step == Step::TextEnv && names_a_variable(given(line, seq![])) ==> turn(
            w,
            InputView::Line(line),
        ).1 == ReplyView::Next,
        w.step == Step::TimerAfter && duration_of(given(line, "30m"@)) is Ok ==> turn(
            w,
            InputView::Line(line),
        ).1 == ReplyView::Next,
{
    match reading(asked(w)->0, line)->Ok_0 {
        AnswerView::Text(value) => {
            lemma_text_reply(w, value);
        },
        AnswerView::Number(number) => {
            lemma_number_reply(w, number);
        },
        AnswerView::Flag(yes) => {
            lemma_flag_reply(w, yes);
        },
    }
    if w.step == Step::TextEnv {
        law_text_answers(line, "Environment variable name"@, seq![]);
        law_variable_names(given(line, seq![]));
    } else if w.step == Step::TimerAfter {
        law_text_answers(line, "Run action after"@, "30m"@);
    }
    lemma_answer_kinds(w, line);
}

proof fn lemma_text_reply(w: WizardView, value: Seq<char>)
    ensures
        detail_taken(w, value).1 == ReplyView::Next || detail_taken(w, value).1 is Tell || may_fail(
            w.step,
        ) || detail_taken(w, value).1 == ReplyView::Mismatch,
        w.step == Step::TextEnv && variable_check(value) is Ok ==> detail_taken(w, value).1
            == ReplyView::Next,
        w.step == Step::TimerAfter && duration_of(value) is Ok ==> detail_taken(w, value).1
            == ReplyView::Next,
{
}

proof fn lemma_number_reply(w: WizardView, number: u64)
    ensures
        number_taken(w, number).1 == ReplyView::Next || number_taken(w, number).1
            == ReplyView::Mismatch,
{
}

proof fn lemma_flag_reply(w: WizardView, yes: bool)
    ensures
        flag_taken(w, yes).1 == ReplyView::Next || flag_taken(w, yes).1 is Tell || may_fail(w.step)
            || flag_taken(w, yes).1 == ReplyView::Mismatch,
{
}

proof fn lemma_answer_kinds(w: WizardView, line: Seq<char>)
    requires
        asked(w) is Some,
        reading(asked(w)->0, line) is Ok,
    ensures
        turn(w, InputView::Line(line)).1 != ReplyView::Mismatch,
{
    law_questions_take_lines(w, InputView::Line(line));
}

/// What was not asked for changes nothing, and is said to be out of place.
pub proof fn law_what_was_not_asked_for(w: WizardView, input: InputView)
    requires
        match input {
            InputView::Line(_) => asked(w) is None,
            InputView::Loaded(_) => w.step != Step::Load,
            InputView::Urls(_) => w.step != Step::FindUrls,
            InputView::Keys(_) => w.step != Step::Record,
            InputView::Possible(_) => w.step != Step::CheckPreview,
            InputView::Done => w.step != Step::Preview && w.step != Step::Save && w.step
                != Step::WriteScript,
        },
    ensures
        turn(w, input) == (w, ReplyView::Mismatch),
{
}

/// At each step one thing is waited for: a question has an answer, and where nothing is asked
/// something is to be done, until all is.
pub proof fn law_what_is_waited_for(w: WizardView)
    ensures
        asked(w) is None <==> w.step == Step::Load || w.step == Step::FindUrls || w.step
            == Step::Record || w.step == Step::CheckPreview || w.step == Step::Preview || w.step
            == Step::Save || w.step == Step::WriteScript || w.step == Step::Finished,
        asked(w) matches Some(question) ==> requested(w) == RequestView::Ask(question),
        w.step == Step::FindUrls ==> requested(w) == RequestView::FindUrls,
        w.step == Step::Record ==> requested(w) == RequestView::Record,
        w.step == Step::Preview ==> requested(w) == RequestView::Preview(w.output),
        w.step == Step::Save ==> requested(w) == RequestView::Save(w.output),
        w.step == Step::WriteScript ==> requested(w) == RequestView::WriteScript(w.output),
{
}

} // verus!
