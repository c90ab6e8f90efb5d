//! What an input does to a wizard.
use crate::config::{
    no_app, no_kill, no_timed_event, App, AppKind, AppView, ConfigView, DurationSpec, KillRule,
    KillRuleView, RefreshAction, TextCommand, TextCommandView, TextEntry, TextEntryView,
    TimedEvent, TimedEventView,
};
use crate::devtools::{choose_web_url, picked_url};
use crate::format::{config_text, config_to_string};
use crate::number::{decimal, decimal_of};
use crate::parse::{checked_parse_config, config_of};
use crate::preview::{preview_script, previewed};
use crate::prompt::{reading, Answer, AnswerView};
use crate::script::{generate_script, launch_part, script_of};
use crate::shell::{validate_env_name, variable_check};
use crate::text::{replace, replaced, same};
use crate::validate::{config_check, validate_config};
use crate::values::{checked_parse_duration, duration_of, Stop};
use crate::wizard::{
    asked, Input, InputView, Reply, ReplyView, Step, Wizard, WizardView, ARGS_HINT, NO_APPS,
    NO_URLS, TEXT_INTRO,
};
use vstd::prelude::*;

verus! {

/// A wizard after an input, and the reply to it.
pub type Turn = (WizardView, ReplyView);

pub open spec fn on_to(w: WizardView, step: Step) -> Turn {
    (WizardView { step, ..w }, ReplyView::Next)
}

// Answers in text, about kill rules and apps.

/// The criteria that match a window title exactly; none for no title.
pub open spec fn title_criteria(title: Seq<char>) -> Seq<char> {
    if title.len() == 0 {
        seq![]
    } else {
        "title=\""@ + replaced(title, seq!['"'], seq!['\\', '"']) + "\""@
    }
}

fn match_title(title: &str) -> (s: String)
    ensures
        s@ == title_criteria(title@),
{
    if title.is_empty() {
        String::new()
    } else {
        proof {
            reveal_strlit("\"");
            reveal_strlit("\\\"");
            assert("\""@ == seq!['"']);
            assert("\\\""@ == seq!['\\', '"']);
        }
        "title=\"".to_owned().concat(&replace(title, "\"", "\\\"")).concat("\"")
    }
}

/// An app of which only the name is known yet.
pub open spec fn named_app(name: Seq<char>) -> AppView {
    AppView { name, browser: "chromium-browser"@, startup_delay: 5, ..no_app() }
}

pub open spec fn kind_named(word: Seq<char>) -> AppKind {
    if word == "web"@ {
        AppKind::Web
    } else {
        AppKind::Native
    }
}

pub open spec fn with_app(w: WizardView, app: AppView, step: Step) -> Turn {
    (WizardView { step, app, ..w }, ReplyView::Next)
}

/// What a text does to a kill rule or an app that is being asked for.
pub open spec fn draft_taken(w: WizardView, value: Seq<char>) -> Turn {
    match w.step {
        Step::KillPattern => if value.len() == 0 {
            on_to(w, Step::AppName)
        } else {
            (
                WizardView {
                    step: Step::KillName,
                    kill: KillRuleView { pattern: value, ..no_kill() },
                    ..w
                },
                ReplyView::Next,
            )
        },
        Step::KillName => (
            WizardView {
                step: Step::KillSignal,
                kill: KillRuleView { name: value, ..w.kill },
                ..w
            },
            ReplyView::Next,
        ),
        Step::KillSignal => (
            WizardView {
                step: Step::MoreKills,
                kill: no_kill(),
                config: ConfigView {
                    kills: w.config.kills.push(KillRuleView { signal: value, ..w.kill }),
                    ..w.config
                },
                ..w
            },
            ReplyView::Next,
        ),
        Step::AppName => if value.len() > 0 {
            with_app(w, named_app(value), Step::Kind)
        } else if w.config.apps.len() == 0 {
            (w, ReplyView::Tell(NO_APPS@))
        } else {
            on_to(w, Step::RerunWanted)
        },
        Step::Kind => with_app(
            w,
            AppView { kind: kind_named(value), ..w.app },
            match kind_named(value) {
                AppKind::Web => Step::Browser,
                AppKind::Native => Step::Command,
            },
        ),
        Step::Browser => with_app(w, AppView { browser: value, ..w.app }, Step::BrowserArgs),
        Step::BrowserArgs => with_app(w, AppView { browser_args: value, ..w.app }, Step::FindUrls),
        Step::UrlPick => (
            WizardView { step: Step::Url, url: picked_url(w.urls, value), ..w },
            ReplyView::Next,
        ),
        Step::Url => with_app(w, AppView { url: value, ..w.app }, Step::Profile),
        Step::Profile => with_app(w, AppView { profile: value, ..w.app }, Step::Workspace),
        Step::Command => (
            with_app(w, AppView { command: value, ..w.app }, Step::Args).0,
            ReplyView::Tell(ARGS_HINT@),
        ),
        Step::Args => with_app(w, AppView { args: value, ..w.app }, Step::Workspace),
        Step::Workspace => with_app(w, AppView { workspace: value, ..w.app }, Step::Match),
        Step::Match => with_app(
            w,
            AppView { match_criteria: value, ..w.app },
            if value.len() == 0 {
                Step::Title
            } else {
                Step::Layout
            },
        ),
        Step::Title => with_app(
            w,
            AppView { match_criteria: title_criteria(value), ..w.app },
            Step::Layout,
        ),
        Step::Layout => with_app(w, AppView { layout: value, ..w.app }, Step::StartupDelay),
        _ => (w, ReplyView::Mismatch),
    }
}

impl Wizard {
    fn add_kill(&mut self, signal: String)
        ensures
            final(self).deep_view() == (WizardView {
                kill: no_kill(),
                config: ConfigView {
                    kills: old(self).deep_view().config.kills.push(
                        KillRuleView { signal: signal@, ..old(self).deep_view().kill },
                    ),
                    ..old(self).deep_view().config
                },
                ..old(self).deep_view()
            }),
    {
        let ghost before = self.config.kills.deep_view();
        let mut kill = KillRule::default();
        core::mem::swap(&mut kill, &mut self.kill);
        kill.signal = signal;
        self.config.kills.push(kill);
        assert(self.config.kills.deep_view() == before.push(kill.deep_view()));
    }

    fn take_draft(&mut self, value: String) -> (reply: Reply)
        ensures
            (final(self).deep_view(), reply.deep_view()) == draft_taken(
                old(self).deep_view(),
                value@,
            ),
    {
        match self.step {
            Step::KillPattern => {
                if value.as_str().is_empty() {
                    self.step = Step::AppName;
                } else {
                    self.kill = KillRule {
                        name: String::new(),
                        pattern: value,
                        signal: String::new(),
                    };
                    self.step = Step::KillName;
                }
            },
            Step::KillName => {
                self.kill.name = value;
                self.step = Step::KillSignal;
            },
            Step::KillSignal => {
                self.add_kill(value);
                self.step = Step::MoreKills;
            },
            Step::AppName => {
                if !value.as_str().is_empty() {
                    self.app = App::default();
                    self.app.name = value;
                    self.app.browser = "chromium-browser".to_owned();
                    self.app.startup_delay = 5;
                    self.step = Step::Kind;
                } else if self.config.apps.len() == 0 {
                    return Reply::Tell(NO_APPS.to_owned());
                } else {
                    self.step = Step::RerunWanted;
                }
            },
            Step::Kind => {
                if same(&value, "web") {
                    self.app.kind = AppKind::Web;
                    self.step = Step::Browser;
                } else {
                    self.app.kind = AppKind::Native;
                    self.step = Step::Command;
                }
            },
            Step::Browser => {
                self.app.browser = value;
                self.step = Step::BrowserArgs;
            },
            Step::BrowserArgs => {
                self.app.browser_args = value;
                self.step = Step::FindUrls;
            },
            Step::UrlPick => {
                self.url = choose_web_url(&self.urls, &value);
                self.step = Step::Url;
            },
            Step::Url => {
                self.app.url = value;
                self.step = Step::Profile;
            },
            Step::Profile => {
                self.app.profile = value;
                self.step = Step::Workspace;
            },
            Step::Command => {
                self.app.command = value;
                self.step = Step::Args;
                return Reply::Tell(ARGS_HINT.to_owned());
            },
            Step::Args => {
                self.app.args = value;
                self.step = Step::Workspace;
            },
            Step::Workspace => {
                self.app.workspace = value;
                self.step = Step::Match;
            },
            Step::Match => {
                self.step = if value.as_str().is_empty() {
                    Step::Title
                } else {
                    Step::Layout
                };
                self.app.match_criteria = value;
            },
            Step::Title => {
                self.app.match_criteria = match_title(&value);
                self.step = Step::Layout;
            },
            Step::Layout => {
                self.app.layout = value;
                self.step = Step::StartupDelay;
            },
            _ => {
                return Reply::Mismatch;
            },
        }
        Reply::Next
    }
}

// Answers in text, about text entry and timers.

pub open spec fn with_command(w: WizardView, command: TextCommandView) -> Turn {
    (
        WizardView { step: Step::TextStep, commands: w.commands.push(command), ..w },
        ReplyView::Next,
    )
}

/// The step that asks for a text command of this kind.
pub open spec fn command_asked(w: WizardView, kind: Seq<char>) -> Step {
    if kind == "type"@ {
        Step::TextType
    } else if kind == "env"@ {
        Step::TextEnv
    } else if kind == "key"@ {
        Step::TextKey
    } else if kind == "wait"@ {
        Step::TextWait
    } else if kind == "record"@ {
        Step::Record
    } else if w.commands.len() == 0 {
        Step::TimerWanted
    } else {
        Step::TextDelay
    }
}

pub open spec fn action_named(word: Seq<char>) -> RefreshAction {
    if word == "relaunch"@ {
        RefreshAction::Relaunch
    } else {
        RefreshAction::Reload
    }
}

pub open spec fn stop_reply(stop: Stop) -> ReplyView {
    match stop {
        Stop::Wrong(error) => ReplyView::Fail(error),
        Stop::Overflow => ReplyView::Overflow,
    }
}

/// The config is complete: it is saved if it is valid.
pub open spec fn completed(w: WizardView) -> Turn {
    match config_check(w.config) {
        Err(error) => (w, ReplyView::Fail(error)),
        Ok(_) => (
            WizardView { step: Step::Save, output: config_text(w.config), ..w },
            ReplyView::Next,
        ),
    }
}

/// What a text does to text commands or a timer that are being asked for.
pub open spec fn detail_taken(w: WizardView, value: Seq<char>) -> Turn {
    match w.step {
        Step::TextStep => on_to(w, command_asked(w, value)),
        Step::TextType => with_command(w, TextCommandView::Type(value)),
        Step::TextEnv => match variable_check(value) {
            Err(error) => (w, ReplyView::Fail(error)),
            Ok(_) => with_command(w, TextCommandView::TypeEnv(value)),
        },
        Step::TextKey => with_command(w, TextCommandView::Key(value)),
        Step::TimerAction => (
            WizardView {
                step: Step::TimerAfter,
                event: TimedEventView { action: action_named(value), ..w.event },
                ..w
            },
            ReplyView::Next,
        ),
        Step::TimerAfter => match duration_of(value) {
            Err(stop) => (w, stop_reply(stop)),
            Ok(after) => (
                WizardView {
                    step: Step::TimerRepeat,
                    event: TimedEventView { after, ..w.event },
                    ..w
                },
                ReplyView::Next,
            ),
        },
        Step::RerunAfter => match duration_of(value) {
            Err(stop) => (w, stop_reply(stop)),
            Ok(after) => completed(
                WizardView { config: ConfigView { rerun: Some(after), ..w.config }, ..w },
            ),
        },
        _ => draft_taken(w, value),
    }
}

impl Wizard {
    fn add_command(&mut self, command: TextCommand)
        ensures
            (final(self).deep_view(), ReplyView::Next) == with_command(
                old(self).deep_view(),
                command.deep_view(),
            ),
    {
        let ghost before = self.commands.deep_view();
        self.commands.push(command);
        assert(self.commands.deep_view() == before.push(command.deep_view()));
        self.step = Step::TextStep;
    }

    fn complete(&mut self) -> (reply: Reply)
        ensures
            (final(self).deep_view(), reply.deep_view()) == completed(old(self).deep_view()),
    {
        match validate_config(&self.config) {
            Err(error) => Reply::Fail(error),
            Ok(_) => match config_to_string(&self.config) {
                Err(error) => Reply::Fail(error),
                Ok(text) => {
                    self.output = text;
                    self.step = Step::Save;
                    Reply::Next
                },
            },
        }
    }

    fn take_detail(&mut self, value: String) -> (reply: Reply)
        ensures
            (final(self).deep_view(), reply.deep_view()) == detail_taken(
                old(self).deep_view(),
                value@,
            ),
    {
        match self.step {
            Step::TextStep => {
                self.step = if same(&value, "type") {
                    Step::TextType
                } else if same(&value, "env") {
                    Step::TextEnv
                } else if same(&value, "key") {
                    Step::TextKey
                } else if same(&value, "wait") {
                    Step::TextWait
                } else if same(&value, "record") {
                    Step::Record
                } else if self.commands.len() == 0 {
                    Step::TimerWanted
                } else {
                    Step::TextDelay
                };
                Reply::Next
            },
            Step::TextType => {
                self.add_command(TextCommand::Type(value));
                Reply::Next
            },
            Step::TextEnv => match validate_env_name(&value) {
                Err(error) => Reply::Fail(error),
                Ok(_) => {
                    self.add_command(TextCommand::TypeEnv(value));
                    Reply::Next
                },
            },
            Step::TextKey => {
                self.add_command(TextCommand::Key(value));
                Reply::Next
            },
            Step::TimerAction => {
                self.event.action = if same(&value, "relaunch") {
                    RefreshAction::Relaunch
                } else {
                    RefreshAction::Reload
                };
                self.step = Step::TimerAfter;
                Reply::Next
            },
            Step::TimerAfter => match checked_parse_duration(&value) {
                None => Reply::Overflow,
                Some(Err(error)) => Reply::Fail(error),
                Some(Ok(after)) => {
                    self.event.after = after;
                    self.step = Step::TimerRepeat;
                    Reply::Next
                },
            },
            Step::RerunAfter => match checked_parse_duration(&value) {
                None => Reply::Overflow,
                Some(Err(error)) => Reply::Fail(error),
                Some(Ok(after)) => {
                    self.config.rerun = Some(after);
                    self.complete()
                },
            },
            _ => self.take_draft(value),
        }
    }
}

// Answers in numbers.

pub open spec fn number_taken(w: WizardView, number: u64) -> Turn {
    match w.step {
        Step::StartupDelay => (
            WizardView {
                step: Step::TextWanted,
                config: ConfigView {
                    apps: w.config.apps.push(AppView { startup_delay: number, ..w.app }),
                    ..w.config
                },
                target: w.app.name,
                app: no_app(),
                ..w
            },
            ReplyView::Next,
        ),
        Step::TextWait => with_command(w, TextCommandView::Wait(number)),
        Step::TextDelay => (
            WizardView {
                step: Step::TimerWanted,
                config: ConfigView {
                    text_entries: w.config.text_entries.push(
                        TextEntryView { target: w.target, delay: number, commands: w.commands },
                    ),
                    ..w.config
                },
                commands: seq![],
                ..w
            },
            ReplyView::Next,
        ),
        _ => (w, ReplyView::Mismatch),
    }
}

impl Wizard {
    fn take_number(&mut self, number: u64) -> (reply: Reply)
        ensures
            (final(self).deep_view(), reply.deep_view()) == number_taken(
                old(self).deep_view(),
                number,
            ),
    {
        match self.step {
            Step::StartupDelay => {
                let ghost before = self.config.apps.deep_view();
                let mut app = App::default();
                core::mem::swap(&mut app, &mut self.app);
                app.startup_delay = number;
                self.target = app.name.clone();
                self.config.apps.push(app);
                assert(self.config.apps.deep_view() == before.push(app.deep_view()));
                self.step = Step::TextWanted;
            },
            Step::TextWait => {
                self.add_command(TextCommand::Wait(number));
            },
            Step::TextDelay => {
                let ghost before = self.config.text_entries.deep_view();
                let mut commands: Vec<TextCommand> = Vec::new();
                core::mem::swap(&mut commands, &mut self.commands);
                let entry = TextEntry { target: self.target.clone(), delay: number, commands };
                self.config.text_entries.push(entry);
                assert(self.config.text_entries.deep_view() == before.push(entry.deep_view()));
                self.step = Step::TimerWanted;
            },
            _ => {
                return Reply::Mismatch;
            },
        }
        Reply::Next
    }
}

// Yes and no.

pub open spec fn either(w: WizardView, yes: bool, then_step: Step, else_step: Step) -> Turn {
    on_to(
        w,
        if yes {
            then_step
        } else {
            else_step
        },
    )
}

pub open spec fn flag_taken(w: WizardView, yes: bool) -> Turn {
    match w.step {
        Step::LoadWanted => either(w, yes, Step::Load, Step::KillsWanted),
        Step::KillsWanted => either(w, yes, Step::KillPattern, Step::AppName),
        Step::MoreKills => either(w, yes, Step::KillPattern, Step::AppName),
        Step::TextWanted => if yes {
            (
                WizardView { step: Step::TextStep, commands: seq![], ..w },
                ReplyView::Tell(TEXT_INTRO@),
            )
        } else {
            on_to(w, Step::TimerWanted)
        },
        Step::TimerWanted => if yes {
            (
                WizardView {
                    step: Step::TimerAction,
                    event: TimedEventView { target: w.target, ..no_timed_event() },
                    ..w
                },
                ReplyView::Next,
            )
        } else {
            on_to(w, Step::CheckPreview)
        },
        Step::TimerRepeat => (
            WizardView {
                step: Step::CheckPreview,
                config: ConfigView {
                    refreshes: w.config.refreshes.push(TimedEventView { repeat: yes, ..w.event }),
                    ..w.config
                },
                event: no_timed_event(),
                ..w
            },
            ReplyView::Next,
        ),
        Step::PreviewWanted => if yes {
            (
                WizardView {
                    step: Step::Preview,
                    output: launch_part(previewed(w.config)),
                    ..w
                },
                ReplyView::Next,
            )
        } else {
            on_to(w, Step::MoreApps)
        },
        Step::MoreApps => either(w, yes, Step::AppName, Step::RerunWanted),
        Step::RerunWanted => if yes {
            on_to(w, Step::RerunAfter)
        } else {
            completed(w)
        },
        Step::ScriptWanted => if yes {
            match script_of(w.config) {
                Err(error) => (w, ReplyView::Fail(error)),
                Ok(script) => (
                    WizardView { step: Step::WriteScript, output: script, ..w },
                    ReplyView::Next,
                ),
            }
        } else {
            on_to(w, Step::Finished)
        },
        _ => (w, ReplyView::Mismatch),
    }
}

impl Wizard {
    fn start_timer(&mut self)
        ensures
            final(self).deep_view() == (WizardView {
                step: Step::TimerAction,
                event: TimedEventView { target: old(self).deep_view().target, ..no_timed_event() },
                ..old(self).deep_view()
            }),
    {
        self.event = TimedEvent {
            target: self.target.clone(),
            after: DurationSpec::default(),
            action: RefreshAction::Reload,
            repeat: false,
        };
        self.step = Step::TimerAction;
    }

    fn add_timer(&mut self, repeat: bool)
        ensures
            final(self).deep_view() == (WizardView {
                step: Step::CheckPreview,
                config: ConfigView {
                    refreshes: old(self).deep_view().config.refreshes.push(
                        TimedEventView { repeat, ..old(self).deep_view().event },
                    ),
                    ..old(self).deep_view().config
                },
                event: no_timed_event(),
                ..old(self).deep_view()
            }),
    {
        let ghost before = self.config.refreshes.deep_view();
        let mut event = TimedEvent::default();
        core::mem::swap(&mut event, &mut self.event);
        event.repeat = repeat;
        self.config.refreshes.push(event);
        assert(self.config.refreshes.deep_view() == before.push(event.deep_view()));
        self.step = Step::CheckPreview;
    }

    fn take_flag(&mut self, yes: bool) -> (reply: Reply)
        ensures
            (final(self).deep_view(), reply.deep_view()) == flag_taken(old(self).deep_view(), yes),
    {
        match self.step {
            Step::LoadWanted => {
                self.step = if yes {
                    Step::Load
                } else {
                    Step::KillsWanted
                };
            },
            Step::KillsWanted => {
                self.step = if yes {
                    Step::KillPattern
                } else {
                    Step::AppName
                };
            },
            Step::MoreKills => {
                self.step = if yes {
                    Step::KillPattern
                } else {
                    Step::AppName
                };
            },
            Step::TextWanted => {
                if yes {
                    self.commands = Vec::new();
                    self.step = Step::TextStep;
                    return Reply::Tell(TEXT_INTRO.to_owned());
                }
                self.step = Step::TimerWanted;
            },
            Step::TimerWanted => {
                if yes {
                    self.start_timer();
                } else {
                    self.step = Step::CheckPreview;
                }
            },
            Step::TimerRepeat => {
                self.add_timer(yes);
            },
            Step::PreviewWanted => {
                if yes {
                    self.output = preview_script(&self.config);
                    self.step = Step::Preview;
                } else {
                    self.step = Step::MoreApps;
                }
            },
            Step::MoreApps => {
                self.step = if yes {
                    Step::AppName
                } else {
                    Step::RerunWanted
                };
            },
            Step::RerunWanted => {
                if !yes {
                    return self.complete();
                }
                self.step = Step::RerunAfter;
            },
            Step::ScriptWanted => {
                if yes {
                    match generate_script(&self.config) {
                        Err(error) => {
                            return Reply::Fail(error);
                        },
                        Ok(script) => {
                            self.output = script;
                            self.step = Step::WriteScript;
                        },
                    }
                } else {
                    self.step = Step::Finished;
                }
            },
            _ => {
                return Reply::Mismatch;
            },
        }
        Reply::Next
    }
}

// All inputs.

pub open spec fn answer_taken(w: WizardView, answer: AnswerView) -> Turn {
    match answer {
        AnswerView::Text(value) => detail_taken(w, value),
        AnswerView::Number(number) => number_taken(w, number),
        AnswerView::Flag(yes) => flag_taken(w, yes),
    }
}

/// The pages that are open, each on a line with its number.
pub open spec fn url_list(urls: Seq<Seq<char>>) -> Seq<char>
    decreases urls.len(),
{
    if urls.len() == 0 {
        "Open Chromium URLs:"@
    } else {
        url_list(urls.drop_last()) + "\n  "@ + decimal_of(urls.len()) + ". "@ + urls.last()
    }
}

fn list_urls(urls: &Vec<String>) -> (s: String)
    ensures
        s@ == url_list(urls.deep_view()),
{
    let ghost all = urls.deep_view();
    let mut s = "Open Chromium URLs:".to_owned();
    for i in 0..urls.len()
        invariant
            all == urls.deep_view(),
            s@ == url_list(all.take(i as int)),
    {
        let ghost before = s@;
        s.append("\n  ");
        s.append(&decimal((i + 1) as u64));
        s.append(". ");
        s.append(&urls[i]);
        proof {
            assert(all[i as int] == urls@[i as int]@);
            assert(all.take(i + 1).drop_last() == all.take(i as int));
            assert(all.take(i + 1).last() == all[i as int]);
        }
    }
    assert(all.take(all.len() as int) == all);
    s
}

/// The pages that are open are offered; if there are none, no page is.
pub open spec fn urls_taken(w: WizardView, urls: Seq<Seq<char>>) -> Turn {
    if urls.len() == 0 {
        (WizardView { step: Step::Url, urls, url: seq![], ..w }, ReplyView::Tell(NO_URLS@))
    } else {
        (WizardView { step: Step::UrlPick, urls, ..w }, ReplyView::Tell(url_list(urls)))
    }
}

/// A config that was loaded takes the place of the one that there was.
pub open spec fn config_taken(w: WizardView, text: Seq<char>) -> Turn {
    match config_of(text) {
        Err(stop) => (w, stop_reply(stop)),
        Ok(config) => (WizardView { step: Step::KillsWanted, config, ..w }, ReplyView::Next),
    }
}

/// What an input does, and the reply to it.
pub open spec fn turn(w: WizardView, input: InputView) -> Turn {
    match (input, w.step) {
        (InputView::Loaded(text), Step::Load) => config_taken(w, text),
        (InputView::Urls(urls), Step::FindUrls) => urls_taken(w, urls),
        (InputView::Keys(keys), Step::Record) => (
            WizardView { step: Step::TextStep, commands: w.commands + keys, ..w },
            ReplyView::Next,
        ),
        (InputView::Possible(yes), Step::CheckPreview) => either(
            w,
            yes,
            Step::PreviewWanted,
            Step::MoreApps,
        ),
        (InputView::Done, Step::Preview) => on_to(w, Step::MoreApps),
        (InputView::Done, Step::Save) => on_to(w, Step::ScriptWanted),
        (InputView::Done, Step::WriteScript) => on_to(w, Step::Finished),
        (InputView::Line(line), _) => match asked(w) {
            None => (w, ReplyView::Mismatch),
            Some(question) => match reading(question, line) {
                Err(complaint) => (w, ReplyView::Tell(complaint)),
                Ok(answer) => answer_taken(w, answer),
            },
        },
        _ => (w, ReplyView::Mismatch),
    }
}

impl Wizard {
    fn take_line(&mut self, line: &str) -> (reply: Reply)
        ensures
            (final(self).deep_view(), reply.deep_view()) == turn(
                old(self).deep_view(),
                InputView::Line(line@),
            ),
    {
        match self.question() {
            None => Reply::Mismatch,
            Some(question) => match question.read(line) {
                Err(complaint) => Reply::Tell(complaint),
                Ok(answer) => match answer {
                    Answer::Text(value) => self.take_detail(value),
                    Answer::Number(number) => self.take_number(number),
                    Answer::Flag(yes) => self.take_flag(yes),
                },
            },
        }
    }

    fn take_keys(&mut self, keys: Vec<TextCommand>)
        ensures
            final(self).deep_view() == (WizardView {
                step: Step::TextStep,
                commands: old(self).deep_view().commands + keys.deep_view(),
                ..old(self).deep_view()
            }),
    {
        let ghost before = self.commands.deep_view();
        let mut keys = keys;
        let ghost more = keys.deep_view();
        self.commands.append(&mut keys);
        assert(self.commands.deep_view() == before + more);
        self.step = Step::TextStep;
    }

    /// Takes what came of the last request.
    pub fn answer(&mut self, input: Input) -> (reply: Reply)
        ensures
            (final(self).deep_view(), reply.deep_view()) == turn(
                old(self).deep_view(),
                input.deep_view(),
            ),
    {
        match (input, self.step) {
            (Input::Loaded(text), Step::Load) => match checked_parse_config(&text) {
                None => Reply::Overflow,
                Some(Err(error)) => Reply::Fail(error),
                Some(Ok(config)) => {
                    self.config = config;
                    self.step = Step::KillsWanted;
                    Reply::Next
                },
            },
            (Input::Urls(urls), Step::FindUrls) => {
                if urls.len() == 0 {
                    self.urls = urls;
                    self.url = String::new();
                    self.step = Step::Url;
                    Reply::Tell(NO_URLS.to_owned())
                } else {
                    let list = list_urls(&urls);
                    self.urls = urls;
                    self.step = Step::UrlPick;
                    Reply::Tell(list)
                }
            },
            (Input::Keys(keys), Step::Record) => {
                self.take_keys(keys);
                Reply::Next
            },
            (Input::Possible(yes), Step::CheckPreview) => {
                self.step = if yes {
                    Step::PreviewWanted
                } else {
                    Step::MoreApps
                };
                Reply::Next
            },
            (Input::Done, Step::Preview) => {
                self.step = Step::MoreApps;
                Reply::Next
            },
            (Input::Done, Step::Save) => {
                self.step = Step::ScriptWanted;
                Reply::Next
            },
            (Input::Done, Step::WriteScript) => {
                self.step = Step::Finished;
                Reply::Next
            },
            (Input::Line(line), _) => self.take_line(&line),
            _ => Reply::Mismatch,
        }
    }
}

} // verus!
