//! The dialogue that makes a config: what is asked next, and what an answer does.
//!
//! A [`Wizard`] does nothing to the world by itself. It says what it needs by a [`Request`], and
//! takes what came of it as an [`Input`].
use crate::config::{
    no_app, no_config, no_kill, no_timed_event, App, AppView, Config, ConfigView, KillRule,
    KillRuleView, TextCommand, TextCommandView, TimedEvent, TimedEventView,
};
use crate::error::{Error, ErrorView};
use crate::prompt::{Question, QuestionView};
use crate::shell::{file_safe, file_safe_text};
use vstd::prelude::*;

verus! {

/// Where the dialogue stands: what is waited for.
#[derive(Debug, Clone, Copy, PartialEq, Eq, Structural)]
pub enum Step {
    LoadWanted,
    Load,
    KillsWanted,
    KillPattern,
    KillName,
    KillSignal,
    MoreKills,
    AppName,
    Kind,
    Browser,
    BrowserArgs,
    FindUrls,
    UrlPick,
    Url,
    Profile,
    Command,
    Args,
    Workspace,
    Match,
    Title,
    Layout,
    StartupDelay,
    TextWanted,
    TextStep,
    TextType,
    TextEnv,
    TextKey,
    TextWait,
    Record,
    TextDelay,
    TimerWanted,
    TimerAction,
    TimerAfter,
    TimerRepeat,
    CheckPreview,
    PreviewWanted,
    Preview,
    MoreApps,
    RerunWanted,
    RerunAfter,
    Save,
    ScriptWanted,
    WriteScript,
    Finished,
}

#[derive(Debug)]
pub struct Wizard {
    pub step: Step,
    /// Where the config is to be saved.
    pub path: String,
    pub config: Config,
    /// The kill rule that is being asked for.
    pub kill: KillRule,
    /// The app that is being asked for.
    pub app: App,
    /// The pages that the browser has open.
    pub urls: Vec<String>,
    /// The page that is offered for the app.
    pub url: String,
    /// The text commands that are being asked for.
    pub commands: Vec<TextCommand>,
    /// The app that was added last.
    pub target: String,
    /// The timer that is being asked for.
    pub event: TimedEvent,
    /// The text that is to be saved or run.
    pub output: String,
}

#[verifier::ext_equal]
pub struct WizardView {
    pub step: Step,
    pub path: Seq<char>,
    pub config: ConfigView,
    pub kill: KillRuleView,
    pub app: AppView,
    pub urls: Seq<Seq<char>>,
    pub url: Seq<char>,
    pub commands: Seq<TextCommandView>,
    pub target: Seq<char>,
    pub event: TimedEventView,
    pub output: Seq<char>,
}

impl DeepView for Wizard {
    type V = WizardView;

    open spec fn deep_view(&self) -> WizardView {
        WizardView {
            step: self.step,
            path: self.path@,
            config: self.config.deep_view(),
            kill: self.kill.deep_view(),
            app: self.app.deep_view(),
            urls: self.urls.deep_view(),
            url: self.url@,
            commands: self.commands.deep_view(),
            target: self.target@,
            event: self.event.deep_view(),
            output: self.output@,
        }
    }
}

/// What a wizard needs done.
#[derive(Debug)]
pub enum Request {
    /// Ask this and give the line that comes back.
    Ask(Question),
    /// Give the text of the config that there is.
    Load,
    /// Give the pages that the browser has open.
    FindUrls,
    /// Give the keys that the user presses.
    Record,
    /// Say whether a preview can be run.
    CheckPreview,
    /// Run this script.
    Preview(String),
    /// Save this config.
    Save(String),
    /// Save this script beside the config.
    WriteScript(String),
    /// Nothing more.
    Finish,
}

#[verifier::ext_equal]
pub enum RequestView {
    Ask(QuestionView),
    Load,
    FindUrls,
    Record,
    CheckPreview,
    Preview(Seq<char>),
    Save(Seq<char>),
    WriteScript(Seq<char>),
    Finish,
}

impl DeepView for Request {
    type V = RequestView;

    open spec fn deep_view(&self) -> RequestView {
        match self {
            Request::Ask(question) => RequestView::Ask(question.deep_view()),
            Request::Load => RequestView::Load,
            Request::FindUrls => RequestView::FindUrls,
            Request::Record => RequestView::Record,
            Request::CheckPreview => RequestView::CheckPreview,
            Request::Preview(script) => RequestView::Preview(script@),
            Request::Save(text) => RequestView::Save(text@),
            Request::WriteScript(script) => RequestView::WriteScript(script@),
            Request::Finish => RequestView::Finish,
        }
    }
}

/// What came of a request.
#[derive(Debug)]
pub enum Input {
    /// The line that was typed.
    Line(String),
    /// The text of the config.
    Loaded(String),
    /// The pages that are open.
    Urls(Vec<String>),
    /// The keys that were pressed.
    Keys(Vec<TextCommand>),
    /// Whether a preview can be run.
    Possible(bool),
    /// What was asked for was done.
    Done,
}

#[verifier::ext_equal]
pub enum InputView {
    Line(Seq<char>),
    Loaded(Seq<char>),
    Urls(Seq<Seq<char>>),
    Keys(Seq<TextCommandView>),
    Possible(bool),
    Done,
}

impl DeepView for Input {
    type V = InputView;

    open spec fn deep_view(&self) -> InputView {
        match self {
            Input::Line(line) => InputView::Line(line@),
            Input::Loaded(text) => InputView::Loaded(text@),
            Input::Urls(urls) => InputView::Urls(urls.deep_view()),
            Input::Keys(keys) => InputView::Keys(keys.deep_view()),
            Input::Possible(possible) => InputView::Possible(*possible),
            Input::Done => InputView::Done,
        }
    }
}

/// What an input leads to.
#[derive(Debug)]
pub enum Reply {
    /// On to the next request.
    Next,
    /// On to the next request, once the user was told this.
    Tell(String),
    /// The dialogue ends with an error.
    Fail(Error),
    /// The dialogue ends: a duration has more seconds than 64 bits can count.
    Overflow,
    /// The input is not what was asked for.
    Mismatch,
}

#[verifier::ext_equal]
pub enum ReplyView {
    Next,
    Tell(Seq<char>),
    Fail(ErrorView),
    Overflow,
    Mismatch,
}

impl DeepView for Reply {
    type V = ReplyView;

    open spec fn deep_view(&self) -> ReplyView {
        match self {
            Reply::Next => ReplyView::Next,
            Reply::Tell(text) => ReplyView::Tell(text@),
            Reply::Fail(error) => ReplyView::Fail(error.deep_view()),
            Reply::Overflow => ReplyView::Overflow,
            Reply::Mismatch => ReplyView::Mismatch,
        }
    }
}

// Requests.

pub const TEXT_INTRO: &'static str =
    "Build text-entry steps. Use explicit waits when pages are slow.\nStep types: type, env, key, wait, record, done.\nRecording uses xinput/xmodmap when available and stops when you press End.\n";

pub const ARGS_HINT: &'static str =
    "Args are passed through a shell. For terminals, use something like: -e sh -lc 'cd ~/lab && ./plc_pinger.sh; exec sh'";

pub const NO_URLS: &'static str =
    "No Chromium DevTools URLs found. To enable import, launch Chromium with --remote-debugging-port=9222.";

pub const NO_APPS: &'static str = "At least one app is required.";

pub open spec fn text_question(label: Seq<char>, default: Seq<char>) -> Option<QuestionView> {
    Some(QuestionView::Text { label, default })
}

pub open spec fn flag_question(label: Seq<char>, default: bool) -> Option<QuestionView> {
    Some(QuestionView::Flag { label, default })
}

pub open spec fn kinds() -> Seq<Seq<char>> {
    seq!["web"@, "native"@]
}

pub open spec fn text_steps() -> Seq<Seq<char>> {
    seq!["type"@, "key"@, "wait"@, "env"@, "record"@, "done"@]
}

pub open spec fn timed_actions() -> Seq<Seq<char>> {
    seq!["reload"@, "relaunch"@]
}

/// The question that a step asks, if it asks one.
pub open spec fn asked(w: WizardView) -> Option<QuestionView> {
    match w.step {
        Step::LoadWanted => flag_question("Load existing "@ + w.path + "?"@, true),
        Step::KillsWanted => flag_question(
            "Add process kill rules before launching apps?"@,
            false,
        ),
        Step::KillPattern => text_question("Process pattern to stop"@, seq![]),
        Step::KillName => text_question("Friendly name"@, w.kill.pattern),
        Step::KillSignal => text_question("Signal"@, "TERM"@),
        Step::MoreKills => flag_question("Add another kill rule?"@, false),
        Step::TextWanted => flag_question("Add login/text-entry automation for this app?"@, false),
        Step::TimerWanted => flag_question("Add timed refresh/relaunch for this app?"@, false),
        Step::TimerAction => Some(
            QuestionView::Choice {
                label: "Timed action"@,
                choices: timed_actions(),
                default: "reload"@,
            },
        ),
        Step::TimerAfter => text_question("Run action after"@, "30m"@),
        Step::TimerRepeat => flag_question("Repeat this timed action forever?"@, true),
        Step::PreviewWanted => flag_question(
            "Preview current config in an i3 test workspace?"@,
            false,
        ),
        Step::MoreApps => flag_question("Add another app?"@, true),
        Step::RerunWanted => flag_question("Rerun the full script on a timer?"@, false),
        Step::RerunAfter => text_question("Rerun after"@, "6h"@),
        Step::ScriptWanted => flag_question("Generate launch script beside the config?"@, true),
        _ => asked_of_app(w),
    }
}

/// The question that a step asks about an app or about the text to enter into it.
pub open spec fn asked_of_app(w: WizardView) -> Option<QuestionView> {
    match w.step {
        Step::AppName => text_question("App name"@, seq![]),
        Step::Kind => Some(
            QuestionView::Choice { label: "App type"@, choices: kinds(), default: "web"@ },
        ),
        Step::Browser => text_question("Browser command"@, "chromium-browser"@),
        Step::BrowserArgs => text_question("Extra browser flags"@, seq![]),
        Step::UrlPick => text_question("Pick a URL number or enter a URL"@, "1"@),
        Step::Url => Some(QuestionView::Required { label: "Web app URL"@, default: w.url }),
        Step::Profile => text_question(
            "Dedicated browser profile path"@,
            "/tmp/i3-controller-"@ + file_safe_text(w.app.name),
        ),
        Step::Command => Some(QuestionView::Required { label: "Command"@, default: seq![] }),
        Step::Args => text_question("Arguments"@, seq![]),
        Step::Workspace => text_question(
            "Workspace"@,
            "i3-controller-"@ + file_safe_text(w.app.name),
        ),
        Step::Match => text_question(
            "i3 match criteria, for example title=\"Dashboard\""@,
            seq![],
        ),
        Step::Title => text_question("Window title to match exactly"@, seq![]),
        Step::Layout => text_question(
            "Layout commands separated by semicolons"@,
            "move position 0 0; resize set 1280 720"@,
        ),
        Step::StartupDelay => Some(
            QuestionView::Number { label: "Seconds to wait after launching"@, default: 5 },
        ),
        Step::TextStep => Some(
            QuestionView::Choice { label: "Step type"@, choices: text_steps(), default: "key"@ },
        ),
        Step::TextType => text_question("Text to type"@, seq![]),
        Step::TextEnv => text_question("Environment variable name"@, seq![]),
        Step::TextKey => text_question("xdotool key name"@, "Tab"@),
        Step::TextWait => Some(QuestionView::Number { label: "Wait seconds"@, default: 2 }),
        Step::TextDelay => Some(
            QuestionView::Number {
                label: "Seconds to wait before text entry starts"@,
                default: 5,
            },
        ),
        _ => None,
    }
}

/// What a wizard needs next.
pub open spec fn requested(w: WizardView) -> RequestView {
    match w.step {
        Step::Load => RequestView::Load,
        Step::FindUrls => RequestView::FindUrls,
        Step::Record => RequestView::Record,
        Step::CheckPreview => RequestView::CheckPreview,
        Step::Preview => RequestView::Preview(w.output),
        Step::Save => RequestView::Save(w.output),
        Step::WriteScript => RequestView::WriteScript(w.output),
        _ => match asked(w) {
            Some(question) => RequestView::Ask(question),
            None => RequestView::Finish,
        },
    }
}

fn ask_text(label: &str, default: &str) -> (q: Option<Question>)
    ensures
        q.deep_view() == text_question(label@, default@),
{
    Some(Question::Text { label: label.to_owned(), default: default.to_owned() })
}

fn ask_flag(label: &str, default: bool) -> (q: Option<Question>)
    ensures
        q.deep_view() == flag_question(label@, default),
{
    Some(Question::Flag { label: label.to_owned(), default })
}

fn ask_number(label: &str, default: u64) -> (q: Option<Question>)
    ensures
        q.deep_view() == Some(QuestionView::Number { label: label@, default }),
{
    Some(Question::Number { label: label.to_owned(), default })
}

fn ask_required(label: &str, default: &str) -> (q: Option<Question>)
    ensures
        q.deep_view() == Some(QuestionView::Required { label: label@, default: default@ }),
{
    Some(Question::Required { label: label.to_owned(), default: default.to_owned() })
}

fn ask_choice(label: &str, choices: Vec<&'static str>, default: &str) -> (q: Option<Question>)
    ensures
        q.deep_view() == Some(
            QuestionView::Choice { label: label@, choices: choices.deep_view(), default: default@ },
        ),
{
    Some(Question::Choice { label: label.to_owned(), choices, default: default.to_owned() })
}

impl Wizard {
    /// A wizard for the config at this path. If there is one already it may be loaded.
    pub fn new(path: &str, exists: bool) -> (wizard: Wizard)
        ensures
            wizard.deep_view() == started(path@, exists),
    {
        Wizard {
            step: if exists {
                Step::LoadWanted
            } else {
                Step::KillsWanted
            },
            path: path.to_owned(),
            config: Config::default(),
            kill: KillRule::default(),
            app: App::default(),
            urls: Vec::new(),
            url: String::new(),
            commands: Vec::new(),
            target: String::new(),
            event: TimedEvent::default(),
            output: String::new(),
        }
    }

    fn question_of_app(&self) -> (q: Option<Question>)
        ensures
            q.deep_view() == asked_of_app(self.deep_view()),
    {
        proof {
            crate::text::lemma_empty_line();
        }
        match self.step {
            Step::AppName => ask_text("App name", ""),
            Step::Kind => {
                let choices = vec!["web", "native"];
                assert(choices.deep_view() == kinds());
                ask_choice("App type", choices, "web")
            },
            Step::Browser => ask_text("Browser command", "chromium-browser"),
            Step::BrowserArgs => ask_text("Extra browser flags", ""),
            Step::UrlPick => ask_text("Pick a URL number or enter a URL", "1"),
            Step::Url => ask_required("Web app URL", &self.url),
            Step::Profile => ask_text(
                "Dedicated browser profile path",
                &"/tmp/i3-controller-".to_owned().concat(&file_safe(&self.app.name)),
            ),
            Step::Command => ask_required("Command", ""),
            Step::Args => ask_text("Arguments", ""),
            Step::Workspace => ask_text(
                "Workspace",
                &"i3-controller-".to_owned().concat(&file_safe(&self.app.name)),
            ),
            Step::Match => ask_text("i3 match criteria, for example title=\"Dashboard\"", ""),
            Step::Title => ask_text("Window title to match exactly", ""),
            Step::Layout => ask_text(
                "Layout commands separated by semicolons",
                "move position 0 0; resize set 1280 720",
            ),
            Step::StartupDelay => ask_number("Seconds to wait after launching", 5),
            Step::TextStep => {
                let choices = vec!["type", "key", "wait", "env", "record", "done"];
                assert(choices.deep_view() == text_steps());
                ask_choice("Step type", choices, "key")
            },
            Step::TextType => ask_text("Text to type", ""),
            Step::TextEnv => ask_text("Environment variable name", ""),
            Step::TextKey => ask_text("xdotool key name", "Tab"),
            Step::TextWait => ask_number("Wait seconds", 2),
            Step::TextDelay => ask_number("Seconds to wait before text entry starts", 5),
            _ => None,
        }
    }

    /// The question that is asked next, if one is.
    pub fn question(&self) -> (q: Option<Question>)
        ensures
            q.deep_view() == asked(self.deep_view()),
    {
        proof {
            crate::text::lemma_empty_line();
        }
        match self.step {
            Step::LoadWanted => ask_flag(
                &"Load existing ".to_owned().concat(&self.path).concat("?"),
                true,
            ),
            Step::KillsWanted => ask_flag("Add process kill rules before launching apps?", false),
            Step::KillPattern => ask_text("Process pattern to stop", ""),
            Step::KillName => ask_text("Friendly name", &self.kill.pattern),
            Step::KillSignal => ask_text("Signal", "TERM"),
            Step::MoreKills => ask_flag("Add another kill rule?", false),
            Step::TextWanted => ask_flag("Add login/text-entry automation for this app?", false),
            Step::TimerWanted => ask_flag("Add timed refresh/relaunch for this app?", false),
            Step::TimerAction => {
                let choices = vec!["reload", "relaunch"];
                assert(choices.deep_view() == timed_actions());
                ask_choice("Timed action", choices, "reload")
            },
            Step::TimerAfter => ask_text("Run action after", "30m"),
            Step::TimerRepeat => ask_flag("Repeat this timed action forever?", true),
            Step::PreviewWanted => ask_flag(
                "Preview current config in an i3 test workspace?",
                false,
            ),
            Step::MoreApps => ask_flag("Add another app?", true),
            Step::RerunWanted => ask_flag("Rerun the full script on a timer?", false),
            Step::RerunAfter => ask_text("Rerun after", "6h"),
            Step::ScriptWanted => ask_flag("Generate launch script beside the config?", true),
            _ => self.question_of_app(),
        }
    }

    /// What is needed next.
    pub fn request(&self) -> (r: Request)
        ensures
            r.deep_view() == requested(self.deep_view()),
    {
        match self.step {
            Step::Load => Request::Load,
            Step::FindUrls => Request::FindUrls,
            Step::Record => Request::Record,
            Step::CheckPreview => Request::CheckPreview,
            Step::Preview => Request::Preview(self.output.clone()),
            Step::Save => Request::Save(self.output.clone()),
            Step::WriteScript => Request::WriteScript(self.output.clone()),
            _ => match self.question() {
                Some(question) => Request::Ask(question),
                None => Request::Finish,
            },
        }
    }
}

/// A wizard at its start.
pub open spec fn started(path: Seq<char>, exists: bool) -> WizardView {
    WizardView {
        step: if exists {
            Step::LoadWanted
        } else {
            Step::KillsWanted
        },
        path,
        config: no_config(),
        kill: no_kill(),
        app: no_app(),
        urls: seq![],
        url: seq![],
        commands: seq![],
        target: seq![],
        event: no_timed_event(),
        output: seq![],
    }
}

} // verus!
