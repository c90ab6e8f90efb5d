//! What a config holds: the windows to launch and arrange, the processes to stop first, the
//! keys to type, and the timers to run.
use vstd::prelude::*;

verus! {

/// How an app is started.
#[derive(Debug, Clone, Copy, PartialEq, Eq, Structural)]
pub enum AppKind {
    /// By a shell command.
    Native,
    /// As a page in a browser window of its own.
    Web,
}

/// What a timer does to its app.
#[derive(Debug, Clone, Copy, PartialEq, Eq, Structural)]
pub enum RefreshAction {
    Reload,
    Relaunch,
}

#[derive(Debug)]
pub struct App {
    pub name: String,
    pub kind: AppKind,
    pub command: String,
    pub args: String,
    pub url: String,
    pub browser: String,
    pub browser_args: String,
    pub profile: String,
    pub workspace: String,
    pub match_criteria: String,
    pub layout: String,
    pub startup_delay: u64,
}

#[verifier::ext_equal]
pub struct AppView {
    pub name: Seq<char>,
    pub kind: AppKind,
    pub command: Seq<char>,
    pub args: Seq<char>,
    pub url: Seq<char>,
    pub browser: Seq<char>,
    pub browser_args: Seq<char>,
    pub profile: Seq<char>,
    pub workspace: Seq<char>,
    pub match_criteria: Seq<char>,
    pub layout: Seq<char>,
    pub startup_delay: u64,
}

/// A process to stop before anything is launched.
#[derive(Debug)]
pub struct KillRule {
    pub name: String,
    pub pattern: String,
    pub signal: String,
}

#[verifier::ext_equal]
pub struct KillRuleView {
    pub name: Seq<char>,
    pub pattern: Seq<char>,
    pub signal: Seq<char>,
}

/// One step of text entry.
#[derive(Debug)]
pub enum TextCommand {
    /// Type this text.
    Type(String),
    /// Type what the environment variable of this name holds.
    TypeEnv(String),
    /// Press this key.
    Key(String),
    /// Wait so many seconds.
    Wait(u64),
}

#[verifier::ext_equal]
pub enum TextCommandView {
    Type(Seq<char>),
    TypeEnv(Seq<char>),
    Key(Seq<char>),
    Wait(u64),
}

/// Text to enter into the app named `target`.
#[derive(Debug)]
pub struct TextEntry {
    pub target: String,
    pub delay: u64,
    pub commands: Vec<TextCommand>,
}

#[verifier::ext_equal]
pub struct TextEntryView {
    pub target: Seq<char>,
    pub delay: u64,
    pub commands: Seq<TextCommandView>,
}

/// A span of time: as it was written, and in seconds.
#[derive(Debug)]
pub struct DurationSpec {
    pub raw: String,
    pub seconds: u64,
}

#[verifier::ext_equal]
pub struct DurationView {
    pub raw: Seq<char>,
    pub seconds: u64,
}

/// A timer on the app named `target`.
#[derive(Debug)]
pub struct TimedEvent {
    pub target: String,
    pub after: DurationSpec,
    pub action: RefreshAction,
    pub repeat: bool,
}

#[verifier::ext_equal]
pub struct TimedEventView {
    pub target: Seq<char>,
    pub after: DurationView,
    pub action: RefreshAction,
    pub repeat: bool,
}

#[derive(Debug)]
pub struct Config {
    pub apps: Vec<App>,
    pub kills: Vec<KillRule>,
    pub text_entries: Vec<TextEntry>,
    pub refreshes: Vec<TimedEvent>,
    pub rerun: Option<DurationSpec>,
}

#[verifier::ext_equal]
pub struct ConfigView {
    pub apps: Seq<AppView>,
    pub kills: Seq<KillRuleView>,
    pub text_entries: Seq<TextEntryView>,
    pub refreshes: Seq<TimedEventView>,
    pub rerun: Option<DurationView>,
}

/// A header of a config file with the `key=value` pairs below it.
#[derive(Debug)]
pub struct Block {
    pub name: String,
    pub pairs: Vec<(String, String)>,
}

#[verifier::ext_equal]
pub struct BlockView {
    pub name: Seq<char>,
    pub pairs: Seq<(Seq<char>, Seq<char>)>,
}

impl DeepView for AppKind {
    type V = AppKind;

    open spec fn deep_view(&self) -> AppKind {
        *self
    }
}

impl DeepView for App {
    type V = AppView;

    open spec fn deep_view(&self) -> AppView {
        AppView {
            name: self.name@,
            kind: self.kind,
            command: self.command@,
            args: self.args@,
            url: self.url@,
            browser: self.browser@,
            browser_args: self.browser_args@,
            profile: self.profile@,
            workspace: self.workspace@,
            match_criteria: self.match_criteria@,
            layout: self.layout@,
            startup_delay: self.startup_delay,
        }
    }
}

impl DeepView for KillRule {
    type V = KillRuleView;

    open spec fn deep_view(&self) -> KillRuleView {
        KillRuleView { name: self.name@, pattern: self.pattern@, signal: self.signal@ }
    }
}

impl DeepView for TextCommand {
    type V = TextCommandView;

    open spec fn deep_view(&self) -> TextCommandView {
        match self {
            TextCommand::Type(text) => TextCommandView::Type(text@),
            TextCommand::TypeEnv(name) => TextCommandView::TypeEnv(name@),
            TextCommand::Key(key) => TextCommandView::Key(key@),
            TextCommand::Wait(seconds) => TextCommandView::Wait(*seconds),
        }
    }
}

impl DeepView for TextEntry {
    type V = TextEntryView;

    open spec fn deep_view(&self) -> TextEntryView {
        TextEntryView {
            target: self.target@,
            delay: self.delay,
            commands: self.commands.deep_view(),
        }
    }
}

impl DeepView for DurationSpec {
    type V = DurationView;

    open spec fn deep_view(&self) -> DurationView {
        DurationView { raw: self.raw@, seconds: self.seconds }
    }
}

impl DeepView for TimedEvent {
    type V = TimedEventView;

    open spec fn deep_view(&self) -> TimedEventView {
        TimedEventView {
            target: self.target@,
            after: self.after.deep_view(),
            action: self.action,
            repeat: self.repeat,
        }
    }
}

impl DeepView for Config {
    type V = ConfigView;

    open spec fn deep_view(&self) -> ConfigView {
        ConfigView {
            apps: self.apps.deep_view(),
            kills: self.kills.deep_view(),
            text_entries: self.text_entries.deep_view(),
            refreshes: self.refreshes.deep_view(),
            rerun: self.rerun.deep_view(),
        }
    }
}

impl DeepView for Block {
    type V = BlockView;

    open spec fn deep_view(&self) -> BlockView {
        BlockView { name: self.name@, pairs: self.pairs.deep_view() }
    }
}

// Values with nothing set.

pub open spec fn no_app() -> AppView {
    AppView {
        name: seq![],
        kind: AppKind::Native,
        command: seq![],
        args: seq![],
        url: seq![],
        browser: seq![],
        browser_args: seq![],
        profile: seq![],
        workspace: seq![],
        match_criteria: seq![],
        layout: seq![],
        startup_delay: 0,
    }
}

pub open spec fn no_kill() -> KillRuleView {
    KillRuleView { name: seq![], pattern: seq![], signal: seq![] }
}

pub open spec fn no_text_entry() -> TextEntryView {
    TextEntryView { target: seq![], delay: 0, commands: seq![] }
}

pub open spec fn no_duration() -> DurationView {
    DurationView { raw: seq![], seconds: 0 }
}

pub open spec fn no_timed_event() -> TimedEventView {
    TimedEventView {
        target: seq![],
        after: no_duration(),
        action: RefreshAction::Reload,
        repeat: false,
    }
}

pub open spec fn no_config() -> ConfigView {
    ConfigView {
        apps: seq![],
        kills: seq![],
        text_entries: seq![],
        refreshes: seq![],
        rerun: None,
    }
}

impl Default for AppKind {
    fn default() -> (kind: AppKind)
        ensures
            kind == AppKind::Native,
    {
        AppKind::Native
    }
}

impl Default for RefreshAction {
    fn default() -> (action: RefreshAction)
        ensures
            action == RefreshAction::Reload,
    {
        RefreshAction::Reload
    }
}

impl Default for App {
    fn default() -> (app: App)
        ensures
            app.deep_view() == no_app(),
    {
        App {
            name: String::new(),
            kind: AppKind::Native,
            command: String::new(),
            args: String::new(),
            url: String::new(),
            browser: String::new(),
            browser_args: String::new(),
            profile: String::new(),
            workspace: String::new(),
            match_criteria: String::new(),
            layout: String::new(),
            startup_delay: 0,
        }
    }
}

impl Default for KillRule {
    fn default() -> (kill: KillRule)
        ensures
            kill.deep_view() == no_kill(),
    {
        KillRule { name: String::new(), pattern: String::new(), signal: String::new() }
    }
}

impl Default for TextEntry {
    fn default() -> (entry: TextEntry)
        ensures
            entry.deep_view() == no_text_entry(),
    {
        TextEntry { target: String::new(), delay: 0, commands: Vec::new() }
    }
}

impl Default for DurationSpec {
    fn default() -> (duration: DurationSpec)
        ensures
            duration.deep_view() == no_duration(),
    {
        DurationSpec { raw: String::new(), seconds: 0 }
    }
}

impl Clone for DurationSpec {
    fn clone(&self) -> (duration: DurationSpec)
        ensures
            duration == *self,
    {
        DurationSpec { raw: self.raw.clone(), seconds: self.seconds }
    }
}

impl Default for TimedEvent {
    fn default() -> (event: TimedEvent)
        ensures
            event.deep_view() == no_timed_event(),
    {
        TimedEvent {
            target: String::new(),
            after: DurationSpec { raw: String::new(), seconds: 0 },
            action: RefreshAction::Reload,
            repeat: false,
        }
    }
}

impl Default for Config {
    fn default() -> (config: Config)
        ensures
            config.deep_view() == no_config(),
    {
        Config {
            apps: Vec::new(),
            kills: Vec::new(),
            text_entries: Vec::new(),
            refreshes: Vec::new(),
            rerun: None,
        }
    }
}

} // verus!
