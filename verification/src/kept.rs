//! What a wizard saves can be read back.
use crate::answers::{
    detail_taken, draft_taken, flag_taken, named_app, number_taken, title_criteria, turn,
};
use crate::config::{AppView, ConfigView, KillRuleView, TextCommandView, TimedEventView};
use crate::dialogue::{is_sound, law_wizard_stays_sound, run};
use crate::facts::{
    has_char, is_line_text, lemma_concat_chars, lemma_trim_range, lemma_trimmed_chars,
    lemma_trimmed_iff, lemma_trimmed_twice, trim_range,
};
use crate::parse::config_of;
use crate::parsed::{has_line_texts, law_parsed_config_is_writable, lemma_duration_is_written};
use crate::prompt::{answer_of, reading, AnswerView, QuestionView};
use crate::read_back::{
    are_writable_commands, is_writable, is_writable_app, is_writable_command,
    is_writable_event, is_writable_kill, is_written_duration, law_written_config_is_restored,
    restored, restored_app, restored_kill,
};
use crate::shell::{file_safe_text, law_file_safe, variable_check};
use crate::text::{replaced, starts_with, trimmed};
use crate::validate::{app_check, is_named, is_valid};
use crate::values::{duration_of, Stop};
use crate::wizard::{asked, started, InputView, Step, WizardView};
use vstd::prelude::*;

verus! {

// Texts that fit in one line.

/// A line as it is read: a line break stands at its end or nowhere.
pub open spec fn is_read_line(line: Seq<char>) -> bool {
    forall|i: int| 0 <= i < line.len() - 1 ==> #[trigger] line[i] != '\n'
}

/// The answer in a line fits in one line.
proof fn lemma_answer_text(line: Seq<char>, default: Seq<char>)
    requires
        is_read_line(line),
        is_line_text(default),
    ensures
        is_line_text(answer_of(line, default)),
{
    lemma_trimmed_twice(line);
    lemma_trim_range(line);
    let (i, j) = trim_range(line);
    let text = trimmed(line);
    assert forall|k: int| 0 <= k < text.len() implies #[trigger] text[k] != '\n' by {
        assert(text[k] == line[i + k]);
        if i + k == line.len() - 1 {
            assert(text.last() == text[k]);
        }
    }
}

/// The texts that are offered fit in one line.
proof fn lemma_offered_texts()
    ensures
        is_line_text(Seq::<char>::empty()),
        is_line_text("TERM"@),
        is_line_text("chromium-browser"@),
        is_line_text("Tab"@),
        is_line_text("/tmp/i3-controller-"@),
        is_line_text("i3-controller-"@),
        is_line_text("move position 0 0; resize set 1280 720"@),
        is_line_text("title=\""@),
        is_line_text("\""@),
        !has_char("Tab"@, ';'),
{
    lemma_trimmed_iff(Seq::<char>::empty());
    reveal_strlit("TERM");
    reveal_strlit("chromium-browser");
    reveal_strlit("Tab");
    reveal_strlit("/tmp/i3-controller-");
    reveal_strlit("i3-controller-");
    reveal_strlit("move position 0 0; resize set 1280 720");
    reveal_strlit("title=\"");
    reveal_strlit("\"");
    assert("TERM"@ == seq!['T', 'E', 'R', 'M']);
    lemma_trimmed_iff("TERM"@);
    assert("chromium-browser"@ == seq![
        'c', 'h', 'r', 'o', 'm', 'i', 'u', 'm', '-', 'b', 'r', 'o', 'w', 's', 'e', 'r',
    ]);
    lemma_trimmed_iff("chromium-browser"@);
    assert("Tab"@ == seq!['T', 'a', 'b']);
    lemma_trimmed_iff("Tab"@);
    assert("/tmp/i3-controller-"@ == seq![
        '/', 't', 'm', 'p', '/', 'i', '3', '-', 'c', 'o', 'n', 't', 'r', 'o', 'l', 'l', 'e', 'r',
        '-',
    ]);
    lemma_trimmed_iff("/tmp/i3-controller-"@);
    assert("i3-controller-"@ == seq![
        'i', '3', '-', 'c', 'o', 'n', 't', 'r', 'o', 'l', 'l', 'e', 'r', '-',
    ]);
    lemma_trimmed_iff("i3-controller-"@);
    assert("move position 0 0; resize set 1280 720"@ == seq![
        'm', 'o', 'v', 'e', ' ', 'p', 'o', 's', 'i', 't', 'i', 'o', 'n', ' ', '0', ' ', '0', ';',
        ' ', 'r', 'e', 's', 'i', 'z', 'e', ' ', 's', 'e', 't', ' ', '1', '2', '8', '0', ' ', '7',
        '2', '0',
    ]);
    lemma_trimmed_iff("move position 0 0; resize set 1280 720"@);
    assert("title=\""@ == seq!['t', 'i', 't', 'l', 'e', '=', '"']);
    lemma_trimmed_iff("title=\""@);
    assert("\""@ == seq!['"']);
    lemma_trimmed_iff("\""@);
}

/// A text that fits in one line still does with another such text behind it.
proof fn lemma_longer_text(front: Seq<char>, back: Seq<char>)
    requires
        front.len() > 0,
        is_line_text(front),
        is_line_text(back),
    ensures
        is_line_text(front + back),
{
    lemma_concat_chars(front, back, '\n');
    lemma_trimmed_iff(front);
    lemma_trimmed_iff(back);
    lemma_trimmed_iff(front + back);
    if back.len() > 0 {
        assert((front + back).last() == back.last());
    } else {
        assert(front + back == front);
    }
}

proof fn lemma_file_safe_text(name: Seq<char>)
    ensures
        is_line_text(file_safe_text(name)),
{
    let s = file_safe_text(name);
    law_file_safe(name);
    lemma_trimmed_iff(s);
}

proof fn lemma_replaced_chars(s: Seq<char>, from: Seq<char>, to: Seq<char>, c: char)
    requires
        !has_char(s, c),
        !has_char(to, c),
    ensures
        !has_char(replaced(s, from, to), c),
    decreases s.len(),
{
    if s.len() > 0 && from.len() > 0 {
        if starts_with(s, from) {
            let rest = s.skip(from.len() as int);
            assert forall|i: int| 0 <= i < rest.len() implies #[trigger] rest[i] != c by {
                assert(rest[i] == s[i + from.len()]);
            }
            lemma_replaced_chars(rest, from, to, c);
            lemma_concat_chars(to, replaced(rest, from, to), c);
        } else {
            let rest = s.drop_first();
            assert forall|i: int| 0 <= i < rest.len() implies #[trigger] rest[i] != c by {
                assert(rest[i] == s[i + 1]);
            }
            lemma_replaced_chars(rest, from, to, c);
            let first = seq![s[0]];
            assert(!has_char(first, c));
            lemma_concat_chars(first, replaced(rest, from, to), c);
        }
    }
}

proof fn lemma_title_text(title: Seq<char>)
    requires
        is_line_text(title),
    ensures
        is_line_text(title_criteria(title)),
{
    lemma_offered_texts();
    if title.len() > 0 {
        let middle = replaced(title, seq!['"'], seq!['\\', '"']);
        let front = "title=\""@;
        let s = front + middle + "\""@;
        assert(!has_char(seq!['\\', '"'], '\n'));
        lemma_replaced_chars(title, seq!['"'], seq!['\\', '"'], '\n');
        lemma_concat_chars(front, middle, '\n');
        lemma_concat_chars(front + middle, "\""@, '\n');
        lemma_trimmed_iff(front);
        lemma_trimmed_iff("\""@);
        lemma_trimmed_iff(s);
        reveal_strlit("title=\"");
        reveal_strlit("\"");
        assert(s[0] == front[0]);
        assert(s.last() == "\""@.last());
    }
}

// What stays so.

/// The kill rule that is being asked for can be written as far as it is known.
pub open spec fn has_writable_kill(w: WizardView) -> bool {
    &&& is_line_text(w.kill.name)
    &&& is_line_text(w.kill.pattern)
    &&& is_line_text(w.kill.signal)
    &&& w.step == Step::KillName || w.step == Step::KillSignal ==> w.kill.pattern.len() > 0
}

/// A wizard of which everything can be written, so that what it saves can be read back.
pub open spec fn is_writable_state(w: WizardView) -> bool {
    &&& is_sound(w)
    &&& is_writable(w.config)
    &&& has_writable_kill(w)
    &&& has_line_texts(w.app)
    &&& are_writable_commands(w.commands)
    &&& w.step == Step::TextDelay ==> w.commands.len() > 0
    &&& is_line_text(w.target)
    &&& w.step == Step::TimerRepeat ==> w.event.after.seconds > 0 && is_written_duration(
        w.event.after,
    )
}

/// An input that can be written down: lines are lines, a page that is taken as it is offered fits in
/// one line, there is no semicolon in the text of a text command, and no timer runs after no time
/// at all.
pub open spec fn is_writable_input(w: WizardView, input: InputView) -> bool {
    match input {
        InputView::Line(line) => {
            &&& is_read_line(line)
            &&& w.step == Step::Url ==> is_line_text(answer_of(line, w.url))
            &&& w.step == Step::TextType || w.step == Step::TextKey ==> !has_char(line, ';')
            &&& w.step == Step::TimerAfter ==> (duration_of(answer_of(line, "30m"@)) matches Ok(
                after,
            ) ==> after.seconds > 0)
        },
        InputView::Keys(keys) => are_writable_commands(keys),
        _ => true,
    }
}

/// A config with one more kill rule can be written.
proof fn lemma_kill_added(config: ConfigView, kill: KillRuleView)
    requires
        is_writable(config),
        is_writable_kill(kill),
    ensures
        is_writable(ConfigView { kills: config.kills.push(kill), ..config }),
{
}

/// A config with one more timer can be written if it is valid.
proof fn lemma_event_added(config: ConfigView, event: TimedEventView)
    requires
        is_writable(config),
        is_writable_event(event),
        is_valid(ConfigView { refreshes: config.refreshes.push(event), ..config }),
    ensures
        is_writable(ConfigView { refreshes: config.refreshes.push(event), ..config }),
{
}

proof fn lemma_draft_writable(w: WizardView, value: Seq<char>)
    requires
        is_writable_state(w),
        is_line_text(value) || w.step == Step::Kind || w.step == Step::UrlPick,
        is_sound(draft_taken(w, value).0),
    ensures
        is_writable_state(draft_taken(w, value).0),
{
    lemma_offered_texts();
    match w.step {
        Step::KillSignal => {
            lemma_kill_added(w.config, KillRuleView { signal: value, ..w.kill });
        },
        Step::Title => {
            lemma_title_text(value);
        },
        _ => {},
    }
}

proof fn lemma_command_added(commands: Seq<TextCommandView>, command: TextCommandView)
    requires
        are_writable_commands(commands),
        is_writable_command(command),
    ensures
        are_writable_commands(commands.push(command)),
{
}

proof fn lemma_variable_value(name: Seq<char>)
    requires
        is_line_text(name),
        variable_check(name) is Ok,
    ensures
        is_writable_command(TextCommandView::TypeEnv(name)),
{
    assert forall|i: int| 0 <= i < name.len() implies #[trigger] name[i] != ';' by {}
}

/// Whether the text that a step asks for is kept as it is, and not only understood.
spec fn is_kept_text(step: Step) -> bool {
    match step {
        Step::Kind | Step::UrlPick | Step::TextStep | Step::TimerAction | Step::TimerAfter
        | Step::RerunAfter => false,
        _ => true,
    }
}

proof fn lemma_detail_writable(w: WizardView, value: Seq<char>)
    requires
        is_writable_state(w),
        is_line_text(value) || !is_kept_text(w.step),
        w.step == Step::TextType || w.step == Step::TextKey ==> !has_char(value, ';'),
        w.step == Step::TimerAfter ==> (duration_of(value) matches Ok(after) ==> after.seconds > 0),
        is_sound(detail_taken(w, value).0),
    ensures
        is_writable_state(detail_taken(w, value).0),
{
    match w.step {
        Step::TextStep | Step::TimerAction => {},
        Step::TextType => {
            lemma_command_added(w.commands, TextCommandView::Type(value));
        },
        Step::TextEnv => {
            if variable_check(value) is Ok {
                lemma_variable_value(value);
                lemma_command_added(w.commands, TextCommandView::TypeEnv(value));
            }
        },
        Step::TextKey => {
            lemma_command_added(w.commands, TextCommandView::Key(value));
        },
        Step::TimerAfter => {
            if duration_of(value) is Ok {
                lemma_duration_is_written(value);
            }
        },
        Step::RerunAfter => {
            if duration_of(value) is Ok {
                lemma_duration_is_written(value);
                let config = ConfigView { rerun: Some(duration_of(value)->Ok_0), ..w.config };
                assert(is_writable(config));
            }
        },
        _ => {
            lemma_draft_writable(w, value);
        },
    }
}

proof fn lemma_number_writable(w: WizardView, number: u64)
    requires
        is_writable_state(w),
        is_sound(number_taken(w, number).0),
    ensures
        is_writable_state(number_taken(w, number).0),
{
    lemma_offered_texts();
    match w.step {
        Step::StartupDelay => {
            let app = AppView { startup_delay: number, ..w.app };
            assert(is_writable_app(app));
        },
        Step::TextWait => {
            lemma_command_added(w.commands, TextCommandView::Wait(number));
        },
        Step::TextDelay => {
            lemma_target_named(w);
        },
        _ => {},
    }
}

/// The app that was added last has a name.
proof fn lemma_target_named(w: WizardView)
    requires
        is_valid(w.config),
        is_named(w.config.apps, w.target),
    ensures
        w.target.len() > 0,
{
    let i = choose|i: int|
        0 <= i < w.config.apps.len() && (#[trigger] w.config.apps[i]).name == w.target;
    assert(app_check(w.config.apps[i]) is Ok);
}

proof fn lemma_flag_writable(w: WizardView, yes: bool)
    requires
        is_writable_state(w),
        is_sound(flag_taken(w, yes).0),
    ensures
        is_writable_state(flag_taken(w, yes).0),
{
    let after = flag_taken(w, yes).0;
    if w.step == Step::TimerRepeat {
        lemma_target_named(w);
        lemma_event_added(w.config, TimedEventView { repeat: yes, ..w.event });
    } else if after != w {
        assert(after.config == w.config && after.kill == w.kill && after.app == w.app);
        assert(after.target == w.target);
        assert(after.commands == w.commands || after.commands.len() == 0);
        assert(after.step != Step::TimerRepeat && after.step != Step::TextDelay);
        assert(after.step != Step::KillName && after.step != Step::KillSignal);
    }
}

/// The answer that a line gives in text fits in one line.
proof fn lemma_reading_text(w: WizardView, line: Seq<char>, value: Seq<char>)
    requires
        is_writable_state(w),
        is_writable_input(w, InputView::Line(line)),
        asked(w) is Some,
        reading(asked(w)->0, line) == Ok::<AnswerView, Seq<char>>(AnswerView::Text(value)),
        is_kept_text(w.step),
    ensures
        is_line_text(value),
        w.step == Step::TextType || w.step == Step::TextKey ==> !has_char(value, ';'),
{
    lemma_offered_texts();
    let name = file_safe_text(w.app.name);
    lemma_file_safe_text(w.app.name);
    reveal_strlit("/tmp/i3-controller-");
    reveal_strlit("i3-controller-");
    lemma_longer_text("/tmp/i3-controller-"@, name);
    lemma_longer_text("i3-controller-"@, name);
    let default = match asked(w)->0 {
        QuestionView::Text { default, .. } => default,
        QuestionView::Required { default, .. } => default,
        _ => seq![],
    };
    if w.step != Step::Url {
        lemma_answer_text(line, default);
    }
    if w.step == Step::TextType || w.step == Step::TextKey {
        lemma_trimmed_chars(line, ';');
    }
}

/// At its start a wizard can be written, and an input that can be written keeps it so.
pub proof fn law_wizard_stays_writable(
    path: Seq<char>,
    exists: bool,
    w: WizardView,
    input: InputView,
)
    ensures
        is_writable_state(started(path, exists)),
        is_writable_state(w) && is_writable_input(w, input) ==> is_writable_state(
            turn(w, input).0,
        ),
{
    law_wizard_stays_sound(path, exists, w, input);
    lemma_offered_texts();
    if is_writable_state(w) && is_writable_input(w, input) {
        match input {
            InputView::Line(line) => {
                if let Some(question) = asked(w) {
                    if let Ok(answer) = reading(question, line) {
                        match answer {
                            AnswerView::Text(value) => {
                                if is_kept_text(w.step) {
                                    lemma_reading_text(w, line, value);
                                }
                                lemma_detail_writable(w, value);
                            },
                            AnswerView::Number(number) => {
                                lemma_number_writable(w, number);
                            },
                            AnswerView::Flag(yes) => {
                                lemma_flag_writable(w, yes);
                            },
                        }
                    }
                }
            },
            InputView::Loaded(text) => {
                if config_of(text) is Ok {
                    law_parsed_config_is_writable(text);
                }
            },
            _ => {},
        }
    }
}

/// What is saved can be read back: it gives the config that was made, as it is restored.
pub proof fn law_saved_config_is_restored(w: WizardView)
    requires
        is_writable_state(w),
        w.step == Step::Save,
    ensures
        config_of(w.output) == Ok::<ConfigView, Stop>(restored(w.config)),
{
    law_written_config_is_restored(w.config);
}

// Configs that were not loaded.

/// A wizard of which nothing is left out when it is written: nothing that was asked for is
/// missing, and nothing is there that was not asked for.
pub open spec fn is_exact(w: WizardView) -> bool {
    &&& restored(w.config) == w.config
    &&& is_asked_app(w) ==> restored_app(w.app) == w.app
    &&& w.step == Step::Kind ==> w.app == named_app(w.app.name)
}

/// Whether an app is being asked for.
pub open spec fn is_asked_app(w: WizardView) -> bool {
    match w.step {
        Step::Kind | Step::Browser | Step::BrowserArgs | Step::FindUrls | Step::UrlPick
        | Step::Url | Step::Profile | Step::Command | Step::Args | Step::Workspace | Step::Match
        | Step::Title | Step::Layout | Step::StartupDelay => true,
        _ => false,
    }
}

proof fn lemma_draft_exact(w: WizardView, value: Seq<char>)
    requires
        is_sound(w),
        is_exact(w),
        w.step == Step::Browser || w.step == Step::KillSignal ==> value.len() > 0,
    ensures
        is_exact(draft_taken(w, value).0),
{
    reveal_strlit("chromium-browser");
    match w.step {
        Step::KillSignal => {
            let kill = KillRuleView { signal: value, ..w.kill };
            assert(restored_kill(kill) == kill);
            let kills = w.config.kills;
            let f = |item: KillRuleView| restored_kill(item);
            assert(kills.push(kill).map_values(f) == kills.map_values(f).push(kill));
        },
        _ => {},
    }
}

proof fn lemma_detail_exact(w: WizardView, value: Seq<char>)
    requires
        is_sound(w),
        is_exact(w),
        w.step == Step::Browser || w.step == Step::KillSignal ==> value.len() > 0,
    ensures
        is_exact(detail_taken(w, value).0),
{
    match w.step {
        Step::TextStep | Step::TextType | Step::TextEnv | Step::TextKey | Step::TimerAction
        | Step::TimerAfter | Step::RerunAfter => {},
        _ => {
            lemma_draft_exact(w, value);
        },
    }
}

proof fn lemma_number_exact(w: WizardView, number: u64)
    requires
        is_exact(w),
    ensures
        is_exact(number_taken(w, number).0),
{
    if w.step == Step::StartupDelay {
        let app = AppView { startup_delay: number, ..w.app };
        assert(restored_app(app) == app);
        let apps = w.config.apps;
        let f = |item: AppView| restored_app(item);
        assert(apps.push(app).map_values(f) == apps.map_values(f).push(app));
    }
}

/// At its start a wizard is exact, and it stays so unless a config is loaded.
pub proof fn law_wizard_stays_exact(path: Seq<char>, exists: bool, w: WizardView, input: InputView)
    ensures
        is_exact(started(path, exists)),
        is_sound(w) && is_exact(w) && !(input is Loaded) ==> is_exact(turn(w, input).0),
{
    let start = started(path, exists);
    assert(restored(start.config) == start.config);
    if is_sound(w) && is_exact(w) {
        if let InputView::Line(line) = input {
            if let Some(question) = asked(w) {
                if let Ok(answer) = reading(question, line) {
                    match answer {
                        AnswerView::Text(value) => {
                            reveal_strlit("chromium-browser");
                            reveal_strlit("TERM");
                            lemma_detail_exact(w, value);
                        },
                        AnswerView::Number(number) => {
                            lemma_number_exact(w, number);
                        },
                        AnswerView::Flag(_) => {},
                    }
                }
            }
        }
    }
}

/// A config that was not loaded is read back exactly as it was made.
pub proof fn law_new_config_is_read_back(w: WizardView)
    requires
        is_writable_state(w),
        is_exact(w),
        w.step == Step::Save,
    ensures
        config_of(w.output) == Ok::<ConfigView, Stop>(w.config),
{
    law_saved_config_is_restored(w);
}

/// Every input can be written down.
pub open spec fn are_writable_inputs(w: WizardView, inputs: Seq<InputView>) -> bool {
    forall|i: int|
        0 <= i < inputs.len() ==> is_writable_input(run(w, inputs.take(i)), #[trigger] inputs[i])
}

proof fn lemma_run_writable(path: Seq<char>, exists: bool, inputs: Seq<InputView>)
    requires
        are_writable_inputs(started(path, exists), inputs),
    ensures
        is_writable_state(run(started(path, exists), inputs)),
        (forall|i: int| 0 <= i < inputs.len() ==> !(#[trigger] inputs[i] is Loaded)) ==> is_exact(
            run(started(path, exists), inputs),
        ),
    decreases inputs.len(),
{
    let start = started(path, exists);
    if inputs.len() == 0 {
        law_wizard_stays_writable(path, exists, start, InputView::Done);
        law_wizard_stays_exact(path, exists, start, InputView::Done);
    } else {
        let front = inputs.drop_last();
        let n = inputs.len() - 1;
        assert forall|i: int| 0 <= i < front.len() implies is_writable_input(
            run(start, front.take(i)),
            #[trigger] front[i],
        ) by {
            assert(front.take(i) == inputs.take(i));
            assert(front[i] == inputs[i]);
        }
        lemma_run_writable(path, exists, front);
        assert(inputs.take(n) == front);
        assert(is_writable_input(run(start, inputs.take(n)), inputs[n]));
        law_wizard_stays_writable(path, exists, run(start, front), inputs.last());
        law_wizard_stays_exact(path, exists, run(start, front), inputs.last());
        if forall|i: int| 0 <= i < inputs.len() ==> !(#[trigger] inputs[i] is Loaded) {
            assert forall|i: int| 0 <= i < front.len() implies !(#[trigger] front[i] is Loaded) by {
                assert(front[i] == inputs[i]);
            }
        }
    }
}

/// Whatever a wizard is told from its start on, as long as it can be written down, the config that
/// it saves can be read back; if none was loaded, reading gives exactly the config that was made.
pub proof fn law_saved_configs_are_read_back(path: Seq<char>, exists: bool, inputs: Seq<InputView>)
    requires
        are_writable_inputs(started(path, exists), inputs),
        run(started(path, exists), inputs).step == Step::Save,
    ensures
        ({
            let w = run(started(path, exists), inputs);
            &&& config_of(w.output) == Ok::<ConfigView, Stop>(restored(w.config))
            &&& (forall|i: int| 0 <= i < inputs.len() ==> !(#[trigger] inputs[i] is Loaded))
                ==> config_of(w.output) == Ok::<ConfigView, Stop>(w.config)
        }),
{
    let w = run(started(path, exists), inputs);
    lemma_run_writable(path, exists, inputs);
    law_saved_config_is_restored(w);
    if forall|i: int| 0 <= i < inputs.len() ==> !(#[trigger] inputs[i] is Loaded) {
        law_new_config_is_read_back(w);
    }
}

} // verus!
