//! What holds of a wizard whatever it is told.
use crate::answers::{
    answer_taken, completed, detail_taken, draft_taken, flag_taken, number_taken, turn,
};
use crate::config::{AppKind, AppView, ConfigView};
use crate::format::config_text;
use crate::keys::is_clean_recording;
use crate::parse::config_of;
use crate::prompt::{reading, AnswerView};
use crate::script::{command_check, script_of};
use crate::script_laws::{are_good_commands, has_good_variables, law_valid_config_has_a_script};
use crate::validate::{app_check, is_named, is_valid, law_validation_is_complete};
use crate::wizard::{asked, started, InputView, ReplyView, Step, WizardView};
use vstd::prelude::*;

verus! {

// Valid configs stay valid.

/// Whether the app that was added last is being asked about.
pub open spec fn is_about_last_app(step: Step) -> bool {
    match step {
        Step::TextWanted | Step::TextStep | Step::TextType | Step::TextEnv | Step::TextKey
        | Step::TextWait | Step::Record | Step::TextDelay | Step::TimerWanted | Step::TimerAction
        | Step::TimerAfter | Step::TimerRepeat => true,
        _ => false,
    }
}

/// Whether there is an app by now.
pub open spec fn is_past_an_app(step: Step) -> bool {
    is_about_last_app(step) || match step {
        Step::CheckPreview | Step::PreviewWanted | Step::Preview | Step::MoreApps
        | Step::RerunWanted | Step::RerunAfter | Step::Save | Step::ScriptWanted
        | Step::WriteScript | Step::Finished => true,
        _ => false,
    }
}

/// What is known of the app that is being asked for.
pub open spec fn has_sound_draft(w: WizardView) -> bool {
    match w.step {
        Step::Kind => w.app.name.len() > 0,
        Step::Browser | Step::BrowserArgs | Step::FindUrls | Step::UrlPick | Step::Url => {
            w.app.name.len() > 0 && w.app.kind == AppKind::Web
        },
        Step::Command => w.app.name.len() > 0 && w.app.kind == AppKind::Native,
        Step::Profile => app_check(w.app) is Ok && w.app.kind == AppKind::Web,
        Step::Args => app_check(w.app) is Ok && w.app.kind == AppKind::Native,
        Step::Workspace | Step::Match | Step::Title | Step::Layout | Step::StartupDelay => {
            app_check(w.app) is Ok
        },
        _ => true,
    }
}

/// A wizard of which the config is valid, and would be if it were complete now.
pub open spec fn is_sound(w: WizardView) -> bool {
    &&& is_valid(w.config)
    &&& has_sound_draft(w)
    &&& is_past_an_app(w.step) ==> w.config.apps.len() > 0
    &&& is_about_last_app(w.step) ==> is_named(w.config.apps, w.target)
    &&& w.step == Step::TimerAction || w.step == Step::TimerAfter || w.step == Step::TimerRepeat
        ==> w.event.target == w.target
    &&& w.step == Step::Save ==> w.output == config_text(w.config)
}

proof fn lemma_app_added(config: ConfigView, app: AppView)
    requires
        is_valid(config),
        app_check(app) is Ok,
    ensures
        is_valid(ConfigView { apps: config.apps.push(app), ..config }),
        is_named(config.apps.push(app), app.name),
{
    let apps = config.apps.push(app);
    assert(apps[config.apps.len() as int].name == app.name);
    assert forall|name: Seq<char>| is_named(config.apps, name) implies #[trigger] is_named(
        apps,
        name,
    ) by {
        let i = choose|i: int| 0 <= i < config.apps.len() && (#[trigger] config.apps[i]).name == name;
        assert(apps[i].name == name);
    }
}

proof fn lemma_draft_sound(w: WizardView, value: Seq<char>)
    requires
        is_sound(w),
        w.step == Step::Url || w.step == Step::Command ==> value.len() > 0,
    ensures
        is_sound(draft_taken(w, value).0),
{
}

proof fn lemma_completed(w: WizardView)
    requires
        is_valid(w.config),
        w.config.apps.len() > 0,
    ensures
        completed(w).1 == ReplyView::Next,
        completed(w).0.step == Step::Save,
        is_sound(completed(w).0),
{
    law_validation_is_complete(w.config);
}

proof fn lemma_detail_sound(w: WizardView, value: Seq<char>)
    requires
        is_sound(w),
        w.step == Step::Url || w.step == Step::Command ==> value.len() > 0,
    ensures
        is_sound(detail_taken(w, value).0),
{
    match w.step {
        Step::TextStep | Step::TextType | Step::TextEnv | Step::TextKey | Step::TimerAction
        | Step::TimerAfter => {},
        Step::RerunAfter => {
            if let Ok(after) = crate::values::duration_of(value) {
                let config = ConfigView { rerun: Some(after), ..w.config };
                lemma_completed(WizardView { config, ..w });
            }
        },
        _ => {
            lemma_draft_sound(w, value);
        },
    }
}

proof fn lemma_number_sound(w: WizardView, number: u64)
    requires
        is_sound(w),
    ensures
        is_sound(number_taken(w, number).0),
{
    if w.step == Step::StartupDelay {
        lemma_app_added(w.config, AppView { startup_delay: number, ..w.app });
    }
}

proof fn lemma_flag_sound(w: WizardView, yes: bool)
    requires
        is_sound(w),
    ensures
        is_sound(flag_taken(w, yes).0),
{
    if w.step == Step::RerunWanted {
        lemma_completed(w);
    }
}

/// A wizard is sound at its start, and no input makes it unsound: whatever is typed, loaded,
/// found or recorded, the config stays valid, and it has an app when it is saved.
pub proof fn law_wizard_stays_sound(path: Seq<char>, exists: bool, w: WizardView, input: InputView)
    ensures
        is_sound(started(path, exists)),
        is_sound(w) ==> is_sound(turn(w, input).0),
{
    if is_sound(w) {
        match input {
            InputView::Loaded(text) => {
                if let Ok(config) = config_of(text) {
                    law_validation_is_complete(config);
                }
            },
            InputView::Line(line) => {
                if let Some(question) = asked(w) {
                    if let Ok(answer) = reading(question, line) {
                        match answer {
                            AnswerView::Text(value) => {
                                if w.step == Step::Url || w.step == Step::Command {
                                    crate::facts::lemma_trimmed_iff(value);
                                    assert(value.len() > 0);
                                }
                                lemma_detail_sound(w, value);
                            },
                            AnswerView::Number(number) => {
                                lemma_number_sound(w, number);
                            },
                            AnswerView::Flag(yes) => {
                                lemma_flag_sound(w, yes);
                            },
                        }
                    }
                }
            },
            _ => {},
        }
    }
}

/// A sound wizard never fails to complete its config.
pub proof fn law_sound_config_is_saved(w: WizardView)
    requires
        is_sound(w),
        is_past_an_app(w.step),
    ensures
        completed(w).1 == ReplyView::Next,
        completed(w).0.step == Step::Save,
        completed(w).0.output == config_text(w.config),
{
    lemma_completed(w);
}

/// A line is never out of place where a question is asked; anything but a line is.
pub proof fn law_questions_take_lines(w: WizardView, input: InputView)
    requires
        asked(w) is Some,
    ensures
        turn(w, input).1 == ReplyView::Mismatch <==> !(input is Line),
{
    if let InputView::Line(line) = input {
        if let Ok(answer) = reading(asked(w)->0, line) {
            assert(answer_taken(w, answer).1 != ReplyView::Mismatch);
        }
    }
}

/// A line that does not answer the question changes nothing.
pub proof fn law_complaints_change_nothing(w: WizardView, line: Seq<char>)
    requires
        asked(w) is Some,
        reading(asked(w)->0, line) is Err,
    ensures
        turn(w, InputView::Line(line)) == (w, ReplyView::Tell(reading(asked(w)->0, line)->Err_0)),
{
}

/// A wizard after a number of inputs.
pub open spec fn run(w: WizardView, inputs: Seq<InputView>) -> WizardView
    decreases inputs.len(),
{
    if inputs.len() == 0 {
        w
    } else {
        turn(run(w, inputs.drop_last()), inputs.last()).0
    }
}

/// Whatever a wizard is told from its start on, it is sound: a config that it saves is valid and
/// has an app.
pub proof fn law_every_run_is_sound(path: Seq<char>, exists: bool, inputs: Seq<InputView>)
    ensures
        is_sound(run(started(path, exists), inputs)),
    decreases inputs.len(),
{
    let start = started(path, exists);
    if inputs.len() > 0 {
        law_every_run_is_sound(path, exists, inputs.drop_last());
        law_wizard_stays_sound(
            path,
            exists,
            run(start, inputs.drop_last()),
            inputs.last(),
        );
    } else {
        law_wizard_stays_sound(path, exists, start, InputView::Done);
    }
}

// Scripts.

/// A wizard of which the config, and what is being asked for, type only variables that can be.
pub open spec fn has_good_names(w: WizardView) -> bool {
    &&& is_sound(w)
    &&& has_good_variables(w.config)
    &&& are_good_commands(w.commands)
}

/// A config that was not loaded, with keys as they are recorded, always has a script.
pub proof fn law_new_config_has_a_script(
    path: Seq<char>,
    exists: bool,
    w: WizardView,
    input: InputView,
)
    ensures
        has_good_names(started(path, exists)),
        has_good_names(w) && !(input is Loaded) && (input matches InputView::Keys(keys)
            ==> is_clean_recording(keys)) ==> has_good_names(turn(w, input).0),
        has_good_names(w) ==> script_of(w.config) is Ok,
{
    law_wizard_stays_sound(path, exists, w, input);
    if has_good_names(w) {
        law_valid_config_has_a_script(w.config);
        match input {
            InputView::Line(line) => {
                if let Some(question) = asked(w) {
                    if let Ok(answer) = reading(question, line) {
                        lemma_good_names_kept(w, answer);
                    }
                }
            },
            InputView::Keys(keys) => {
                if is_clean_recording(keys) {
                    let all = w.commands + keys;
                    assert forall|i: int| 0 <= i < all.len() implies command_check(
                        #[trigger] all[i],
                    ) is Ok by {
                        if i < w.commands.len() {
                            assert(all[i] == w.commands[i]);
                        } else {
                            assert(all[i] == keys[i - w.commands.len()]);
                        }
                    }
                }
            },
            _ => {},
        }
    }
}

proof fn lemma_good_names_kept(w: WizardView, answer: AnswerView)
    requires
        has_good_variables(w.config),
        are_good_commands(w.commands),
    ensures
        has_good_variables(answer_taken(w, answer).0.config),
        are_good_commands(answer_taken(w, answer).0.commands),
{
    let after = answer_taken(w, answer).0;
    if w.step == Step::TextDelay {
    } else {
        assert(after.config.text_entries == w.config.text_entries);
    }
}

} // verus!
