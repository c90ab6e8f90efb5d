use i3_controller::config::{AppKind, RefreshAction, TextCommand};
use i3_controller::format::{config_to_string, text_commands_to_string};
use i3_controller::parse::parse_config;
use i3_controller::preview::preview_script;
use i3_controller::script::generate_script;
use i3_controller::wizard::{Input, Reply, Request, Step, Wizard};

fn tell(wizard: &mut Wizard, question: &str, line: &str) -> Reply {
    match wizard.request() {
        Request::Ask(asked) => assert_eq!(asked.text(), question),
        other => panic!("no question but {other:?}"),
    }
    wizard.answer(Input::Line(format!("{line}\n")))
}

fn answer(wizard: &mut Wizard, question: &str, line: &str) {
    let reply = tell(wizard, question, line);
    assert!(matches!(reply, Reply::Next), "{question}: {reply:?}");
}

fn told(wizard: &mut Wizard, question: &str, line: &str) -> String {
    match tell(wizard, question, line) {
        Reply::Tell(text) => text,
        other => panic!("{question}: {other:?}"),
    }
}

fn failure(wizard: &mut Wizard, question: &str, line: &str) -> String {
    match tell(wizard, question, line) {
        Reply::Fail(error) => error.message(),
        other => panic!("{question}: {other:?}"),
    }
}

/// A native app with every default, up to the question about text entry.
fn add_native(wizard: &mut Wizard, name: &str, command: &str) {
    answer(wizard, "App name: ", name);
    answer(wizard, "App type (web/native) [web]: ", "native");
    assert!(told(wizard, "Command: ", command).starts_with("Args are passed through a shell."));
    answer(wizard, "Arguments: ", "");
    answer(wizard, &format!("Workspace [i3-controller-{name}]: "), "");
    answer(wizard, "i3 match criteria, for example title=\"Dashboard\": ", "");
    answer(wizard, "Window title to match exactly: ", "");
    answer(
        wizard,
        "Layout commands separated by semicolons [move position 0 0; resize set 1280 720]: ",
        "",
    );
    answer(wizard, "Seconds to wait after launching [5]: ", "");
}

const TEXT_QUESTION: &str = "Add login/text-entry automation for this app? [y/N]: ";
const TIMER_QUESTION: &str = "Add timed refresh/relaunch for this app? [y/N]: ";
const STEP_QUESTION: &str = "Step type (type/key/wait/env/record/done) [key]: ";
const KILL_QUESTION: &str = "Add process kill rules before launching apps? [y/N]: ";

#[test]
fn a_whole_dialogue() {
    let mut wizard = Wizard::new("lab.conf", false);

    answer(&mut wizard, KILL_QUESTION, "y");
    answer(&mut wizard, "Process pattern to stop: ", " chromium --app= ");
    answer(&mut wizard, "Friendly name [chromium --app=]: ", "");
    answer(&mut wizard, "Signal [TERM]: ", "KILL");
    answer(&mut wizard, "Add another kill rule? [y/N]: ", "yes");
    answer(&mut wizard, "Process pattern to stop: ", "");

    assert_eq!(
        told(&mut wizard, "App name: ", ""),
        "At least one app is required."
    );
    answer(&mut wizard, "App name: ", "Status page");
    assert_eq!(
        told(&mut wizard, "App type (web/native) [web]: ", "tui"),
        "Choose one of: web, native"
    );
    answer(&mut wizard, "App type (web/native) [web]: ", "");
    answer(&mut wizard, "Browser command [chromium-browser]: ", "");
    answer(&mut wizard, "Extra browser flags: ", "--kiosk");
    assert!(matches!(wizard.request(), Request::FindUrls));
    let urls = vec!["https://a.test".to_string(), "https://b.test".to_string()];
    match wizard.answer(Input::Urls(urls)) {
        Reply::Tell(text) => assert_eq!(
            text,
            "Open Chromium URLs:\n  1. https://a.test\n  2. https://b.test"
        ),
        other => panic!("{other:?}"),
    }
    answer(&mut wizard, "Pick a URL number or enter a URL [1]: ", "2");
    answer(&mut wizard, "Web app URL [https://b.test]: ", "");
    answer(
        &mut wizard,
        "Dedicated browser profile path [/tmp/i3-controller-Status-page]: ",
        "",
    );
    answer(&mut wizard, "Workspace [i3-controller-Status-page]: ", "7");
    answer(
        &mut wizard,
        "i3 match criteria, for example title=\"Dashboard\": ",
        "",
    );
    answer(&mut wizard, "Window title to match exactly: ", "say \"hi\"");
    answer(
        &mut wizard,
        "Layout commands separated by semicolons [move position 0 0; resize set 1280 720]: ",
        "border none",
    );
    assert_eq!(
        told(&mut wizard, "Seconds to wait after launching [5]: ", "soon"),
        "Enter a whole number."
    );
    answer(&mut wizard, "Seconds to wait after launching [5]: ", "8");

    assert!(told(&mut wizard, TEXT_QUESTION, "y").starts_with("Build text-entry steps."));
    answer(&mut wizard, STEP_QUESTION, "type");
    answer(&mut wizard, "Text to type: ", "me");
    answer(&mut wizard, STEP_QUESTION, "");
    answer(&mut wizard, "xdotool key name [Tab]: ", "");
    answer(&mut wizard, STEP_QUESTION, "wait");
    answer(&mut wizard, "Wait seconds [2]: ", "");
    answer(&mut wizard, STEP_QUESTION, "env");
    answer(&mut wizard, "Environment variable name: ", "LAB_WORD");
    answer(&mut wizard, STEP_QUESTION, "record");
    assert!(matches!(wizard.request(), Request::Record));
    let keys = vec![TextCommand::Key("Return".to_string())];
    assert!(matches!(wizard.answer(Input::Keys(keys)), Reply::Next));
    answer(&mut wizard, STEP_QUESTION, "done");
    answer(
        &mut wizard,
        "Seconds to wait before text entry starts [5]: ",
        "9",
    );

    answer(&mut wizard, TIMER_QUESTION, "y");
    answer(
        &mut wizard,
        "Timed action (reload/relaunch) [reload]: ",
        "relaunch",
    );
    answer(&mut wizard, "Run action after [30m]: ", "");
    answer(&mut wizard, "Repeat this timed action forever? [Y/n]: ", "n");

    assert!(matches!(wizard.request(), Request::CheckPreview));
    assert!(matches!(wizard.answer(Input::Possible(true)), Reply::Next));
    answer(
        &mut wizard,
        "Preview current config in an i3 test workspace? [y/N]: ",
        "y",
    );
    match wizard.request() {
        Request::Preview(script) => assert_eq!(script, preview_script(&wizard.config)),
        other => panic!("{other:?}"),
    }
    assert!(matches!(wizard.answer(Input::Done), Reply::Next));
    answer(&mut wizard, "Add another app? [Y/n]: ", "");

    add_native(&mut wizard, "shell", "alacritty");
    answer(&mut wizard, TEXT_QUESTION, "");
    answer(&mut wizard, TIMER_QUESTION, "");
    assert!(matches!(wizard.answer(Input::Possible(false)), Reply::Next));
    answer(&mut wizard, "Add another app? [Y/n]: ", "no");

    answer(&mut wizard, "Rerun the full script on a timer? [y/N]: ", "y");
    answer(&mut wizard, "Rerun after [6h]: ", "");

    let config = &wizard.config;
    assert_eq!(config.kills.len(), 1);
    assert_eq!(config.kills[0].name, "chromium --app=");
    assert_eq!(config.kills[0].signal, "KILL");
    let page = &config.apps[0];
    assert_eq!(page.kind, AppKind::Web);
    assert_eq!(page.url, "https://b.test");
    assert_eq!(page.match_criteria, "title=\"say \\\"hi\\\"\"");
    assert_eq!(page.startup_delay, 8);
    assert_eq!(config.apps[1].kind, AppKind::Native);
    assert_eq!(config.apps[1].browser, "chromium-browser");
    assert_eq!(config.apps[1].workspace, "i3-controller-shell");
    assert_eq!(config.text_entries[0].target, "Status page");
    assert_eq!(config.text_entries[0].delay, 9);
    assert_eq!(
        text_commands_to_string(&config.text_entries[0].commands),
        "type:me; key:Tab; wait:2; type_env:LAB_WORD; key:Return"
    );
    assert_eq!(config.refreshes[0].target, "Status page");
    assert_eq!(config.refreshes[0].action, RefreshAction::Relaunch);
    assert_eq!(config.refreshes[0].after.seconds, 1800);
    assert!(!config.refreshes[0].repeat);
    assert_eq!(config.rerun.as_ref().expect("reruns").seconds, 21600);

    let text = config_to_string(&wizard.config).expect("text");
    match wizard.request() {
        Request::Save(saved) => assert_eq!(saved, text),
        other => panic!("{other:?}"),
    }
    let again = parse_config(&text).expect("what was saved is read");
    assert_eq!(format!("{again:?}"), format!("{:?}", wizard.config));
    assert!(matches!(wizard.answer(Input::Done), Reply::Next));
    answer(
        &mut wizard,
        "Generate launch script beside the config? [Y/n]: ",
        "",
    );
    match wizard.request() {
        Request::WriteScript(script) => {
            assert_eq!(script, generate_script(&wizard.config).expect("script"))
        }
        other => panic!("{other:?}"),
    }
    assert!(matches!(wizard.answer(Input::Done), Reply::Next));
    assert!(matches!(wizard.request(), Request::Finish));
}

#[test]
fn no_pages_are_offered_where_none_are_open() {
    let mut wizard = Wizard::new("c", false);
    answer(&mut wizard, KILL_QUESTION, "");
    answer(&mut wizard, "App name: ", "a");
    answer(&mut wizard, "App type (web/native) [web]: ", "web");
    answer(&mut wizard, "Browser command [chromium-browser]: ", "firefox");
    answer(&mut wizard, "Extra browser flags: ", "");
    match wizard.answer(Input::Urls(vec![])) {
        Reply::Tell(text) => assert!(text.starts_with("No Chromium DevTools URLs found.")),
        other => panic!("{other:?}"),
    }
    assert_eq!(
        told(&mut wizard, "Web app URL: ", " "),
        "Web app URL is required."
    );
    answer(&mut wizard, "Web app URL: ", "http://x");
    assert_eq!(wizard.app.url, "http://x");
    assert_eq!(wizard.app.browser, "firefox");
}

#[test]
fn a_config_can_be_loaded_first() {
    let mut wizard = Wizard::new("lab.conf", true);
    answer(&mut wizard, "Load existing lab.conf? [Y/n]: ", "");
    assert!(matches!(wizard.request(), Request::Load));
    let text = "[app]\nname=old\ncommand=x\n[rerun]\nafter=1h\n".to_string();
    assert!(matches!(wizard.answer(Input::Loaded(text)), Reply::Next));
    answer(&mut wizard, KILL_QUESTION, "n");
    answer(&mut wizard, "App name: ", "");
    answer(&mut wizard, "Rerun the full script on a timer? [y/N]: ", "n");
    match wizard.request() {
        Request::Save(text) => assert!(text.ends_with("startup_delay=0\n\n[rerun]\nafter=1h\n")),
        other => panic!("{other:?}"),
    }
}

#[test]
fn a_config_need_not_be_loaded() {
    let mut wizard = Wizard::new("lab.conf", true);
    answer(&mut wizard, "Load existing lab.conf? [Y/n]: ", "n");
    assert_eq!(wizard.step, Step::KillsWanted);
    assert!(wizard.config.apps.is_empty());
}

#[test]
fn what_is_loaded_may_be_wrong() {
    let mut wizard = Wizard::new("c", true);
    answer(&mut wizard, "Load existing c? [Y/n]: ", "y");
    match wizard.answer(Input::Loaded("[foo]\n".to_string())) {
        Reply::Fail(error) => assert_eq!(error.message(), "unknown block [foo]"),
        other => panic!("{other:?}"),
    }
    let text = "[rerun]\nafter=5124095576030432h\n".to_string();
    assert!(matches!(wizard.answer(Input::Loaded(text)), Reply::Overflow));
}

#[test]
fn bad_names_and_durations_end_the_dialogue() {
    let mut wizard = Wizard::new("c", false);
    answer(&mut wizard, KILL_QUESTION, "");
    add_native(&mut wizard, "a", "b");
    told(&mut wizard, TEXT_QUESTION, "y");
    answer(&mut wizard, STEP_QUESTION, "env");
    assert_eq!(
        failure(&mut wizard, "Environment variable name: ", "1x"),
        "invalid environment variable name: 1x"
    );
    assert_eq!(
        failure(&mut wizard, "Environment variable name: ", ""),
        "empty environment variable name"
    );
    answer(&mut wizard, "Environment variable name: ", "X");
    answer(&mut wizard, STEP_QUESTION, "done");
    answer(&mut wizard, "Seconds to wait before text entry starts [5]: ", "");
    answer(&mut wizard, TIMER_QUESTION, "y");
    answer(&mut wizard, "Timed action (reload/relaunch) [reload]: ", "");
    assert_eq!(
        failure(&mut wizard, "Run action after [30m]: ", "5 days"),
        "invalid digit found in string"
    );
    assert!(matches!(
        tell(&mut wizard, "Run action after [30m]: ", "99999999999999999h"),
        Reply::Overflow
    ));
}

#[test]
fn steps_without_text_add_no_text_entry() {
    let mut wizard = Wizard::new("c", false);
    answer(&mut wizard, KILL_QUESTION, "");
    add_native(&mut wizard, "a", "b");
    told(&mut wizard, TEXT_QUESTION, "y");
    answer(&mut wizard, STEP_QUESTION, "record");
    assert!(matches!(wizard.answer(Input::Keys(vec![])), Reply::Next));
    answer(&mut wizard, STEP_QUESTION, "done");
    assert_eq!(wizard.step, Step::TimerWanted);
    assert!(wizard.config.text_entries.is_empty());
}

#[test]
fn a_timer_after_no_time_is_saved_but_not_read_back() {
    let mut wizard = Wizard::new("c", false);
    answer(&mut wizard, KILL_QUESTION, "");
    add_native(&mut wizard, "a", "b");
    answer(&mut wizard, TEXT_QUESTION, "");
    answer(&mut wizard, TIMER_QUESTION, "y");
    answer(&mut wizard, "Timed action (reload/relaunch) [reload]: ", "");
    answer(&mut wizard, "Run action after [30m]: ", "0");
    answer(&mut wizard, "Repeat this timed action forever? [Y/n]: ", "");
    assert!(matches!(wizard.answer(Input::Possible(false)), Reply::Next));
    answer(&mut wizard, "Add another app? [Y/n]: ", "n");
    answer(&mut wizard, "Rerun the full script on a timer? [y/N]: ", "");
    match wizard.request() {
        Request::Save(text) => assert_eq!(
            parse_config(&text).expect_err("no time").message(),
            "refresh for a requires after"
        ),
        other => panic!("{other:?}"),
    }
}

#[test]
fn a_loaded_config_may_have_no_script() {
    let mut wizard = Wizard::new("c", true);
    answer(&mut wizard, "Load existing c? [Y/n]: ", "");
    let text =
        "[app]\nname=a\ncommand=b\n[text]\ntarget=a\ncommands=type_env:a-b\n".to_string();
    assert!(matches!(wizard.answer(Input::Loaded(text)), Reply::Next));
    answer(&mut wizard, KILL_QUESTION, "");
    answer(&mut wizard, "App name: ", "");
    answer(&mut wizard, "Rerun the full script on a timer? [y/N]: ", "");
    assert!(matches!(wizard.answer(Input::Done), Reply::Next));
    assert_eq!(
        failure(
            &mut wizard,
            "Generate launch script beside the config? [Y/n]: ",
            "y"
        ),
        "invalid environment variable name: a-b"
    );
    answer(
        &mut wizard,
        "Generate launch script beside the config? [Y/n]: ",
        "n",
    );
    assert!(matches!(wizard.request(), Request::Finish));
}

#[test]
fn what_was_not_asked_for_changes_nothing() {
    let mut wizard = Wizard::new("c", false);
    for input in [
        Input::Loaded(String::new()),
        Input::Urls(vec!["http://a".to_string()]),
        Input::Keys(vec![TextCommand::Wait(1)]),
        Input::Possible(true),
        Input::Done,
    ] {
        let before = format!("{wizard:?}");
        assert!(matches!(wizard.answer(input), Reply::Mismatch));
        assert_eq!(format!("{wizard:?}"), before);
    }
    let before = format!("{wizard:?}");
    assert_eq!(told(&mut wizard, KILL_QUESTION, "maybe"), "Answer yes or no.");
    assert_eq!(format!("{wizard:?}"), before);
}
