use i3_controller::config::{App, AppKind, Config};
use i3_controller::script::generate_script;

fn two_app_config() -> Config {
    Config {
        apps: vec![
            App {
                name: "first".to_string(),
                kind: AppKind::Native,
                command: "alacritty".to_string(),
                args: "--title first".to_string(),
                workspace: "1".to_string(),
                match_criteria: "title=\"first\"".to_string(),
                layout: "move position 0 0".to_string(),
                startup_delay: 1,
                ..App::default()
            },
            App {
                name: "second".to_string(),
                kind: AppKind::Native,
                command: "alacritty".to_string(),
                args: "--title second".to_string(),
                workspace: "2".to_string(),
                match_criteria: "title=\"second\"".to_string(),
                layout: "move position 1280 0".to_string(),
                startup_delay: 1,
                ..App::default()
            },
        ],
        ..Config::default()
    }
}

#[test]
fn generated_launchers_are_explicitly_backgrounded() {
    let script = generate_script(&two_app_config()).expect("script should generate");

    assert!(
        script.contains("setsid -f sh -lc"),
        "script should use setsid for detached launches"
    );
    assert!(
        script.contains("2>&1 &"),
        "detached launcher should be backgrounded so later apps can launch"
    );
}

#[test]
fn generated_i3_commands_are_nonfatal() {
    let script = generate_script(&two_app_config()).expect("script should generate");

    assert!(
        script.contains("i3() {\n  if ! i3-msg \"$@\"; then"),
        "script should wrap i3-msg failures"
    );
    assert!(
        script.contains("i3_match() {"),
        "script should include retry helper for window criteria"
    );
    assert!(
        script.contains("i3_mark_new_window() {"),
        "script should identify and mark newly launched windows"
    );
    assert!(script.contains("i3_mark_new_window 'i3-controller-first'"));
    assert!(script.contains("i3_app 'i3-controller-first' 'title=\"first\"' 'nop'"));
    assert!(
        script.contains("i3_app 'i3-controller-first' 'title=\"first\"' 'floating enable'")
    );
    assert!(
        script.contains("i3_app 'i3-controller-first' 'title=\"first\"' 'move to workspace 1'")
    );
    assert!(script.contains("i3 'exec --no-startup-id"));
    assert!(script.contains("echo 'launching second'"));
}

#[test]
fn generated_script_launches_all_apps_before_arranging() {
    let script = generate_script(&two_app_config()).expect("script should generate");

    let launch_second = script
        .find("echo 'launching second'")
        .expect("second app should be launched");
    let arrange_first = script
        .find("echo 'arranging first'")
        .expect("first app should be arranged");

    assert!(
        launch_second < arrange_first,
        "all apps should launch before any matched layout commands run"
    );
}
