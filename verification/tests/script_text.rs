use i3_controller::config::{
    App, AppKind, Config, DurationSpec, KillRule, RefreshAction, TextCommand, TextEntry,
    TimedEvent,
};
use i3_controller::parse::parse_config;
use i3_controller::preamble::PREAMBLE;
use i3_controller::preview::{preview_config, preview_script};
use i3_controller::sample::SAMPLE_CONFIG;
use i3_controller::script::{
    detached_exec_command, focus_app, focus_app_with_indent, generate_script, layout_commands,
    layout_requires_floating, native_exec_command, web_exec_command, window_mark,
    write_configure_app, write_launch_app, write_refresh_body, write_text_entry,
    write_timed_event,
};

fn terminal() -> App {
    App {
        name: "lab shell".to_string(),
        command: " alacritty ".to_string(),
        args: " -e sh -lc 'top' ".to_string(),
        workspace: "2".to_string(),
        match_criteria: " title=\"x\" ".to_string(),
        layout: "border none;; resize set 10 20 ;".to_string(),
        startup_delay: 40,
        ..App::default()
    }
}

fn page() -> App {
    App {
        name: "page".to_string(),
        kind: AppKind::Web,
        url: "https://a.b/?q=1".to_string(),
        browser: "my browser".to_string(),
        browser_args: " --kiosk ".to_string(),
        profile: "/tmp/p".to_string(),
        ..App::default()
    }
}

fn after(raw: &str, seconds: u64) -> DurationSpec {
    DurationSpec {
        raw: raw.to_string(),
        seconds,
    }
}

// Commands.

#[test]
fn marks_are_made_of_names() {
    assert_eq!(window_mark(&terminal()), "i3-controller-lab-shell");
}

#[test]
fn native_commands_are_trimmed() {
    assert_eq!(
        native_exec_command(&terminal()),
        "alacritty -e sh -lc 'top'"
    );
    let mut app = terminal();
    app.args = "  ".to_string();
    assert_eq!(native_exec_command(&app), "alacritty");
}

#[test]
fn web_commands_open_a_window_of_their_own() {
    assert_eq!(
        web_exec_command(&page()),
        "'my browser' --app='https://a.b/?q=1' --no-first-run --kiosk --user-data-dir=/tmp/p"
    );
    let mut app = page();
    app.browser_args = String::new();
    app.profile = String::new();
    assert_eq!(
        web_exec_command(&app),
        "'my browser' --app='https://a.b/?q=1' --no-first-run"
    );
}

#[test]
fn launches_go_through_two_shells() {
    assert_eq!(
        detached_exec_command(&page(), "x 'y'"),
        "sh -lc 'setsid -f sh -lc '\"'\"'exec x '\"'\"'\"'\"'\"'\"'\"'\"'y'\"'\"'\"'\"'\"'\"'\"'\"' >>/tmp/i3-controller-page-launch.log 2>&1'\"'\"' >/tmp/i3-controller-page-detach.log 2>&1 &'"
    );
}

#[test]
fn layouts_are_split_at_semicolons() {
    assert_eq!(
        layout_commands("border none;; resize set 10 20 ;"),
        vec!["border none", "resize set 10 20"]
    );
    assert!(layout_commands(" ; ").is_empty());
}

#[test]
fn moving_and_resizing_float_a_window() {
    assert!(layout_requires_floating("border none; move position 0 0"));
    assert!(layout_requires_floating(" resize set 1 2"));
    assert!(!layout_requires_floating("move to workspace 2; resize grow"));
    assert!(!layout_requires_floating("Move position 0 0"));
    assert!(!layout_requires_floating(""));
}

// Parts of a script.

#[test]
fn a_launch_marks_the_new_window() {
    let mut script = String::new();
    assert!(write_launch_app(&mut script, &terminal()).is_ok());
    let command = detached_exec_command(&terminal(), "alacritty -e sh -lc 'top'");
    let quoted = format!("exec --no-startup-id {command}").replace('\'', "'\"'\"'");
    assert_eq!(
        script,
        format!(
            "echo 'launching lab shell'\ni3_window_ids > \"$STATE_DIR/lab-shell-before.windows\"\ni3 'workspace 2'\ni3 '{quoted}'\ni3_mark_new_window 'i3-controller-lab-shell' \"$STATE_DIR/lab-shell-before.windows\" 40\n\n"
        )
    );
}

#[test]
fn a_launch_waits_half_a_minute_at_least() {
    let mut script = String::new();
    assert!(write_launch_app(&mut script, &page()).is_ok());
    assert!(script.contains("i3_mark_new_window 'i3-controller-page' \"$STATE_DIR/page-before.windows\" 30\n"));
    assert!(!script.contains("i3 'workspace"));
}

#[test]
fn an_arrangement_moves_floats_and_lays_out() {
    let mut script = String::new();
    assert!(write_configure_app(&mut script, &terminal()).is_ok());
    assert_eq!(
        script,
        r#"echo 'arranging lab shell'
sleep 40
i3_app 'i3-controller-lab-shell' 'title="x"' 'nop'
i3_app 'i3-controller-lab-shell' 'title="x"' 'move to workspace 2'
i3_app 'i3-controller-lab-shell' 'title="x"' 'floating enable'
i3_app 'i3-controller-lab-shell' 'title="x"' 'border none'
i3_app 'i3-controller-lab-shell' 'title="x"' 'resize set 10 20'

"#
    );
}

#[test]
fn an_app_without_a_place_is_not_arranged() {
    let mut script = String::new();
    assert!(write_configure_app(&mut script, &page()).is_ok());
    assert_eq!(script, "");
    let mut app = page();
    app.workspace = "w".to_string();
    assert!(write_configure_app(&mut script, &app).is_ok());
    assert!(script.starts_with("echo 'arranging page'\nsleep 1\n"));
}

#[test]
fn an_app_is_focused_by_its_mark() {
    let mut script = String::new();
    assert!(focus_app(&mut script, &page()).is_ok());
    assert!(focus_app_with_indent(&mut script, &terminal(), "\t").is_ok());
    assert!(focus_app(&mut script, &App::default()).is_ok());
    assert_eq!(
        script,
        "  i3_app 'i3-controller-page' '' 'focus'\n  sleep 1\n\ti3_app 'i3-controller-lab-shell' 'title=\"x\"' 'focus'\n\tsleep 1\n"
    );
}

#[test]
fn text_is_entered_in_the_background() {
    let entry = TextEntry {
        target: "page".to_string(),
        delay: 7,
        commands: vec![
            TextCommand::Type("it's me".to_string()),
            TextCommand::TypeEnv("LAB_USER".to_string()),
            TextCommand::Key("ctrl+a".to_string()),
            TextCommand::Key("a b".to_string()),
            TextCommand::Wait(3),
        ],
    };
    let mut script = String::new();
    assert!(write_text_entry(&mut script, &page(), &entry).is_ok());
    assert_eq!(
        script,
        r#"# Text-entry automation for page.
( sleep 7
  i3_app 'i3-controller-page' '' 'focus'
  sleep 1
  xdotool type --delay 20 -- 'it'"'"'s me'
  xdotool type --delay 20 -- "${LAB_USER:-}"
  xdotool key ctrl+a
  xdotool key 'a b'
  sleep 3
) >/tmp/i3-controller-page-text.log 2>&1 &
echo $! > "$STATE_DIR/page-text.pid"

"#
    );
}

#[test]
fn a_bad_variable_ends_a_text_entry() {
    let entry = TextEntry {
        target: "page".to_string(),
        delay: 0,
        commands: vec![
            TextCommand::Wait(1),
            TextCommand::TypeEnv("a-b".to_string()),
            TextCommand::Wait(2),
        ],
    };
    let mut script = String::new();
    let error = write_text_entry(&mut script, &page(), &entry).expect_err("a bad name");
    assert_eq!(error.message(), "invalid environment variable name: a-b");
    assert!(script.ends_with("  sleep 1\n  sleep 1\n"));
}

#[test]
fn a_reload_focuses_the_window_first() {
    let event = TimedEvent {
        target: "page".to_string(),
        after: after("30m", 1800),
        action: RefreshAction::Reload,
        repeat: true,
    };
    let mut script = String::new();
    assert!(write_timed_event(&mut script, &page(), &event).is_ok());
    assert_eq!(
        script,
        r#"# Timed reload for page after 30m.
(
  while true; do
    sleep 1800
    i3_app 'i3-controller-page' '' 'focus'
    sleep 1
    xdotool key ctrl+r
  done
) >/tmp/i3-controller-page-refresh.log 2>&1 &
echo $! > "$STATE_DIR/page-refresh.pid"

"#
    );
}

#[test]
fn a_relaunch_closes_the_window_first() {
    let event = TimedEvent {
        target: "lab shell".to_string(),
        after: after("1h", 3600),
        action: RefreshAction::Relaunch,
        repeat: false,
    };
    let mut body = String::new();
    assert!(write_refresh_body(&mut body, &terminal(), &event, "  ").is_ok());
    let mut launch = String::new();
    assert!(write_launch_app(&mut launch, &terminal()).is_ok());
    let mut arrangement = String::new();
    assert!(write_configure_app(&mut arrangement, &terminal()).is_ok());
    assert_eq!(
        body,
        format!("  i3 '[ title=\"x\" ] kill'\n  {launch}  {arrangement}")
    );
    let mut script = String::new();
    assert!(write_timed_event(&mut script, &terminal(), &event).is_ok());
    assert_eq!(
        script,
        format!(
            "# Timed relaunch for lab shell after 1h.\n( sleep 3600\n{body}) >/tmp/i3-controller-lab-shell-refresh.log 2>&1 &\necho $! > \"$STATE_DIR/lab-shell-refresh.pid\"\n\n"
        )
    );
}

// Whole scripts.

#[test]
fn an_empty_config_is_the_preamble() {
    assert_eq!(generate_script(&Config::default()).expect("script"), PREAMBLE);
}

#[test]
fn processes_are_stopped_before_anything_is_launched() {
    let config = Config {
        kills: vec![
            KillRule {
                name: "old one".to_string(),
                pattern: "a --b".to_string(),
                signal: "TERM".to_string(),
            },
            KillRule {
                pattern: "p".to_string(),
                ..KillRule::default()
            },
        ],
        rerun: Some(after("6h", 21600)),
        ..Config::default()
    };
    let script = generate_script(&config).expect("script");
    assert_eq!(
        script.strip_prefix(PREAMBLE).expect("the preamble"),
        "echo 'stopping old one'\npkill -TERM -f 'a --b' >/dev/null 2>&1 || true\necho 'stopping p'\npkill - -f 'p' >/dev/null 2>&1 || true\n\n# Rerun the full script after 6h.\n( sleep 21600; exec \"$SELF\" ) >/tmp/i3-controller-rerun.log 2>&1 &\necho $! > \"$STATE_DIR/rerun.pid\"\n"
    );
}

#[test]
fn the_parts_of_a_script_come_in_order() {
    let script = generate_script(&parse_config(SAMPLE_CONFIG).expect("sample")).expect("script");
    let mut last = 0;
    for part in [
        "#!/usr/bin/env sh\nset -eu\n",
        "echo 'stopping old chromium sessions'",
        "echo 'launching dashboard'",
        "echo 'launching terminal'",
        "echo 'arranging dashboard'",
        "echo 'arranging terminal'",
        "# Text-entry automation for dashboard.",
        "# Timed reload for dashboard after 30m.",
        "# Rerun the full script after 6h.",
    ] {
        let at = script.find(part).expect(part);
        assert!(last <= at, "{part}");
        last = at;
    }
    assert!(script.starts_with("#!/usr/bin/env sh\n"));
    assert!(script.ends_with("echo $! > \"$STATE_DIR/rerun.pid\"\n"));
}

#[test]
fn only_names_of_variables_keep_a_valid_config_from_having_a_script() {
    let good = "[app]\nname=a\ncommand=b\n[text]\ntarget=a\ncommands=type_env:X; key:y\n";
    assert!(generate_script(&parse_config(good).expect("config")).is_ok());
    let bad = good.replace(":X", ":1");
    assert_eq!(
        generate_script(&parse_config(&bad).expect("config"))
            .expect_err("a bad name")
            .message(),
        "invalid environment variable name: 1"
    );
    let empty = good.replace(":X", ":");
    assert_eq!(
        generate_script(&parse_config(&empty).expect("config"))
            .expect_err("no name")
            .message(),
        "empty environment variable name"
    );
}

#[test]
fn a_script_needs_the_apps_that_it_speaks_of() {
    let config = Config {
        refreshes: vec![TimedEvent {
            target: "gone".to_string(),
            ..TimedEvent::default()
        }],
        ..Config::default()
    };
    assert_eq!(
        generate_script(&config).expect_err("no app").message(),
        "unknown app target: gone"
    );
}

#[test]
fn two_apps_of_one_name_share_the_first() {
    let config = parse_config(
        "[app]\nname=a\ncommand=b\nmatch=first\n[app]\nname=a\ncommand=c\nmatch=second\n[refresh]\ntarget=a\nafter=1\naction=relaunch\n",
    )
    .expect("config");
    let script = generate_script(&config).expect("script");
    assert!(script.contains("i3 '[first] kill'"));
    assert!(!script.contains("i3 '[second] kill'"));
}

// Previews.

#[test]
fn a_preview_is_launches_and_arrangements_on_a_workspace_of_its_own() {
    let config = parse_config(SAMPLE_CONFIG).expect("sample");
    let preview = preview_config(&config);
    assert_eq!(preview.apps.len(), 2);
    for (app, copy) in config.apps.iter().zip(&preview.apps) {
        assert_eq!(copy.workspace, "i3-controller-preview");
        assert_eq!(copy.name, app.name);
        assert_eq!(copy.kind, app.kind);
        assert_eq!(copy.command, app.command);
        assert_eq!(copy.args, app.args);
        assert_eq!(copy.url, app.url);
        assert_eq!(copy.browser, app.browser);
        assert_eq!(copy.browser_args, app.browser_args);
        assert_eq!(copy.profile, app.profile);
        assert_eq!(copy.match_criteria, app.match_criteria);
        assert_eq!(copy.layout, app.layout);
        assert_eq!(copy.startup_delay, app.startup_delay);
    }
    assert!(preview.kills.is_empty() && preview.text_entries.is_empty());
    assert!(preview.refreshes.is_empty() && preview.rerun.is_none());
    let script = preview_script(&config);
    assert_eq!(script, generate_script(&preview).expect("script"));
    assert!(script.contains("i3 'workspace i3-controller-preview'"));
    assert!(!script.contains("stopping"));
}
