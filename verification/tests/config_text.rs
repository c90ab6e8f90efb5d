use i3_controller::config::{AppKind, Config, RefreshAction, TextCommand};
use i3_controller::error::Error;
use i3_controller::format::{config_to_string, text_commands_to_string};
use i3_controller::parse::{
    checked_parse_config, parse_app, parse_blocks, parse_config, parse_kill, parse_rerun,
    parse_text_entry, parse_timed_event,
};
use i3_controller::sample::SAMPLE_CONFIG;
use i3_controller::validate::{find_app, validate_config};
use i3_controller::values::{
    checked_parse_duration, parse_bool, parse_duration, parse_text_commands,
};

fn read(text: &str) -> Config {
    parse_config(text).expect("the config is good")
}

fn complaint(text: &str) -> String {
    parse_config(text).expect_err("the config is bad").message()
}

fn debugged(config: &Config) -> String {
    format!("{config:?}")
}

// Reading.

#[test]
fn the_sample_is_read() {
    let config = read(SAMPLE_CONFIG);

    assert_eq!(config.kills.len(), 1);
    assert_eq!(config.kills[0].name, "old chromium sessions");
    assert_eq!(config.kills[0].pattern, "chromium-browser --app=");
    assert_eq!(config.kills[0].signal, "TERM");

    assert_eq!(config.apps.len(), 2);
    let dashboard = &config.apps[0];
    assert_eq!(dashboard.name, "dashboard");
    assert_eq!(dashboard.kind, AppKind::Web);
    assert_eq!(dashboard.url, "https://status.example.test");
    assert_eq!(dashboard.browser, "chromium-browser");
    assert_eq!(dashboard.browser_args, "--ignore-certificate-errors");
    assert_eq!(dashboard.profile, "/tmp/i3-controller-dashboard");
    assert_eq!(dashboard.workspace, "1");
    assert_eq!(dashboard.match_criteria, "title=\"Status\"");
    assert_eq!(dashboard.layout, "move position 0 0; resize set 1280 720");
    assert_eq!(dashboard.startup_delay, 3);
    let terminal = &config.apps[1];
    assert_eq!(terminal.kind, AppKind::Native);
    assert_eq!(terminal.command, "alacritty");
    assert_eq!(terminal.args, "--title lab-shell");
    assert_eq!(terminal.startup_delay, 0);

    assert_eq!(config.text_entries.len(), 1);
    let entry = &config.text_entries[0];
    assert_eq!(entry.target, "dashboard");
    assert_eq!(entry.delay, 5);
    assert_eq!(
        text_commands_to_string(&entry.commands),
        "type:lab-user; key:Tab; type_env:LAB_DASHBOARD_PASSWORD; key:Return"
    );

    assert_eq!(config.refreshes.len(), 1);
    let event = &config.refreshes[0];
    assert_eq!(event.after.raw, "30m");
    assert_eq!(event.after.seconds, 1800);
    assert_eq!(event.action, RefreshAction::Reload);
    assert!(event.repeat);

    let rerun = config.rerun.as_ref().expect("the sample reruns");
    assert_eq!(rerun.raw, "6h");
    assert_eq!(rerun.seconds, 21600);
}

#[test]
fn nothing_is_a_config() {
    let config = read("");
    assert!(config.apps.is_empty() && config.kills.is_empty() && config.rerun.is_none());
}

#[test]
fn names_of_blocks_and_keys_are_read_in_any_case() {
    let config = read("  [ APP ]  \n  Name =  a b \nKIND=Native\ncommand=x=y\n");
    assert_eq!(config.apps[0].name, "a b");
    assert_eq!(config.apps[0].command, "x=y");
    assert_eq!(config.apps[0].browser, "chromium-browser");
}

#[test]
fn comments_and_blank_lines_are_ignored() {
    let without = "[app]\nname=a\ncommand=b\n[rerun]\nafter=2s\n";
    let with = "# top\n\n[app]\n \t \nname=a\n   # indented\r\ncommand=b\n#[kill]\n[rerun]\nafter=2s\n# end";
    assert_eq!(debugged(&read(with)), debugged(&read(without)));
}

#[test]
fn only_the_lines_that_count_make_a_config() {
    let texts = [
        "[app]\nname=a\ncommand=b",
        "[app]\nname=a\ncommand=b\n#",
        "#1\n#2\n\n[app]\n#3\nname=a\n\t\ncommand=b\n  # the last line is not ended",
    ];
    for text in texts {
        assert_eq!(debugged(&read(text)), debugged(&read(texts[0])));
        assert!(complaint(&format!("{text}\n[x]")).ends_with("unknown block [x]"));
        assert!(complaint(&format!("{text}\nx")).ends_with(" is not key=value: x"));
    }
}

#[test]
fn a_comment_moves_the_numbers_of_lines_only() {
    assert_eq!(complaint("[app]\nx\n"), "line 2 is not key=value: x");
    assert_eq!(complaint("# c\n[app]\nx\n"), "line 3 is not key=value: x");
}

#[test]
fn the_last_of_two_values_counts() {
    let config = read("[app]\nname=a\nname=b\ncommand=c\n[rerun]\nafter=1\n[rerun]\nafter=2\n");
    assert_eq!(config.apps[0].name, "b");
    assert_eq!(config.rerun.expect("reruns").seconds, 2);
}

#[test]
fn a_kill_rule_sends_term_unless_told_otherwise() {
    assert_eq!(read("[kill]\npattern=x\n").kills[0].signal, "TERM");
    assert_eq!(read("[kill]\npattern=x\nsignal=\n").kills[0].signal, "");
    assert_eq!(read("[kill]\npattern=x\nsignal=HUP\n").kills[0].signal, "HUP");
}

#[test]
fn blocks_are_read_in_order() {
    let blocks = parse_blocks("[B]\nX= 1 \ny=2\n[a]\n").expect("blocks");
    assert_eq!(blocks.len(), 2);
    assert_eq!(blocks[0].name, "b");
    assert_eq!(
        blocks[0].pairs,
        vec![
            ("x".to_string(), "1".to_string()),
            ("y".to_string(), "2".to_string())
        ]
    );
    assert_eq!(blocks[1].name, "a");
    assert!(blocks[1].pairs.is_empty());
}

#[test]
fn each_kind_of_block_is_read() {
    let blocks = parse_blocks(
        "[x]\nname=n\ncommand=c\n[x]\npattern=p\n[x]\ntarget=n\ncommands=wait:3\n[x]\ntarget=n\nafter=4\nrepeat=yes\naction=RELAUNCH\n[x]\nafter=1h\nignored=x\n",
    )
    .expect("blocks");
    assert_eq!(parse_app(&blocks[0]).expect("app").command, "c");
    assert_eq!(parse_kill(&blocks[1]).expect("kill").pattern, "p");
    let entry = parse_text_entry(&blocks[2]).expect("entry");
    assert!(matches!(entry.commands[..], [TextCommand::Wait(3)]));
    assert_eq!(entry.delay, 0);
    let event = parse_timed_event(&blocks[3]).expect("event");
    assert_eq!(event.action, RefreshAction::Relaunch);
    assert!(event.repeat);
    assert_eq!(parse_rerun(&blocks[4]).expect("rerun").seconds, 3600);
}

// Errors.

#[test]
fn every_complaint_about_a_config() {
    let app = "[app]\nname=a\ncommand=b\n";
    for (text, message) in [
        ("x=1\n", "line 1 appears before a block header"),
        ("x\n", "line 1 is not key=value: x"),
        ("[app]\n  no pair \n", "line 2 is not key=value:   no pair "),
        ("[foo]\n", "unknown block [foo]"),
        ("[app]\nname=a\nkind=Tui\n", "unknown app kind for a: Tui"),
        ("[app]\nname=a\nsize=1\n", "unknown app key for a: size"),
        ("[app]\ncommand=b\n", "[app] requires name"),
        ("[app]\nname=a\n", "app a requires command"),
        ("[app]\nname=a\nkind=web\n", "web app a requires url"),
        ("[app]\nstartup_delay=x\n", "invalid digit found in string"),
        (
            "[app]\nstartup_delay=\n",
            "cannot parse integer from empty string",
        ),
        (
            "[app]\nstartup_delay=99999999999999999999\n",
            "number too large to fit in target type",
        ),
        ("[kill]\nfoo=1\n", "unknown kill key: foo"),
        ("[kill]\nname=1\n", "[kill] requires pattern"),
        ("[text]\nfoo=1\n", "unknown text key: foo"),
        ("[text]\ncommands=wait:1\n", "[text] requires target"),
        ("[text]\ntarget=a\n", "text entry for a requires commands"),
        (
            "[text]\ntarget=a\ncommands= ; ;\n",
            "text entry for a requires commands",
        ),
        (
            "[text]\ntarget=a\ncommands=Tab\n",
            "text command must be kind:value: Tab",
        ),
        (
            "[text]\ntarget=a\ncommands=Press :x\n",
            "unknown text command: Press ",
        ),
        (
            "[text]\ntarget=a\ncommands=wait:soon\n",
            "invalid digit found in string",
        ),
        ("[refresh]\naction=stop\n", "unknown refresh action: stop"),
        ("[refresh]\nfoo=1\n", "unknown refresh key: foo"),
        ("[refresh]\nafter=1\n", "[refresh] requires target"),
        ("[refresh]\ntarget=a\n", "refresh for a requires after"),
        (
            "[refresh]\ntarget=a\nafter=0h\n",
            "refresh for a requires after",
        ),
        ("[refresh]\nrepeat=maybe\n", "invalid bool: maybe"),
        (
            "[refresh]\nafter= 5 days \n",
            "invalid digit found in string",
        ),
        ("[refresh]\nafter=5d\n", "unsupported duration unit: 5d"),
        ("[rerun]\n", "[rerun] requires after"),
        ("[rerun]\nevery=1\n", "unknown rerun key: every"),
    ] {
        assert_eq!(complaint(text), message, "{text}");
    }
    let unknown = "unknown app target: b";
    assert_eq!(
        complaint(&format!("{app}[text]\ntarget=b\ncommands=wait:1\n")),
        unknown
    );
    assert_eq!(complaint(&format!("{app}[refresh]\ntarget=b\nafter=1\n")), unknown);
}

#[test]
fn the_first_complaint_counts() {
    assert_eq!(complaint("[foo]\n[app]\nx\n"), "line 3 is not key=value: x");
    assert_eq!(complaint("[kill]\n[app]\n"), "[kill] requires pattern");
    assert_eq!(
        complaint("[refresh]\ntarget=b\nafter=1\n[text]\ntarget=a\ncommands=wait:1\n"),
        "unknown app target: a"
    );
}

#[test]
fn apps_are_found_by_their_name() {
    let config = read("[app]\nname=a\ncommand=1\n[app]\nname=b\ncommand=2\n[app]\nname=a\ncommand=3\n");
    assert_eq!(find_app(&config, "a").expect("a").command, "1");
    assert_eq!(find_app(&config, "b").expect("b").command, "2");
    assert_eq!(
        find_app(&config, "A").expect_err("no A").message(),
        "unknown app target: A"
    );
}

#[test]
fn validation_looks_at_apps_first() {
    let mut config = read("[app]\nname=a\ncommand=1\n[text]\ntarget=a\ncommands=wait:1\n");
    assert!(validate_config(&config).is_ok());
    config.text_entries[0].target = "z".to_string();
    assert!(matches!(
        validate_config(&config),
        Err(Error::UnknownTarget { .. })
    ));
    config.apps[0].name = String::new();
    assert!(matches!(validate_config(&config), Err(Error::AppWithoutName)));
}

// Values.

#[test]
fn durations_have_units() {
    for (text, raw, seconds) in [
        ("45", "45", 45),
        (" 45S ", "45S", 45),
        ("1sec", "1sec", 1),
        ("2secs", "2secs", 2),
        ("30m", "30m", 1800),
        ("1MIN", "1MIN", 60),
        ("2mins", "2mins", 120),
        ("6h", "6h", 21600),
        ("1hr", "1hr", 3600),
        ("2hrs", "2hrs", 7200),
        ("+3", "+3", 3),
        ("0", "0", 0),
    ] {
        let duration = parse_duration(text).expect(text);
        assert_eq!((duration.raw.as_str(), duration.seconds), (raw, seconds));
    }
    assert_eq!(
        parse_duration("5 m").expect_err("a space").message(),
        "invalid digit found in string"
    );
    assert_eq!(
        parse_duration("m").expect_err("no number").message(),
        "cannot parse integer from empty string"
    );
    assert_eq!(
        parse_duration("5minutes").expect_err("no unit").message(),
        "unsupported duration unit: 5minutes"
    );
}

#[test]
fn a_duration_that_cannot_be_counted_is_told_apart() {
    assert!(checked_parse_duration("5124095576030431h").is_some());
    assert!(checked_parse_duration("5124095576030432h").is_none());
    assert!(checked_parse_duration("307445734561825861m").is_none());
    assert!(checked_parse_duration("18446744073709551615s").is_some());
    assert!(checked_parse_config("[rerun]\nafter=5124095576030432h\n").is_none());
    assert!(checked_parse_config("[refresh]\nafter=5124095576030432h\nfoo=1\n").is_none());
    assert!(matches!(
        checked_parse_config("[foo]\n[rerun]\nafter=5124095576030432h\n"),
        Some(Err(_))
    ));
}

#[test]
fn truth_has_three_names() {
    for word in ["true", "YES", "1"] {
        assert_eq!(parse_bool(word).ok(), Some(true));
    }
    for word in ["False", "no", "0"] {
        assert_eq!(parse_bool(word).ok(), Some(false));
    }
    assert_eq!(parse_bool("y").expect_err("y").message(), "invalid bool: y");
    assert_eq!(parse_bool(" 1").expect_err("space").message(), "invalid bool:  1");
}

#[test]
fn text_commands_are_split_at_semicolons() {
    let commands = parse_text_commands(" TYPE : a:b ; key:Tab;;wait: 2 ;type_env:X;type:")
        .expect("commands");
    assert_eq!(
        text_commands_to_string(&commands),
        "type:a:b; key:Tab; wait:2; type_env:X; type:"
    );
    assert_eq!(parse_text_commands("").expect("none").len(), 0);
    assert_eq!(text_commands_to_string(&[]), "");
}

#[test]
fn text_commands_are_read_back_with_line_breaks_inside() {
    let commands = vec![
        TextCommand::Type("two\nlines: both".to_string()),
        TextCommand::Key("a\r\nb".to_string()),
        TextCommand::Wait(9),
    ];
    let text = text_commands_to_string(&commands);
    assert_eq!(text, "type:two\nlines: both; key:a\r\nb; wait:9");
    let again = parse_text_commands(&text).expect("commands");
    assert_eq!(format!("{again:?}"), format!("{commands:?}"));
}

#[test]
fn white_space_at_the_ends_of_a_command_is_not_read_back() {
    let text = text_commands_to_string(&[TextCommand::Type(" x ".to_string())]);
    let again = parse_text_commands(&text).expect("commands");
    assert!(matches!(&again[..], [TextCommand::Type(value)] if value == "x"));
}

// Writing.

#[test]
fn a_config_is_written_block_by_block() {
    let config = read(SAMPLE_CONFIG);
    assert_eq!(
        config_to_string(&config).expect("text"),
        r#"# i3-controller config
# Created by `i3-controller wizard`.

[kill]
name=old chromium sessions
pattern=chromium-browser --app=
signal=TERM

[app]
name=dashboard
kind=web
url=https://status.example.test
browser=chromium-browser
browser_args=--ignore-certificate-errors
profile=/tmp/i3-controller-dashboard
workspace=1
match=title="Status"
layout=move position 0 0; resize set 1280 720
startup_delay=3

[app]
name=terminal
kind=native
command=alacritty
args=--title lab-shell
workspace=2
match=title="lab-shell"
layout=move position 1280 0; resize set 1280 720
startup_delay=0

[text]
target=dashboard
delay=5
commands=type:lab-user; key:Tab; type_env:LAB_DASHBOARD_PASSWORD; key:Return

[refresh]
target=dashboard
after=30m
action=reload
repeat=true

[rerun]
after=6h
"#
    );
}

#[test]
fn a_config_is_read_back_as_it_was() {
    let config = read(SAMPLE_CONFIG);
    let again = read(&config_to_string(&config).expect("text"));
    assert_eq!(debugged(&again), debugged(&config));
}

#[test]
fn reading_back_restores_what_is_not_written() {
    let mut config = read("[kill]\npattern=x\n[app]\nname=a\ncommand=b\n");
    config.kills[0].signal = String::new();
    config.apps[0].url = "https://left.out".to_string();
    config.apps[0].browser = "other".to_string();
    let again = read(&config_to_string(&config).expect("text"));
    assert_eq!(again.kills[0].signal, "TERM");
    assert_eq!(again.apps[0].url, "");
    assert_eq!(again.apps[0].browser, "chromium-browser");
    let text = config_to_string(&again).expect("text");
    assert_eq!(config_to_string(&read(&text)).expect("text"), text);
}

#[test]
fn a_semicolon_in_typed_text_is_not_read_back() {
    let mut config = read("[app]\nname=a\ncommand=b\n[text]\ntarget=a\ncommands=type:x\n");
    config.text_entries[0].commands = vec![TextCommand::Type("x;key:y".to_string())];
    let again = read(&config_to_string(&config).expect("text"));
    assert_eq!(again.text_entries[0].commands.len(), 2);
}
