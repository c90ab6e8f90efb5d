use i3_controller::config::TextCommand;
use i3_controller::format::text_commands_to_string;
use i3_controller::keys::{is_modifier_key, parse_xinput_detail, x_keymap, Recorder};

const KEYMAP: &str = "keycode   9 = Escape NoSymbol Escape
keycode  23 = Tab ISO_Left_Tab
keycode  50 = Shift_L NoSymbol
keycode 115 = End NoSymbol End
keycode  38 = NoSymbol a A
keycode 120 =
keycode  90 = NoSymbol NoSymbol
keycode  38 = b
no names here
";

#[test]
fn keys_are_named_by_their_first_symbol() {
    let keymap = x_keymap(KEYMAP);
    assert_eq!(keymap.get("9"), Some("Escape".to_string()));
    assert_eq!(keymap.get("23"), Some("Tab".to_string()));
    assert_eq!(keymap.get("120"), None);
    assert_eq!(keymap.get("90"), None);
    assert_eq!(keymap.get("keycode"), None);
    assert_eq!(keymap.get("10"), None);
}

#[test]
fn the_last_name_of_a_key_counts() {
    assert_eq!(x_keymap(KEYMAP).get("38"), Some("b".to_string()));
}

#[test]
fn details_are_the_first_word_behind_the_colon() {
    assert_eq!(
        parse_xinput_detail("    detail: 38 (flags)"),
        Some("38".to_string())
    );
    assert_eq!(parse_xinput_detail("detail:9"), Some("9".to_string()));
    assert_eq!(parse_xinput_detail("detail:  "), None);
    assert_eq!(parse_xinput_detail("details: 9"), None);
    assert_eq!(parse_xinput_detail("Detail: 9"), None);
    assert_eq!(parse_xinput_detail(""), None);
}

#[test]
fn modifiers_are_known_by_name() {
    for key in [
        "Shift_L", "Shift_R", "Control_L", "Control_R", "Alt_L", "Alt_R", "Meta_L", "Meta_R",
        "Super_L", "Super_R",
    ] {
        assert!(is_modifier_key(key), "{key}");
    }
    for key in ["", "shift_l", "Shift", "Tab", "Hyper_L"] {
        assert!(!is_modifier_key(key), "{key}");
    }
}

fn record(lines: &[&str]) -> (Vec<TextCommand>, bool) {
    let keymap = x_keymap(KEYMAP);
    let mut recorder = Recorder::new();
    for line in lines {
        if recorder.record(line, &keymap) {
            return (recorder.commands, true);
        }
    }
    (recorder.commands, false)
}

#[test]
fn a_recording_ends_with_the_end_key() {
    let (commands, ended) = record(&[
        "detail: 9",
        "EVENT type 2 (KeyPress)",
        "    device: 3",
        "    detail: 23",
        "    detail: 9",
        "EVENT type 13 (RawKeyPress)",
        "    detail: 50",
        "EVENT type 3 (KeyRelease)",
        "    detail: 23",
        "EVENT type 13 (RawKeyPress)",
        "    detail: 77",
        "EVENT type 2 (KeyPress)",
        "    detail: 115",
        "EVENT type 2 (KeyPress)",
        "    detail: 9",
    ]);
    assert!(ended);
    assert_eq!(text_commands_to_string(&commands), "key:Tab; key:77");
}

#[test]
fn a_recording_may_end_without_the_end_key() {
    let (commands, ended) = record(&["(KeyPress)", "(KeyPress)", "detail: 38", "(KeyPress)"]);
    assert!(!ended);
    assert_eq!(text_commands_to_string(&commands), "key:b");
}
