//! A config to start from.
use vstd::prelude::*;

verus! {

/// A config that shows every kind of block.
pub const SAMPLE_CONFIG: &'static str = r#"# i3-controller config
# Blocks start with [app], [kill], [text], [refresh], or [rerun].
# Values are key=value. Comments and blank lines are ignored.
# Text commands support type:literal text, type_env:ENV_VAR, key:KeyName, and wait:2.

[kill]
name=old chromium sessions
pattern=chromium-browser --app=
signal=TERM

[app]
name=dashboard
kind=web
url=https://status.example.test
browser=chromium-browser
browser_args=--ignore-certificate-errors
profile=/tmp/i3-controller-dashboard
workspace=1
match=title="Status"
layout=move position 0 0; resize set 1280 720
startup_delay=3

[text]
target=dashboard
delay=5
commands=type:lab-user; key:Tab; type_env:LAB_DASHBOARD_PASSWORD; key:Return

[refresh]
target=dashboard
after=30m
action=reload
repeat=true

[app]
name=terminal
kind=native
command=alacritty
args=--title lab-shell
workspace=2
match=title="lab-shell"
layout=move position 1280 0; resize set 1280 720

[rerun]
after=6h
"#;

} // verus!
