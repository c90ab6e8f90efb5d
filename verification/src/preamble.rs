//! The part of a launch script that is the same for every config.
use vstd::prelude::*;

verus! {

/// Stops what an earlier run left behind, checks that the tools are there, and defines the
/// functions that the rest of the script calls.
pub const PREAMBLE: &'static str = r#"#!/usr/bin/env sh
set -eu

SELF="$0"
STATE_DIR="${XDG_RUNTIME_DIR:-/tmp}/i3-controller-$(basename "$SELF" | tr -c 'A-Za-z0-9._-' '-')"
mkdir -p "$STATE_DIR"
for pid_file in "$STATE_DIR"/*.pid; do
  [ -e "$pid_file" ] || continue
  old_pid=$(cat "$pid_file" 2>/dev/null || true)
  if [ -n "$old_pid" ] && [ "$old_pid" != "$$" ]; then kill "$old_pid" >/dev/null 2>&1 || true; fi
  rm -f "$pid_file"
done
command -v i3-msg >/dev/null 2>&1 || { echo 'i3-msg is required' >&2; exit 1; }
command -v xdotool >/dev/null 2>&1 || { echo 'xdotool is required' >&2; exit 1; }
command -v setsid >/dev/null 2>&1 || { echo 'setsid is required' >&2; exit 1; }

i3() {
  if ! i3-msg "$@"; then
    echo "i3-controller: i3-msg failed: $*" >&2
  fi
}

i3_window_ids() {
  i3-msg -t get_tree | tr ',{}' '\n\n\n' | sed -n 's/.*"window":[[:space:]]*\([0-9][0-9]*\).*/\1/p'
}

i3_try_match() {
  criteria=$1
  command=$2
  attempts=${3:-30}
  I3_MATCH_OUTPUT=
  while [ "$attempts" -gt 0 ]; do
    if I3_MATCH_OUTPUT=$(i3-msg "[$criteria] $command" 2>&1); then
      return 0
    fi
    attempts=$((attempts - 1))
    [ "$attempts" -gt 0 ] && sleep 1
  done
  return 1
}

i3_match() {
  if ! i3_try_match "$@"; then
    echo "i3-controller: i3 command failed for [$1]: $2" >&2
    [ -n "$I3_MATCH_OUTPUT" ] && echo "$I3_MATCH_OUTPUT" >&2
  fi
}

i3_app() {
  mark=$1
  fallback=$2
  command=$3
  attempts=${4:-30}
  if i3_try_match "con_mark=\"$mark\"" "$command" "$attempts"; then
    return 0
  fi
  if [ -n "$fallback" ]; then
    i3_match "$fallback" "$command" "$attempts"
  else
    echo "i3-controller: no marked window found for $mark: $command" >&2
    [ -n "$I3_MATCH_OUTPUT" ] && echo "$I3_MATCH_OUTPUT" >&2
  fi
}

i3_mark_new_window() {
  mark=$1
  before_file=$2
  attempts=${3:-30}
  while [ "$attempts" -gt 0 ]; do
    for window_id in $(i3_window_ids); do
      if ! grep -qx "$window_id" "$before_file" 2>/dev/null; then
        i3 "[id=\"$window_id\"] mark --replace $mark"
        echo "$window_id" > "$STATE_DIR/$mark.window"
        return 0
      fi
    done
    attempts=$((attempts - 1))
    [ "$attempts" -gt 0 ] && sleep 1
  done
  echo "i3-controller: failed to identify new window for $mark" >&2
}

"#;

/// Every script begins with this text, letter by letter: it stops what an earlier run left behind,
/// checks for the tools, and defines the helpers.
pub proof fn law_how_every_script_begins()
    ensures
        PREAMBLE@ == r#"#!/usr/bin/env sh
set -eu

SELF="$0"
STATE_DIR="${XDG_RUNTIME_DIR:-/tmp}/i3-controller-$(basename "$SELF" | tr -c 'A-Za-z0-9._-' '-')"
mkdir -p "$STATE_DIR"
for pid_file in "$STATE_DIR"/*.pid; do
  [ -e "$pid_file" ] || continue
  old_pid=$(cat "$pid_file" 2>/dev/null || true)
  if [ -n "$old_pid" ] && [ "$old_pid" != "$$" ]; then kill "$old_pid" >/dev/null 2>&1 || true; fi
  rm -f "$pid_file"
done
command -v i3-msg >/dev/null 2>&1 || { echo 'i3-msg is required' >&2; exit 1; }
command -v xdotool >/dev/null 2>&1 || { echo 'xdotool is required' >&2; exit 1; }
command -v setsid >/dev/null 2>&1 || { echo 'setsid is required' >&2; exit 1; }

i3() {
  if ! i3-msg "$@"; then
    echo "i3-controller: i3-msg failed: $*" >&2
  fi
}

i3_window_ids() {
  i3-msg -t get_tree | tr ',{}' '\n\n\n' | sed -n 's/.*"window":[[:space:]]*\([0-9][0-9]*\).*/\1/p'
}

i3_try_match() {
  criteria=$1
  command=$2
  attempts=${3:-30}
  I3_MATCH_OUTPUT=
  while [ "$attempts" -gt 0 ]; do
    if I3_MATCH_OUTPUT=$(i3-msg "[$criteria] $command" 2>&1); then
      return 0
    fi
    attempts=$((attempts - 1))
    [ "$attempts" -gt 0 ] && sleep 1
  done
  return 1
}

i3_match() {
  if ! i3_try_match "$@"; then
    echo "i3-controller: i3 command failed for [$1]: $2" >&2
    [ -n "$I3_MATCH_OUTPUT" ] && echo "$I3_MATCH_OUTPUT" >&2
  fi
}

i3_app() {
  mark=$1
  fallback=$2
  command=$3
  attempts=${4:-30}
  if i3_try_match "con_mark=\"$mark\"" "$command" "$attempts"; then
    return 0
  fi
  if [ -n "$fallback" ]; then
    i3_match "$fallback" "$command" "$attempts"
  else
    echo "i3-controller: no marked window found for $mark: $command" >&2
    [ -n "$I3_MATCH_OUTPUT" ] && echo "$I3_MATCH_OUTPUT" >&2
  fi
}

i3_mark_new_window() {
  mark=$1
  before_file=$2
  attempts=${3:-30}
  while [ "$attempts" -gt 0 ]; do
    for window_id in $(i3_window_ids); do
      if ! grep -qx "$window_id" "$before_file" 2>/dev/null; then
        i3 "[id=\"$window_id\"] mark --replace $mark"
        echo "$window_id" > "$STATE_DIR/$mark.window"
        return 0
      fi
    done
    attempts=$((attempts - 1))
    [ "$attempts" -gt 0 ] && sleep 1
  done
  echo "i3-controller: failed to identify new window for $mark" >&2
}

"#@,
{
}

} // verus!
