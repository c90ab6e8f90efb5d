//! The words of the config format, letter by letter.
use crate::facts::has_char;
use crate::text::{is_white_space, lowered, trimmed};
use vstd::prelude::*;

verus! {

/// A word of small letters and underscores.
pub open spec fn is_plain(word: Seq<char>) -> bool {
    &&& word.len() > 0
    &&& forall|i: int| 0 <= i < word.len() ==> ('a' <= #[trigger] word[i] <= 'z' || word[i] == '_')
}

/// The keys of an `[app]` block are plain words, each another.
pub proof fn lemma_app_keys()
    ensures
        is_plain("name"@),
        is_plain("kind"@),
        is_plain("command"@),
        is_plain("args"@),
        is_plain("url"@),
        is_plain("browser"@),
        is_plain("browser_args"@),
        is_plain("profile"@),
        is_plain("workspace"@),
        is_plain("match"@),
        is_plain("layout"@),
        is_plain("startup_delay"@),
        "kind"@ != "name"@,
        "command"@ != "name"@,
        "command"@ != "kind"@,
        "args"@ != "name"@,
        "args"@ != "kind"@,
        "args"@ != "command"@,
        "url"@ != "name"@,
        "url"@ != "kind"@,
        "url"@ != "command"@,
        "url"@ != "args"@,
        "browser"@ != "name"@,
        "browser"@ != "kind"@,
        "browser"@ != "command"@,
        "browser"@ != "args"@,
        "browser"@ != "url"@,
        "browser_args"@ != "name"@,
        "browser_args"@ != "kind"@,
        "browser_args"@ != "command"@,
        "browser_args"@ != "args"@,
        "browser_args"@ != "url"@,
        "browser_args"@ != "browser"@,
        "profile"@ != "name"@,
        "profile"@ != "kind"@,
        "profile"@ != "command"@,
        "profile"@ != "args"@,
        "profile"@ != "url"@,
        "profile"@ != "browser"@,
        "profile"@ != "browser_args"@,
        "workspace"@ != "name"@,
        "workspace"@ != "kind"@,
        "workspace"@ != "command"@,
        "workspace"@ != "args"@,
        "workspace"@ != "url"@,
        "workspace"@ != "browser"@,
        "workspace"@ != "browser_args"@,
        "workspace"@ != "profile"@,
        "match"@ != "name"@,
        "match"@ != "kind"@,
        "match"@ != "command"@,
        "match"@ != "args"@,
        "match"@ != "url"@,
        "match"@ != "browser"@,
        "match"@ != "browser_args"@,
        "match"@ != "profile"@,
        "match"@ != "workspace"@,
        "layout"@ != "name"@,
        "layout"@ != "kind"@,
        "layout"@ != "command"@,
        "layout"@ != "args"@,
        "layout"@ != "url"@,
        "layout"@ != "browser"@,
        "layout"@ != "browser_args"@,
        "layout"@ != "profile"@,
        "layout"@ != "workspace"@,
        "layout"@ != "match"@,
        "startup_delay"@ != "name"@,
        "startup_delay"@ != "kind"@,
        "startup_delay"@ != "command"@,
        "startup_delay"@ != "args"@,
        "startup_delay"@ != "url"@,
        "startup_delay"@ != "browser"@,
        "startup_delay"@ != "browser_args"@,
        "startup_delay"@ != "profile"@,
        "startup_delay"@ != "workspace"@,
        "startup_delay"@ != "match"@,
        "startup_delay"@ != "layout"@,
{
    reveal_strlit("name");
    assert("name"@ == seq!['n', 'a', 'm', 'e']);
    reveal_strlit("kind");
    assert("kind"@ == seq!['k', 'i', 'n', 'd']);
    reveal_strlit("command");
    assert("command"@ == seq!['c', 'o', 'm', 'm', 'a', 'n', 'd']);
    reveal_strlit("args");
    assert("args"@ == seq!['a', 'r', 'g', 's']);
    reveal_strlit("url");
    assert("url"@ == seq!['u', 'r', 'l']);
    reveal_strlit("browser");
    assert("browser"@ == seq!['b', 'r', 'o', 'w', 's', 'e', 'r']);
    reveal_strlit("browser_args");
    assert("browser_args"@ == seq!['b', 'r', 'o', 'w', 's', 'e', 'r', '_', 'a', 'r', 'g', 's']);
    reveal_strlit("profile");
    assert("profile"@ == seq!['p', 'r', 'o', 'f', 'i', 'l', 'e']);
    reveal_strlit("workspace");
    assert("workspace"@ == seq!['w', 'o', 'r', 'k', 's', 'p', 'a', 'c', 'e']);
    reveal_strlit("match");
    assert("match"@ == seq!['m', 'a', 't', 'c', 'h']);
    reveal_strlit("layout");
    assert("layout"@ == seq!['l', 'a', 'y', 'o', 'u', 't']);
    reveal_strlit("startup_delay");
    assert("startup_delay"@ == seq!['s', 't', 'a', 'r', 't', 'u', 'p', '_', 'd', 'e', 'l', 'a', 'y']);
    assert("kind"@[0] != "name"@[0]);
    assert("command"@.len() != "name"@.len());
    assert("command"@.len() != "kind"@.len());
    assert("args"@[0] != "name"@[0]);
    assert("args"@[0] != "kind"@[0]);
    assert("args"@.len() != "command"@.len());
    assert("url"@.len() != "name"@.len());
    assert("url"@.len() != "kind"@.len());
    assert("url"@.len() != "command"@.len());
    assert("url"@.len() != "args"@.len());
    assert("browser"@.len() != "name"@.len());
    assert("browser"@.len() != "kind"@.len());
    assert("browser"@[0] != "command"@[0]);
    assert("browser"@.len() != "args"@.len());
    assert("browser"@.len() != "url"@.len());
    assert("browser_args"@.len() != "name"@.len());
    assert("browser_args"@.len() != "kind"@.len());
    assert("browser_args"@.len() != "command"@.len());
    assert("browser_args"@.len() != "args"@.len());
    assert("browser_args"@.len() != "url"@.len());
    assert("browser_args"@.len() != "browser"@.len());
    assert("profile"@.len() != "name"@.len());
    assert("profile"@.len() != "kind"@.len());
    assert("profile"@[0] != "command"@[0]);
    assert("profile"@.len() != "args"@.len());
    assert("profile"@.len() != "url"@.len());
    assert("profile"@[0] != "browser"@[0]);
    assert("profile"@.len() != "browser_args"@.len());
    assert("workspace"@.len() != "name"@.len());
    assert("workspace"@.len() != "kind"@.len());
    assert("workspace"@.len() != "command"@.len());
    assert("workspace"@.len() != "args"@.len());
    assert("workspace"@.len() != "url"@.len());
    assert("workspace"@.len() != "browser"@.len());
    assert("workspace"@.len() != "browser_args"@.len());
    assert("workspace"@.len() != "profile"@.len());
    assert("match"@.len() != "name"@.len());
    assert("match"@.len() != "kind"@.len());
    assert("match"@.len() != "command"@.len());
    assert("match"@.len() != "args"@.len());
    assert("match"@.len() != "url"@.len());
    assert("match"@.len() != "browser"@.len());
    assert("match"@.len() != "browser_args"@.len());
    assert("match"@.len() != "profile"@.len());
    assert("match"@.len() != "workspace"@.len());
    assert("layout"@.len() != "name"@.len());
    assert("layout"@.len() != "kind"@.len());
    assert("layout"@.len() != "command"@.len());
    assert("layout"@.len() != "args"@.len());
    assert("layout"@.len() != "url"@.len());
    assert("layout"@.len() != "browser"@.len());
    assert("layout"@.len() != "browser_args"@.len());
    assert("layout"@.len() != "profile"@.len());
    assert("layout"@.len() != "workspace"@.len());
    assert("layout"@.len() != "match"@.len());
    assert("startup_delay"@.len() != "name"@.len());
    assert("startup_delay"@.len() != "kind"@.len());
    assert("startup_delay"@.len() != "command"@.len());
    assert("startup_delay"@.len() != "args"@.len());
    assert("startup_delay"@.len() != "url"@.len());
    assert("startup_delay"@.len() != "browser"@.len());
    assert("startup_delay"@.len() != "browser_args"@.len());
    assert("startup_delay"@.len() != "profile"@.len());
    assert("startup_delay"@.len() != "workspace"@.len());
    assert("startup_delay"@.len() != "match"@.len());
    assert("startup_delay"@.len() != "layout"@.len());
}

/// The keys of a `[kill]` block are plain words, each another.
pub proof fn lemma_kill_keys()
    ensures
        is_plain("name"@),
        is_plain("pattern"@),
        is_plain("signal"@),
        "pattern"@ != "name"@,
        "signal"@ != "name"@,
        "signal"@ != "pattern"@,
{
    reveal_strlit("name");
    assert("name"@ == seq!['n', 'a', 'm', 'e']);
    reveal_strlit("pattern");
    assert("pattern"@ == seq!['p', 'a', 't', 't', 'e', 'r', 'n']);
    reveal_strlit("signal");
    assert("signal"@ == seq!['s', 'i', 'g', 'n', 'a', 'l']);
    assert("pattern"@.len() != "name"@.len());
    assert("signal"@.len() != "name"@.len());
    assert("signal"@.len() != "pattern"@.len());
}

/// The keys of a `[text]` block are plain words, each another.
pub proof fn lemma_text_keys()
    ensures
        is_plain("target"@),
        is_plain("delay"@),
        is_plain("commands"@),
        "delay"@ != "target"@,
        "commands"@ != "target"@,
        "commands"@ != "delay"@,
{
    reveal_strlit("target");
    assert("target"@ == seq!['t', 'a', 'r', 'g', 'e', 't']);
    reveal_strlit("delay");
    assert("delay"@ == seq!['d', 'e', 'l', 'a', 'y']);
    reveal_strlit("commands");
    assert("commands"@ == seq!['c', 'o', 'm', 'm', 'a', 'n', 'd', 's']);
    assert("delay"@.len() != "target"@.len());
    assert("commands"@.len() != "target"@.len());
    assert("commands"@.len() != "delay"@.len());
}

/// The keys of a `[refresh]` block are plain words, each another.
pub proof fn lemma_refresh_keys()
    ensures
        is_plain("target"@),
        is_plain("after"@),
        is_plain("action"@),
        is_plain("repeat"@),
        "after"@ != "target"@,
        "action"@ != "target"@,
        "action"@ != "after"@,
        "repeat"@ != "target"@,
        "repeat"@ != "after"@,
        "repeat"@ != "action"@,
{
    reveal_strlit("target");
    assert("target"@ == seq!['t', 'a', 'r', 'g', 'e', 't']);
    reveal_strlit("after");
    assert("after"@ == seq!['a', 'f', 't', 'e', 'r']);
    reveal_strlit("action");
    assert("action"@ == seq!['a', 'c', 't', 'i', 'o', 'n']);
    reveal_strlit("repeat");
    assert("repeat"@ == seq!['r', 'e', 'p', 'e', 'a', 't']);
    assert("after"@.len() != "target"@.len());
    assert("action"@[0] != "target"@[0]);
    assert("action"@.len() != "after"@.len());
    assert("repeat"@[0] != "target"@[0]);
    assert("repeat"@.len() != "after"@.len());
    assert("repeat"@[0] != "action"@[0]);
}

/// The names of blocks are plain words, each another.
pub proof fn lemma_block_names()
    ensures
        is_plain("app"@),
        is_plain("kill"@),
        is_plain("text"@),
        is_plain("refresh"@),
        is_plain("rerun"@),
        "kill"@ != "app"@,
        "text"@ != "app"@,
        "text"@ != "kill"@,
        "refresh"@ != "app"@,
        "refresh"@ != "kill"@,
        "refresh"@ != "text"@,
        "rerun"@ != "app"@,
        "rerun"@ != "kill"@,
        "rerun"@ != "text"@,
        "rerun"@ != "refresh"@,
{
    reveal_strlit("app");
    assert("app"@ == seq!['a', 'p', 'p']);
    reveal_strlit("kill");
    assert("kill"@ == seq!['k', 'i', 'l', 'l']);
    reveal_strlit("text");
    assert("text"@ == seq!['t', 'e', 'x', 't']);
    reveal_strlit("refresh");
    assert("refresh"@ == seq!['r', 'e', 'f', 'r', 'e', 's', 'h']);
    reveal_strlit("rerun");
    assert("rerun"@ == seq!['r', 'e', 'r', 'u', 'n']);
    assert("kill"@.len() != "app"@.len());
    assert("text"@.len() != "app"@.len());
    assert("text"@[0] != "kill"@[0]);
    assert("refresh"@.len() != "app"@.len());
    assert("refresh"@.len() != "kill"@.len());
    assert("refresh"@.len() != "text"@.len());
    assert("rerun"@.len() != "app"@.len());
    assert("rerun"@.len() != "kill"@.len());
    assert("rerun"@.len() != "text"@.len());
    assert("rerun"@.len() != "refresh"@.len());
}

/// The kinds of apps are plain words, each another.
pub proof fn lemma_kinds()
    ensures
        is_plain("native"@),
        is_plain("web"@),
        "web"@ != "native"@,
{
    reveal_strlit("native");
    assert("native"@ == seq!['n', 'a', 't', 'i', 'v', 'e']);
    reveal_strlit("web");
    assert("web"@ == seq!['w', 'e', 'b']);
    assert("web"@.len() != "native"@.len());
}

/// The actions of timers are plain words, each another.
pub proof fn lemma_actions()
    ensures
        is_plain("reload"@),
        is_plain("relaunch"@),
        "relaunch"@ != "reload"@,
{
    reveal_strlit("reload");
    assert("reload"@ == seq!['r', 'e', 'l', 'o', 'a', 'd']);
    reveal_strlit("relaunch");
    assert("relaunch"@ == seq!['r', 'e', 'l', 'a', 'u', 'n', 'c', 'h']);
    assert("relaunch"@.len() != "reload"@.len());
}

/// The kinds of text commands are plain words, each another.
pub proof fn lemma_commands()
    ensures
        is_plain("type"@),
        is_plain("type_env"@),
        is_plain("key"@),
        is_plain("wait"@),
        "type_env"@ != "type"@,
        "key"@ != "type"@,
        "key"@ != "type_env"@,
        "wait"@ != "type"@,
        "wait"@ != "type_env"@,
        "wait"@ != "key"@,
{
    reveal_strlit("type");
    assert("type"@ == seq!['t', 'y', 'p', 'e']);
    reveal_strlit("type_env");
    assert("type_env"@ == seq!['t', 'y', 'p', 'e', '_', 'e', 'n', 'v']);
    reveal_strlit("key");
    assert("key"@ == seq!['k', 'e', 'y']);
    reveal_strlit("wait");
    assert("wait"@ == seq!['w', 'a', 'i', 't']);
    assert("type_env"@.len() != "type"@.len());
    assert("key"@.len() != "type"@.len());
    assert("key"@.len() != "type_env"@.len());
    assert("wait"@[0] != "type"@[0]);
    assert("wait"@.len() != "type_env"@.len());
    assert("wait"@.len() != "key"@.len());
}

/// The words for true and false are plain.
pub proof fn lemma_bools()
    ensures
        is_plain("true"@),
        is_plain("false"@),
        "false"@ != "true"@,
        "false"@ != "yes"@,
        "false"@ != "1"@,
{
    reveal_strlit("true");
    reveal_strlit("false");
    reveal_strlit("yes");
    reveal_strlit("1");
    assert("true"@ == seq!['t', 'r', 'u', 'e']);
    assert("false"@ == seq!['f', 'a', 'l', 's', 'e']);
    assert("false"@.len() != "true"@.len());
    assert("false"@.len() != "yes"@.len());
    assert("false"@.len() != "1"@.len());
}

/// A text command is its kind, a colon and its value; a semicolon and a space stand between two.
pub proof fn lemma_command_texts()
    ensures
        "type:"@ == "type"@.push(':'),
        "type_env:"@ == "type_env"@.push(':'),
        "key:"@ == "key"@.push(':'),
        "wait:"@ == "wait"@.push(':'),
        "; "@ == seq![';', ' '],
{
    reveal_strlit("type");
    reveal_strlit("type:");
    reveal_strlit("type_env");
    reveal_strlit("type_env:");
    reveal_strlit("key");
    reveal_strlit("key:");
    reveal_strlit("wait");
    reveal_strlit("wait:");
    reveal_strlit("; ");
    assert("type:"@ == "type"@.push(':'));
    assert("type_env:"@ == "type_env"@.push(':'));
    assert("key:"@ == "key"@.push(':'));
    assert("wait:"@ == "wait"@.push(':'));
    assert("; "@ == seq![';', ' ']);
}

/// A header is a block's name in square brackets.
pub proof fn lemma_headers()
    ensures
        "[app]"@ == seq!['['] + "app"@ + seq![']'],
        "[kill]"@ == seq!['['] + "kill"@ + seq![']'],
        "[text]"@ == seq!['['] + "text"@ + seq![']'],
        "[refresh]"@ == seq!['['] + "refresh"@ + seq![']'],
        "[rerun]"@ == seq!['['] + "rerun"@ + seq![']'],
{
    reveal_strlit("app");
    reveal_strlit("[app]");
    assert("[app]"@ == seq!['['] + "app"@ + seq![']']);
    reveal_strlit("kill");
    reveal_strlit("[kill]");
    assert("[kill]"@ == seq!['['] + "kill"@ + seq![']']);
    reveal_strlit("text");
    reveal_strlit("[text]");
    assert("[text]"@ == seq!['['] + "text"@ + seq![']']);
    reveal_strlit("refresh");
    reveal_strlit("[refresh]");
    assert("[refresh]"@ == seq!['['] + "refresh"@ + seq![']']);
    reveal_strlit("rerun");
    reveal_strlit("[rerun]");
    assert("[rerun]"@ == seq!['['] + "rerun"@ + seq![']']);
}

/// The two title lines are comments without white space at their ends.
pub proof fn lemma_titles()
    ensures
        "# i3-controller config"@.len() > 0,
        "# i3-controller config"@[0] == '#',
        "# i3-controller config"@.last() == 'g',
        !has_char("# i3-controller config"@, '\n'),
        "# Created by `i3-controller wizard`."@.len() > 0,
        "# Created by `i3-controller wizard`."@[0] == '#',
        "# Created by `i3-controller wizard`."@.last() == '.',
        !has_char("# Created by `i3-controller wizard`."@, '\n'),
{
    reveal_strlit("# i3-controller config");
    reveal_strlit("# Created by `i3-controller wizard`.");
    assert("# i3-controller config"@ == seq!['#', ' ', 'i', '3', '-', 'c', 'o', 'n', 't', 'r', 'o', 'l', 'l', 'e', 'r', ' ', 'c', 'o', 'n', 'f', 'i', 'g']);
    assert("# Created by `i3-controller wizard`."@ == seq!['#', ' ', 'C', 'r', 'e', 'a', 't', 'e', 'd', ' ', 'b', 'y', ' ', '`', 'i', '3', '-', 'c', 'o', 'n', 't', 'r', 'o', 'l', 'l', 'e', 'r', ' ', 'w', 'i', 'z', 'a', 'r', 'd', '`', '.']);
}

/// A plain word has nothing to trim or lower and holds no other characters.
pub proof fn lemma_plain(word: Seq<char>)
    requires
        is_plain(word),
    ensures
        trimmed(word) == word,
        lowered(word) == word,
        forall|c: char| !('a' <= c <= 'z' || c == '_') ==> !#[trigger] has_char(word, c),
        !is_white_space(word[0]),
        !is_white_space(word.last()),
{
    crate::facts::lemma_trimmed_iff(word);
    assert(lowered(word) == word);
    assert(word.last() == word[word.len() - 1]);
}

} // verus!
