//! Recording key presses: what `xinput` prints of them and what `xmodmap` calls the keys.
use crate::config::{TextCommand, TextCommandView};
use crate::text::{
    chars_of, cut, has_text, holds_text, lines, lines_of, prefix_at, same, split_once,
    starts_with, substring, trim, trimmed, words, words_of,
};
use vstd::prelude::*;

verus! {

// Key codes.

/// The key code on a line that gives one.
pub open spec fn detail_of(line: Seq<char>) -> Option<Seq<char>> {
    let text = trimmed(line);
    if !starts_with(text, "detail:"@) {
        None
    } else {
        let ws = words_of(trimmed(text.skip("detail:"@.len() as int)));
        if ws.len() == 0 {
            None
        } else {
            Some(ws[0])
        }
    }
}

pub fn parse_xinput_detail(line: &str) -> (r: Option<String>)
    ensures
        r.deep_view() == detail_of(line@),
{
    let text = trim(line);
    let cs = chars_of(&text);
    let prefix = chars_of("detail:");
    assert(cs@.skip(0) == cs@);
    if !prefix_at(&cs, 0, &prefix) {
        return None;
    }
    let value = substring(&cs, prefix.len(), cs.len());
    assert(value@ == text@.skip(prefix.len() as int));
    let mut ws = words(&trim(&value));
    let ghost all = ws.deep_view();
    if ws.len() == 0 {
        return None;
    }
    assert(all[0] == ws@[0]@);
    Some(ws.remove(0))
}

pub open spec fn is_modifier(key: Seq<char>) -> bool {
    ||| key == "Shift_L"@
    ||| key == "Shift_R"@
    ||| key == "Control_L"@
    ||| key == "Control_R"@
    ||| key == "Alt_L"@
    ||| key == "Alt_R"@
    ||| key == "Meta_L"@
    ||| key == "Meta_R"@
    ||| key == "Super_L"@
    ||| key == "Super_R"@
}

pub fn is_modifier_key(key: &str) -> (r: bool)
    ensures
        r == is_modifier(key@),
{
    same(key, "Shift_L") || same(key, "Shift_R") || same(key, "Control_L") || same(key, "Control_R")
        || same(key, "Alt_L") || same(key, "Alt_R") || same(key, "Meta_L") || same(key, "Meta_R")
        || same(key, "Super_L") || same(key, "Super_R")
}

// Key names.

/// The first word that names a symbol.
pub open spec fn first_symbol(ws: Seq<Seq<char>>) -> Option<Seq<char>>
    decreases ws.len(),
{
    if ws.len() == 0 {
        None
    } else if ws[0] != "NoSymbol"@ {
        Some(ws[0])
    } else {
        first_symbol(ws.drop_first())
    }
}

/// The key code and the name on a line such as `keycode 38 = a A`.
pub open spec fn key_name(line: Seq<char>) -> Option<(Seq<char>, Seq<char>)> {
    match cut(line, '=') {
        None => None,
        Some((left, right)) => if words_of(left).len() < 2 {
            None
        } else {
            match first_symbol(words_of(right)) {
                None => None,
                Some(name) => Some((words_of(left)[1], name)),
            }
        },
    }
}

/// The names of keys by their codes; of two lines for one code the later counts.
pub open spec fn key_names(ls: Seq<Seq<char>>) -> Map<Seq<char>, Seq<char>>
    decreases ls.len(),
{
    if ls.len() == 0 {
        Map::empty()
    } else {
        match key_name(ls.last()) {
            None => key_names(ls.drop_last()),
            Some((code, name)) => key_names(ls.drop_last()).insert(code, name),
        }
    }
}

/// The names of keys by their codes.
#[derive(Debug)]
pub struct Keymap {
    entries: Vec<(String, String)>,
}

pub open spec fn entries_map(entries: Seq<(Seq<char>, Seq<char>)>) -> Map<Seq<char>, Seq<char>>
    decreases entries.len(),
{
    if entries.len() == 0 {
        Map::empty()
    } else {
        entries_map(entries.drop_last()).insert(entries.last().0, entries.last().1)
    }
}

impl View for Keymap {
    type V = Map<Seq<char>, Seq<char>>;

    closed spec fn view(&self) -> Map<Seq<char>, Seq<char>> {
        entries_map(self.entries.deep_view())
    }
}

impl Keymap {
    /// The name of the key with this code.
    pub fn get(&self, code: &str) -> (r: Option<String>)
        ensures
            r is Some <==> self@.contains_key(code@),
            r is Some ==> (r->0)@ == self@[code@],
    {
        let ghost all = self.entries.deep_view();
        let mut i: usize = self.entries.len();
        assert(all.take(all.len() as int) == all);
        while i > 0
            invariant
                i <= self.entries.len(),
                all == self.entries.deep_view(),
                entries_map(all.take(i as int)).contains_key(code@) <==> self@.contains_key(code@),
                self@.contains_key(code@) ==> entries_map(all.take(i as int))[code@]
                    == self@[code@],
            decreases i,
        {
            i -= 1;
            let (key, name) = &self.entries[i];
            proof {
                assert(all[i as int] == self.entries@[i as int].deep_view());
                assert(all.take(i + 1).drop_last() == all.take(i as int));
                assert(all.take(i + 1).last() == all[i as int]);
            }
            if same(key, code) {
                return Some(name.clone());
            }
        }
        None
    }
}

fn parse_key_name(line: &str) -> (r: Option<(String, String)>)
    ensures
        r.deep_view() == key_name(line@),
{
    match split_once(line, '=') {
        None => None,
        Some((left, right)) => {
            let mut codes = words(&left);
            let mut names = words(&right);
            if codes.len() < 2 {
                return None;
            }
            let ghost all = names.deep_view();
            let mut i: usize = 0;
            assert(all.skip(0) == all);
            while i < names.len()
                invariant
                    all == names.deep_view(),
                    all == words_of(right@),
                    i <= names.len(),
                    codes.len() >= 2,
                    codes.deep_view() == words_of(left@),
                    cut(line@, '=') == Some((left@, right@)),
                    first_symbol(all.skip(i as int)) == first_symbol(words_of(right@)),
                decreases names.len() - i,
            {
                assert(all[i as int] == names@[i as int]@);
                assert(all.skip(i as int)[0] == all[i as int]);
                if !same(&names[i], "NoSymbol") {
                    assert(codes.deep_view()[1] == codes@[1]@);
                    let name = names.remove(i);
                    return Some((codes.remove(1), name));
                }
                assert(all.skip(i as int).drop_first() == all.skip(i + 1));
                i += 1;
            }
            None
        },
    }
}

/// The names of keys from what `xmodmap -pke` prints.
pub fn x_keymap(text: &str) -> (map: Keymap)
    ensures
        map@ == key_names(lines_of(text@)),
{
    let ls = lines(text);
    let ghost all = lines_of(text@);
    let mut entries: Vec<(String, String)> = Vec::new();
    assert(entries.deep_view() == Seq::<(Seq<char>, Seq<char>)>::empty());
    for i in 0..ls.len()
        invariant
            ls.deep_view() == all,
            all == lines_of(text@),
            entries_map(entries.deep_view()) == key_names(all.take(i as int)),
    {
        proof {
            assert(all[i as int] == ls@[i as int]@);
            assert(all.take(i + 1).drop_last() == all.take(i as int));
            assert(all.take(i + 1).last() == all[i as int]);
        }
        if let Some(entry) = parse_key_name(&ls[i]) {
            let ghost before = entries.deep_view();
            entries.push(entry);
            proof {
                assert(entries.deep_view() == before.push(entry.deep_view()));
                assert(entries.deep_view().drop_last() == before);
            }
        }
    }
    assert(all.take(all.len() as int) == all);
    Keymap { entries }
}

// Recording.

/// Key presses recorded so far. `pending` says that a press was announced whose key is not yet
/// known.
#[derive(Debug)]
pub struct Recorder {
    pub pending: bool,
    pub commands: Vec<TextCommand>,
}

#[verifier::ext_equal]
pub struct RecorderView {
    pub pending: bool,
    pub commands: Seq<TextCommandView>,
}

impl DeepView for Recorder {
    type V = RecorderView;

    open spec fn deep_view(&self) -> RecorderView {
        RecorderView { pending: self.pending, commands: self.commands.deep_view() }
    }
}

/// A line that announces a key press.
pub open spec fn announces_press(line: Seq<char>) -> bool {
    holds_text(line, "(KeyPress)"@) || holds_text(line, "RawKeyPress"@)
}

/// The name of a key, or its code if it has no name.
pub open spec fn named_key(code: Seq<char>, names: Map<Seq<char>, Seq<char>>) -> Seq<char> {
    if names.contains_key(code) {
        names[code]
    } else {
        code
    }
}

/// What a line adds to a recording, and whether it ends it: the End key does.
pub open spec fn recorded(
    recorder: RecorderView,
    line: Seq<char>,
    names: Map<Seq<char>, Seq<char>>,
) -> (RecorderView, bool) {
    if announces_press(line) {
        (RecorderView { pending: true, ..recorder }, false)
    } else if !recorder.pending || detail_of(line) is None {
        (recorder, false)
    } else {
        let key = named_key(detail_of(line)->0, names);
        let after = RecorderView { pending: false, ..recorder };
        if key == "End"@ {
            (after, true)
        } else if is_modifier(key) {
            (after, false)
        } else {
            (
                RecorderView {
                    commands: recorder.commands.push(TextCommandView::Key(key)),
                    ..after
                },
                false,
            )
        }
    }
}

impl Recorder {
    pub fn new() -> (recorder: Recorder)
        ensures
            recorder.deep_view() == (RecorderView { pending: false, commands: seq![] }),
    {
        Recorder { pending: false, commands: Vec::new() }
    }

    /// Takes one line; true if the recording has ended.
    pub fn record(&mut self, line: &str, keymap: &Keymap) -> (ended: bool)
        ensures
            (final(self).deep_view(), ended) == recorded(old(self).deep_view(), line@, keymap@),
    {
        if has_text(line, "(KeyPress)") || has_text(line, "RawKeyPress") {
            self.pending = true;
            return false;
        }
        if !self.pending {
            return false;
        }
        let code = match parse_xinput_detail(line) {
            Some(code) => code,
            None => {
                return false;
            },
        };
        self.pending = false;
        let key = match keymap.get(&code) {
            Some(name) => name,
            None => code,
        };
        if same(&key, "End") {
            return true;
        }
        if !is_modifier_key(&key) {
            let ghost before = self.commands.deep_view();
            self.commands.push(TextCommand::Key(key));
            assert(self.commands.deep_view() == before.push(TextCommandView::Key(key@)));
        }
        false
    }
}

/// A recording of nothing but presses of keys, none of them a modifier or the End key.
pub open spec fn is_clean_recording(commands: Seq<TextCommandView>) -> bool {
    forall|i: int|
        0 <= i < commands.len() ==> match #[trigger] commands[i] {
            TextCommandView::Key(key) => !is_modifier(key) && key != "End"@,
            _ => false,
        }
}

/// No line puts a modifier, the End key or anything but a key into a recording, and what was
/// recorded before stays.
pub proof fn law_recordings_are_clean(
    recorder: RecorderView,
    line: Seq<char>,
    names: Map<Seq<char>, Seq<char>>,
)
    requires
        is_clean_recording(recorder.commands),
    ensures
        is_clean_recording(recorded(recorder, line, names).0.commands),
        recorder.commands.is_prefix_of(recorded(recorder, line, names).0.commands),
{
}

} // verus!
