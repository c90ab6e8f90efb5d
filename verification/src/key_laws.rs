//! What a recording holds.
use crate::config::TextCommandView;
use crate::facts::has_char;
use crate::keys::{
    announces_press, detail_of, first_symbol, key_name, key_names, recorded, RecorderView,
};
use crate::text::{holds_text, is_white_space, starts_with, trimmed, words_of};
use crate::text_laws::{is_blank, law_cutting, law_trimming, law_words};
use vstd::prelude::*;

verus! {

// Codes.

/// The code on a detail line is the first word behind the colon, whatever white space stands around
/// it and whatever follows it.
pub proof fn law_detail_line(
    before: Seq<char>,
    gap: Seq<char>,
    code: Seq<char>,
    rest: Seq<char>,
    after: Seq<char>,
)
    requires
        is_blank(before),
        is_blank(gap),
        code.len() > 0,
        forall|i: int| 0 <= i < code.len() ==> !is_white_space(#[trigger] code[i]),
        rest.len() > 0 ==> is_white_space(rest[0]) && !is_white_space(rest.last()),
        is_blank(after),
    ensures
        detail_of(before + ("detail:"@ + gap + code + rest) + after) == Some(code),
{
    reveal_strlit("detail:");
    let word = "detail:"@;
    assert(word.len() == 7 && word[0] == 'd');
    let body = word + gap + code + rest;
    assert(body[0] == 'd');
    if rest.len() > 0 {
        assert(body.last() == rest.last());
    } else {
        assert(body.last() == code[code.len() - 1]);
    }
    law_trimming(before, body, after);
    assert(body.take(7) == word);
    let value = body.skip(7);
    let inner = code + rest;
    assert(value == gap + inner + Seq::<char>::empty());
    assert(inner[0] == code[0]);
    assert(inner.last() == body.last());
    law_trimming(gap, inner, seq![]);
    law_words(seq![], code, rest);
    assert(Seq::<char>::empty() + code + rest == inner);
}

/// A line that does not begin with the word for it, or has nothing behind the colon, gives no code.
pub proof fn law_other_lines_give_no_code(line: Seq<char>)
    ensures
        !starts_with(trimmed(line), "detail:"@) ==> detail_of(line) is None,
        trimmed(line) == "detail:"@ ==> detail_of(line) is None,
{
    if trimmed(line) == "detail:"@ {
        let rest = trimmed(line).skip("detail:"@.len() as int);
        assert(rest == Seq::<char>::empty());
        law_trimming(seq![], seq![], seq![]);
        assert(Seq::<char>::empty() + Seq::<char>::empty() + Seq::<char>::empty() == Seq::<
            char,
        >::empty());
        law_words(seq![], seq!['x'], seq![]);
    }
}

// Presses.

/// A key that is held to change others.
pub open spec fn is_held_key(key: Seq<char>) -> bool {
    ||| key == "Shift_L"@ || key == "Shift_R"@
    ||| key == "Control_L"@ || key == "Control_R"@
    ||| key == "Alt_L"@ || key == "Alt_R"@
    ||| key == "Meta_L"@ || key == "Meta_R"@
    ||| key == "Super_L"@ || key == "Super_R"@
}

/// What a key of this code is called: by its name, or by its code if it has none.
pub open spec fn called(code: Seq<char>, names: Map<Seq<char>, Seq<char>>) -> Seq<char> {
    if names.dom().contains(code) {
        names[code]
    } else {
        code
    }
}

/// A line with one of the two words for a press announces one; it adds nothing by itself.
pub proof fn law_announcement(
    recorder: RecorderView,
    front: Seq<char>,
    back: Seq<char>,
    raw: bool,
    names: Map<Seq<char>, Seq<char>>,
)
    ensures
        ({
            let word = if raw {
                "RawKeyPress"@
            } else {
                "(KeyPress)"@
            };
            let line = front + word + back;
            &&& announces_press(line)
            &&& recorded(recorder, line, names) == (
                RecorderView { pending: true, commands: recorder.commands },
                false,
            )
        }),
{
    let word = if raw {
        "RawKeyPress"@
    } else {
        "(KeyPress)"@
    };
    let line = front + word + back;
    let i = front.len() as int;
    assert(line.skip(i).take(word.len() as int) == word);
    assert(starts_with(line.skip(i), word));
    assert(holds_text(line, word));
}

/// Whatever was recorded before, the code that follows an announcement adds exactly one step, the
/// press of the key, unless the key is held to change others or is the End key; the End key ends the
/// recording. What was recorded stays.
pub proof fn law_every_press_is_recorded(
    recorder: RecorderView,
    line: Seq<char>,
    code: Seq<char>,
    names: Map<Seq<char>, Seq<char>>,
)
    requires
        recorder.pending,
        !announces_press(line),
        detail_of(line) == Some(code),
    ensures
        ({
            let key = called(code, names);
            let (after, ended) = recorded(recorder, line, names);
            &&& !after.pending
            &&& ended <==> key == "End"@
            &&& key == "End"@ || is_held_key(key) ==> after.commands == recorder.commands
            &&& key != "End"@ && !is_held_key(key) ==> after.commands == recorder.commands.push(
                TextCommandView::Key(key),
            )
        }),
{
    lemma_end_is_not_held();
}

proof fn lemma_end_is_not_held()
    ensures
        !is_held_key("End"@),
{
    reveal_strlit("End");
    reveal_strlit("Shift_L");
    reveal_strlit("Shift_R");
    reveal_strlit("Control_L");
    reveal_strlit("Control_R");
    reveal_strlit("Alt_L");
    reveal_strlit("Alt_R");
    reveal_strlit("Meta_L");
    reveal_strlit("Meta_R");
    reveal_strlit("Super_L");
    reveal_strlit("Super_R");
    assert("End"@.len() == 3);
}

/// A line that is not awaited, or gives no code, changes nothing.
pub proof fn law_other_lines_are_passed_over(
    recorder: RecorderView,
    line: Seq<char>,
    names: Map<Seq<char>, Seq<char>>,
)
    requires
        !announces_press(line),
        !recorder.pending || detail_of(line) is None,
    ensures
        recorded(recorder, line, names) == (recorder, false),
{
}

/// A line announces a press only if it holds one of the two words.
pub proof fn law_what_announces(line: Seq<char>)
    ensures
        announces_press(line) <==> exists|i: int|
            0 <= i <= line.len() && (starts_with(#[trigger] line.skip(i), "(KeyPress)"@)
                || starts_with(line.skip(i), "RawKeyPress"@)),
{
    if holds_text(line, "(KeyPress)"@) {
        let i = choose|i: int|
            0 <= i <= line.len() && starts_with(#[trigger] line.skip(i), "(KeyPress)"@);
        assert(starts_with(line.skip(i), "(KeyPress)"@));
    }
    if holds_text(line, "RawKeyPress"@) {
        let i = choose|i: int|
            0 <= i <= line.len() && starts_with(#[trigger] line.skip(i), "RawKeyPress"@);
        assert(starts_with(line.skip(i), "RawKeyPress"@));
    }
}

/// What a recorder has after a number of lines.
pub open spec fn after_lines(
    recorder: RecorderView,
    ls: Seq<Seq<char>>,
    names: Map<Seq<char>, Seq<char>>,
) -> RecorderView
    decreases ls.len(),
{
    if ls.len() == 0 {
        recorder
    } else {
        recorded(after_lines(recorder, ls.drop_last(), names), ls.last(), names).0
    }
}

/// A press as it is printed: a line that announces it and a line with its code.
pub struct Press {
    pub announcement: Seq<char>,
    pub detail: Seq<char>,
    pub code: Seq<char>,
}

pub open spec fn is_press(press: Press) -> bool {
    &&& announces_press(press.announcement)
    &&& !announces_press(press.detail)
    &&& detail_of(press.detail) == Some(press.code)
}

pub open spec fn press_lines(presses: Seq<Press>) -> Seq<Seq<char>>
    decreases presses.len(),
{
    if presses.len() == 0 {
        seq![]
    } else {
        press_lines(presses.drop_last()).push(presses.last().announcement).push(
            presses.last().detail,
        )
    }
}

/// The keys that are to be recorded of a number of presses.
pub open spec fn keys_pressed(
    presses: Seq<Press>,
    names: Map<Seq<char>, Seq<char>>,
) -> Seq<TextCommandView> {
    presses.map_values(|press: Press| called(press.code, names)).filter(
        |key: Seq<char>| key != "End"@ && !is_held_key(key),
    ).map_values(|key: Seq<char>| TextCommandView::Key(key))
}

/// A recording is complete: each press of a key adds its step, in order, how often the key is
/// pressed and whatever was pressed before.
pub proof fn law_recordings_are_complete(
    recorder: RecorderView,
    presses: Seq<Press>,
    names: Map<Seq<char>, Seq<char>>,
)
    requires
        forall|i: int| 0 <= i < presses.len() ==> is_press(#[trigger] presses[i]),
    ensures
        after_lines(recorder, press_lines(presses), names).commands == recorder.commands
            + keys_pressed(presses, names),
    decreases presses.len(),
{
    let call = |press: Press| called(press.code, names);
    let wanted = |key: Seq<char>| key != "End"@ && !is_held_key(key);
    let step = |key: Seq<char>| TextCommandView::Key(key);
    reveal(Seq::filter);
    if presses.len() == 0 {
        assert(presses.map_values(call) == Seq::<Seq<char>>::empty());
        assert(keys_pressed(presses, names) == Seq::<TextCommandView>::empty());
        assert(recorder.commands + Seq::<TextCommandView>::empty() == recorder.commands);
    } else {
        let front = presses.drop_last();
        let last = presses.last();
        assert(is_press(presses[presses.len() - 1]));
        assert forall|i: int| 0 <= i < front.len() implies is_press(#[trigger] front[i]) by {
            assert(front[i] == presses[i]);
        }
        law_recordings_are_complete(recorder, front, names);
        let ls = press_lines(front);
        let with_announcement = ls.push(last.announcement);
        let all = with_announcement.push(last.detail);
        assert(all.drop_last() == with_announcement);
        assert(with_announcement.drop_last() == ls);
        let before = after_lines(recorder, ls, names);
        let announced = after_lines(recorder, with_announcement, names);
        assert(announced == RecorderView { pending: true, commands: before.commands });
        law_every_press_is_recorded(announced, last.detail, last.code, names);
        let key = called(last.code, names);
        let keys = front.map_values(call);
        assert(presses.map_values(call) == keys.push(key));
        assert(keys.push(key).drop_last() == keys);
        let kept = keys.filter(wanted);
        if wanted(key) {
            assert(keys.push(key).filter(wanted) == kept.push(key));
            assert(kept.push(key).map_values(step) == kept.map_values(step).push(step(key)));
            assert(recorder.commands + kept.map_values(step).push(step(key)) == (recorder.commands
                + kept.map_values(step)).push(step(key)));
        } else {
            assert(keys.push(key).filter(wanted) == kept);
        }
    }
}

// Names.

/// A line names a key if it has an equals sign, two words at least before the first, and a word
/// other than `NoSymbol` behind it: the second word is the code, and the first such word the name.
pub proof fn law_key_name_line(left: Seq<char>, right: Seq<char>, i: int)
    requires
        !has_char(left, '='),
    ensures
        words_of(left).len() < 2 ==> key_name(left + seq!['='] + right) is None,
        (forall|k: int| 0 <= k < words_of(right).len() ==> #[trigger] words_of(right)[k]
            == "NoSymbol"@) ==> key_name(left + seq!['='] + right) is None,
        words_of(left).len() >= 2 && 0 <= i < words_of(right).len() && (forall|k: int|
            0 <= k < i ==> #[trigger] words_of(right)[k] == "NoSymbol"@) && words_of(right)[i]
            != "NoSymbol"@ ==> key_name(left + seq!['='] + right) == Some(
            (words_of(left)[1], words_of(right)[i]),
        ),
        key_name(left) is None,
{
    law_cutting(left, '=', right);
    lemma_first_symbol(words_of(right), i);
}

proof fn lemma_first_symbol(ws: Seq<Seq<char>>, i: int)
    ensures
        (forall|k: int| 0 <= k < ws.len() ==> #[trigger] ws[k] == "NoSymbol"@) ==> first_symbol(ws)
            is None,
        0 <= i < ws.len() && (forall|k: int| 0 <= k < i ==> #[trigger] ws[k] == "NoSymbol"@)
            && ws[i] != "NoSymbol"@ ==> first_symbol(ws) == Some(ws[i]),
    decreases ws.len(),
{
    if ws.len() > 0 {
        let rest = ws.drop_first();
        lemma_first_symbol(rest, i - 1);
        if forall|k: int| 0 <= k < ws.len() ==> #[trigger] ws[k] == "NoSymbol"@ {
            assert forall|k: int| 0 <= k < rest.len() implies #[trigger] rest[k]
                == "NoSymbol"@ by {
                assert(rest[k] == ws[k + 1]);
            }
            assert(ws[0] == "NoSymbol"@);
        }
        if 0 < i < ws.len() && (forall|k: int| 0 <= k < i ==> #[trigger] ws[k] == "NoSymbol"@)
            && ws[i] != "NoSymbol"@ {
            assert forall|k: int| 0 <= k < i - 1 implies #[trigger] rest[k] == "NoSymbol"@ by {
                assert(rest[k] == ws[k + 1]);
            }
            assert(rest[i - 1] == ws[i]);
            assert(ws[0] == "NoSymbol"@);
        }
    }
}

/// A line that names a key gives it that name, whatever name it had, and leaves the others as they
/// are; another line changes nothing.
pub proof fn law_one_name_more(ls: Seq<Seq<char>>, line: Seq<char>, code: Seq<char>)
    ensures
        key_names(Seq::<Seq<char>>::empty()).dom() == Set::<Seq<char>>::empty(),
        key_name(line) is None ==> key_names(ls.push(line)) == key_names(ls),
        key_name(line) matches Some((named, name)) ==> {
            &&& key_names(ls.push(line)).dom().contains(named)
            &&& key_names(ls.push(line))[named] == name
            &&& code != named ==> (key_names(ls.push(line)).dom().contains(code) <==> key_names(
                ls,
            ).dom().contains(code))
            &&& code != named && key_names(ls).dom().contains(code) ==> key_names(
                ls.push(line),
            )[code] == key_names(ls)[code]
        },
{
    assert(ls.push(line).drop_last() == ls);
}

} // verus!
