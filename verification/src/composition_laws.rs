//! What holds of typing and editing as a whole.

use vstd::prelude::*;

use crate::buffer;
use crate::buffer::BufferView;
use crate::engine::EngineView;
use crate::kana;
use crate::key;
use crate::key::{KeyEvent, Keysym, Modifiers};
use crate::romaji;
use crate::romaji::GroupView;
use crate::state::InputMode;
use crate::text;

verus! {

/// What is joined from a beginning and the rest is joined from all.
proof fn lemma_concat_split(parts: Seq<Seq<char>>, at: int)
    requires
        0 <= at <= parts.len(),
    ensures
        text::concat(parts.take(at)) + text::concat(parts.skip(at)) == text::concat(parts),
{
    assert(parts.take(at) + parts.skip(at) =~= parts);
    text::lemma_concat_add(parts.take(at), parts.skip(at));
}

/// A key typed as romaji joins the keys typed so far where the caret is: no key
/// is lost, doubled or put out of order.
pub proof fn law_typing_keeps_keys(e: EngineView, key: char)
    requires
        e.ready(),
    ensures
        e.romaji_typed(key).raw_text() == e.buffer.raw_before() + e.pending.push(key)
            + e.buffer.raw_after(),
        e.romaji_typed(key).ready(),
{
    let keys = e.pending.push(key);
    let groups = romaji::fed_groups(keys);
    romaji::lemma_feeding_keeps_keys(keys);
    buffer::law_insert_keeps_keys(e.buffer, groups);
    assert(e.romaji_typed(key).raw_text() =~= e.buffer.raw_before() + (romaji::raw_of(groups)
        + romaji::fed_rest(keys)) + e.buffer.raw_after());
}

/// Where no key waits, the waiting keys become nothing.
pub proof fn lemma_nothing_waits(e: EngineView)
    requires
        e.pending.len() == 0,
    ensures
        e.settled_kana() == Seq::<char>::empty(),
        e.settled_reading() == e.buffer.text.take(e.buffer.cursor) + e.buffer.text.skip(
            e.buffer.cursor,
        ),
{
    let none = romaji::settled_groups(e.pending);
    assert(Seq::new(none.len(), |i: int| none[i].kana) =~= Seq::<Seq<char>>::empty());
    assert(e.settled_reading() =~= e.buffer.text.take(e.buffer.cursor) + e.buffer.text.skip(
        e.buffer.cursor,
    ));
}

/// A composition that is not blank has a reading.
pub proof fn lemma_not_blank(e: EngineView)
    requires
        e.ready(),
    ensures
        !e.is_blank() ==> e.covered_reading().len() > 0,
{
    if e.pending.len() > 0 {
        let groups = romaji::settled_groups(e.pending);
        let parts = Seq::new(groups.len(), |i: int| groups[i].kana);
        if e.pending == seq!['n'] {
            assert(parts =~= seq![seq!['ん']]);
            text::lemma_concat_one(seq!['ん']);
        } else {
            romaji::lemma_concat_singletons(e.pending, parts);
        }
    }
}

/// Resolving the waiting keys changes neither the keys nor the reading.
pub proof fn law_flushing_keeps_keys(e: EngineView)
    requires
        e.ready(),
    ensures
        e.flushed().raw_text() == e.raw_text(),
        e.flushed().buffer.text == e.settled_reading(),
        e.flushed().settled_reading() == e.settled_reading(),
        e.flushed().ready(),
{
    let groups = romaji::settled_groups(e.pending);
    romaji::lemma_settling_keeps_keys(e.pending);
    buffer::law_insert_keeps_keys(e.buffer, groups);
    let after = e.flushed();
    assert(after.raw_text() =~= e.raw_text());
    lemma_nothing_waits(after);
    assert(after.settled_reading() =~= after.buffer.text);
}

/// Moving the caret changes neither the keys nor the reading.
pub proof fn law_caret_keeps_keys(e: EngineView, position: int)
    requires
        e.ready(),
        0 <= position <= e.flushed().buffer.text.len(),
    ensures
        e.caret_at(position).raw_text() == e.raw_text(),
        e.caret_at(position).settled_reading() == e.settled_reading(),
{
    law_flushing_keeps_keys(e);
    let flushed = e.flushed();
    let moved = e.caret_at(position);
    lemma_concat_split(flushed.buffer.raws, flushed.buffer.cursor);
    lemma_concat_split(flushed.buffer.raws, position);
    assert(moved.raw_text() =~= text::concat(flushed.buffer.raws));
    assert(flushed.raw_text() =~= text::concat(flushed.buffer.raws));
    assert(moved.settled_kana() == flushed.settled_kana());
    lemma_nothing_waits(flushed);
    assert(moved.settled_reading() =~= flushed.buffer.text);
}

/// The caret keys move within the input, waiting keys and all: home goes to its
/// start and end to its end, and left and right go one place from where the
/// caret stands after the kana of the waiting keys.
pub proof fn law_caret_moves_in_input(e: EngineView)
    requires
        e.ready(),
    ensures
        e.caret_home().0.buffer.cursor == 0,
        e.caret_end().0.buffer.cursor == e.settled_reading().len(),
        e.caret_left().0.buffer.cursor == if e.settled_cursor() > 0 {
            e.settled_cursor() - 1
        } else {
            0
        },
        e.caret_right().0.buffer.cursor == if e.settled_cursor() < e.settled_reading().len() {
            e.settled_cursor() + 1
        } else {
            e.settled_reading().len() as int
        },
        e.caret_home().0.buffer.text == e.settled_reading(),
        e.caret_end().0.buffer.text == e.settled_reading(),
        e.caret_left().0.buffer.text == e.settled_reading(),
        e.caret_right().0.buffer.text == e.settled_reading(),
{
    law_flushing_keeps_keys(e);
    romaji::lemma_settling_keeps_keys(e.pending);
    buffer::law_insert_keeps_keys(e.buffer, romaji::settled_groups(e.pending));
    assert(e.flushed().buffer.cursor == e.settled_cursor());
}

/// A character put in as it is joins the keys at the caret, after those that
/// waited.
pub proof fn law_inserting_keeps_keys(e: EngineView, c: char, raw: char)
    requires
        e.ready(),
    ensures
        e.inserted(c, raw).raw_text() == e.buffer.raw_before() + e.pending.push(raw)
            + e.buffer.raw_after(),
        e.inserted(c, raw).ready(),
{
    let groups = romaji::settled_groups(e.pending);
    romaji::lemma_settling_keeps_keys(e.pending);
    buffer::law_insert_keeps_keys(e.buffer, groups);
    let flushed = e.flushed().buffer;
    let one = GroupView { kana: seq![c], raw: seq![raw] };
    buffer::law_insert_keeps_keys(flushed, seq![one]);
    reveal_with_fuel(BufferView::insert_all, 2);
    assert(seq![one].drop_last() =~= Seq::<GroupView>::empty());
    assert(flushed.insert_all(seq![one]) == flushed.insert(seq![c], seq![raw]));
    assert(romaji::raw_of(seq![one]) == seq![raw]) by {
        assert(Seq::new(seq![one].len(), |i: int| seq![one][i].raw) =~= seq![seq![raw]]);
        text::lemma_concat_one(seq![raw]);
    }
    assert(e.inserted(c, raw).raw_text() =~= e.buffer.raw_before() + e.pending.push(raw)
        + e.buffer.raw_after());
}

/// A character key without modifiers.
pub open spec fn character_key(c: char) -> KeyEvent {
    KeyEvent {
        keysym: Keysym::Character(c),
        modifiers: Modifiers { shift_key: false, control_key: false, alt_key: false },
    }
}

/// A named key without modifiers.
pub open spec fn named_key(keysym: Keysym) -> KeyEvent {
    KeyEvent {
        keysym,
        modifiers: Modifiers { shift_key: false, control_key: false, alt_key: false },
    }
}

/// The engine after characters typed one after the other.
pub open spec fn after_typing(e: EngineView, keys: Seq<char>) -> EngineView
    decreases keys.len(),
{
    if keys.len() == 0 {
        e
    } else {
        after_typing(e, keys.drop_last()).pressed(character_key(keys.last())).0
    }
}

/// All characters can be typed.
pub open spec fn all_printable(keys: Seq<char>) -> bool {
    forall|i: int| 0 <= i < keys.len() ==> key::is_printable(#[trigger] keys[i])
}

/// A character typed while nothing or text is under composition: the engine
/// composes, and the key joins the others at the caret.
pub proof fn law_typed_key_joins(e: EngineView, c: char)
    requires
        e.wf(),
        !(e.state is Conversion),
        key::is_printable(c),
    ensures
        e.pressed(character_key(c)).0.ready(),
        e.pressed(character_key(c)).0.wf(),
        e.pressed(character_key(c)).0.state is Composing,
        e.pressed(character_key(c)).0.raw_text() == e.buffer.raw_before() + e.pending.push(c)
            + e.buffer.raw_after(),
        e.pressed(character_key(c)).0.buffer.raw_after() == e.buffer.raw_after(),
{
    law_typing_keeps_keys(e, c);
    law_inserting_keeps_keys(e, c, c);
    let groups = romaji::fed_groups(e.pending.push(c));
    romaji::lemma_feeding_keeps_keys(e.pending.push(c));
    buffer::law_insert_keeps_keys(e.buffer, groups);
    romaji::lemma_settling_keeps_keys(e.pending);
    buffer::law_insert_keeps_keys(e.buffer, romaji::settled_groups(e.pending));
    let flushed = e.flushed().buffer;
    let after = flushed.insert(seq![c], seq![c]);
    assert(after.raws.skip(after.cursor) =~= flushed.raws.skip(flushed.cursor));
}

/// While composing, F9 and F10 commit the keys: in full-width forms, and as they
/// are.
proof fn lemma_key_forms(e: EngineView)
    requires
        e.state is Composing,
    ensures
        e.pressed(named_key(Keysym::F9)) == e.committed(kana::fullwidth_text(e.raw_text())),
        e.pressed(named_key(Keysym::F10)) == e.committed(e.raw_text()),
{
}

/// F10 commits exactly the keys that were typed, and F9 commits them in their
/// full-width forms, whatever kana they became.
pub proof fn law_f9_and_f10_commit_typed_keys(e: EngineView, keys: Seq<char>)
    requires
        e.wf(),
        e.state is Empty,
        keys.len() > 0,
        all_printable(keys),
    ensures
        after_typing(e, keys).pressed(named_key(Keysym::F10)) == after_typing(e, keys).committed(
            keys,
        ),
        after_typing(e, keys).pressed(named_key(Keysym::F9)) == after_typing(e, keys).committed(
            kana::fullwidth_text(keys),
        ),
{
    lemma_after_typing(e, keys);
    lemma_key_forms(after_typing(e, keys));
}

/// After typing from rest, the engine composes and holds the typed keys before
/// the caret.
proof fn lemma_after_typing(e: EngineView, keys: Seq<char>)
    requires
        e.wf(),
        e.state is Empty,
        all_printable(keys),
    ensures
        after_typing(e, keys).wf(),
        !(after_typing(e, keys).state is Conversion),
        keys.len() > 0 ==> after_typing(e, keys).state is Composing,
        after_typing(e, keys).raw_text() == keys,
        after_typing(e, keys).buffer.raw_after() == Seq::<char>::empty(),
    decreases keys.len(),
{
    if keys.len() == 0 {
        assert(e.buffer.raws.take(e.buffer.cursor) =~= Seq::<Seq<char>>::empty());
        assert(e.buffer.raws.skip(e.buffer.cursor) =~= Seq::<Seq<char>>::empty());
        assert(e.raw_text() =~= keys);
    } else {
        let init = keys.drop_last();
        assert(all_printable(init)) by {
            assert forall|i: int| 0 <= i < init.len() implies key::is_printable(
                #[trigger] init[i],
            ) by {
                assert(init[i] == keys[i]);
            }
        }
        lemma_after_typing(e, init);
        let before = after_typing(e, init);
        assert(key::is_printable(keys[keys.len() - 1]));
        law_typed_key_joins(before, keys.last());
        assert(before.buffer.raw_before() + before.pending.push(keys.last())
            + before.buffer.raw_after() =~= before.raw_text().push(keys.last()));
        assert(before.raw_text().push(keys.last()) =~= keys);
    }
}

/// A group put in at the caret goes as a whole when backspace removes its last
/// character: the buffer is as it was before.
pub proof fn law_backspace_undoes_group(b: BufferView, kana: Seq<char>, raw: Seq<char>)
    requires
        b.wf(),
        kana.len() > 0,
        raw.len() > 0,
    ensures
        ({
            let grown = b.insert(kana, raw);
            grown.cut(buffer::group_start(grown.raws, grown.cursor - 1), grown.cursor) == b
        }),
{
    let grown = b.insert(kana, raw);
    let start = buffer::group_start(grown.raws, grown.cursor - 1);
    buffer::lemma_group_start(grown.raws, grown.cursor - 1);
    assert(grown.raws[b.cursor] == raw);
    assert(forall|i: int|
        b.cursor < i < grown.cursor ==> (#[trigger] grown.raws[i]) == Seq::<char>::empty());
    assert(start == b.cursor) by {
        if start < b.cursor {
            assert(grown.raws[b.cursor].len() == 0);
        }
        if start > b.cursor {
            assert(grown.raws[start].len() == 0);
        }
    }
    assert(grown.cut(start, grown.cursor) =~= b);
}

/// What backspace removes is one group: the keys before the caret lose those of
/// its first character and no others, and those after it stay. So no key is
/// left for a character that is gone.
pub proof fn law_backspace_removes_keys_of_group(e: EngineView)
    requires
        e.ready(),
        e.pending.len() == 0,
        e.buffer.cursor > 0,
    ensures
        ({
            let start = buffer::group_start(e.buffer.raws, e.buffer.cursor - 1);
            &&& e.buffer.raw_before() == e.without_group_before().buffer.raw_before()
                + e.buffer.raws[start]
            &&& e.without_group_before().buffer.raw_after() == e.buffer.raw_after()
            &&& e.without_group_before().buffer.text == e.buffer.text.take(start)
                + e.buffer.text.skip(e.buffer.cursor)
        }),
{
    let b = e.buffer;
    let start = buffer::group_start(b.raws, b.cursor - 1);
    buffer::lemma_group_start(b.raws, b.cursor - 1);
    let left = e.without_group_before().buffer;
    assert(left.raws.take(left.cursor) =~= b.raws.take(start));
    assert(left.raws.skip(left.cursor) =~= b.raws.skip(b.cursor));
    let group = b.raws.subrange(start, b.cursor);
    assert(b.raws.take(b.cursor) =~= b.raws.take(start) + group);
    text::lemma_concat_add(b.raws.take(start), group);
    lemma_concat_head(group);
}

/// Where all parts but the first are empty, the first is all.
proof fn lemma_concat_head(parts: Seq<Seq<char>>)
    requires
        parts.len() > 0,
        forall|i: int| 0 < i < parts.len() ==> (#[trigger] parts[i]).len() == 0,
    ensures
        text::concat(parts) == parts[0],
    decreases parts.len(),
{
    if parts.len() == 1 {
        assert(parts =~= seq![parts[0]]);
        text::lemma_concat_one(parts[0]);
    } else {
        let init = parts.drop_last();
        assert forall|i: int| 0 < i < init.len() implies (#[trigger] init[i]).len() == 0 by {
            assert(init[i] == parts[i]);
        }
        lemma_concat_head(init);
        assert(parts[parts.len() - 1].len() == 0);
        assert(parts[0] + parts.last() =~= parts[0]);
    }
}

/// Turning to katakana and back gives the mode and the reading there were.
pub proof fn law_toggle_twice(e: EngineView)
    requires
        e.ready(),
        e.mode == InputMode::Hiragana || e.mode == InputMode::Katakana,
    ensures
        e.katakana_toggled().0.katakana_toggled().0.mode == e.mode,
        e.katakana_toggled().0.katakana_toggled().0.buffer.text == e.settled_reading(),
        e.katakana_toggled().0.katakana_toggled().0.raw_text() == e.raw_text(),
{
    law_flushing_keeps_keys(e);
    let once = e.katakana_toggled().0;
    law_flushing_keeps_keys(once);
    assert(once.raw_text() == e.flushed().raw_text());
    assert(once.settled_reading() == e.flushed().settled_reading());
    let twice = once.katakana_toggled().0;
    assert(twice.raw_text() == once.flushed().raw_text());
}

} // verus!
