//! What each key does to the text under composition.

use vstd::prelude::*;

use crate::action;
use crate::action::ActionView;
use crate::buffer;
use crate::composition_laws;
use crate::engine::{EngineView, Step};
use crate::kana;
use crate::key;
use crate::key::{KeyEvent, Keysym, Modifiers};
use crate::romaji;
use crate::romaji::GroupView;
use crate::state::{InputMode, LearningLookup, StateView};
use crate::text;

verus! {

/// What waiting keys become when they are resolved: a lone `n` is the syllabic
/// n, and anything else stands for itself.
pub open spec fn resolved(keys: Seq<char>) -> Seq<char> {
    if keys == seq!['n'] {
        seq!['ん']
    } else {
        keys
    }
}

/// The text with `more` put in at the caret, after what the waiting keys become.
pub open spec fn text_with(e: EngineView, more: Seq<char>) -> Seq<char> {
    e.buffer.text.take(e.buffer.cursor) + resolved(e.pending) + more + e.buffer.text.skip(
        e.buffer.cursor,
    )
}

/// A key with control.
pub open spec fn control_key(keysym: Keysym) -> KeyEvent {
    KeyEvent {
        keysym,
        modifiers: Modifiers { shift_key: false, control_key: true, alt_key: false },
    }
}

/// A key with shift.
pub open spec fn shift_key(keysym: Keysym) -> KeyEvent {
    KeyEvent {
        keysym,
        modifiers: Modifiers { shift_key: true, control_key: false, alt_key: false },
    }
}

/// Waiting keys, resolved, stand at the caret, and the caret after them.
pub proof fn law_waiting_keys_resolve(e: EngineView)
    requires
        e.ready(),
    ensures
        e.settled_reading() == text_with(e, Seq::empty()),
        e.settled_cursor() == e.buffer.cursor + resolved(e.pending).len(),
        e.flushed().buffer.text == text_with(e, Seq::empty()),
        e.flushed().buffer.cursor == e.buffer.cursor + resolved(e.pending).len(),
        e.flushed().pending.len() == 0,
        e.flushed().ready(),
{
    let groups = romaji::settled_groups(e.pending);
    let parts = Seq::new(groups.len(), |i: int| groups[i].kana);
    if e.pending == seq!['n'] {
        assert(parts =~= seq![seq!['ん']]);
        text::lemma_concat_one(seq!['ん']);
    } else {
        romaji::lemma_concat_singletons(e.pending, parts);
    }
    assert(e.settled_kana() == resolved(e.pending));
    romaji::lemma_settling_keeps_keys(e.pending);
    buffer::law_insert_keeps_keys(e.buffer, groups);
    composition_laws::law_flushing_keeps_keys(e);
    assert(e.settled_reading() =~= text_with(e, Seq::empty()));
}

/// A character put in as it is stands after what the waiting keys became.
proof fn lemma_inserted(e: EngineView, c: char, raw: char)
    requires
        e.ready(),
    ensures
        e.inserted(c, raw).buffer.text == text_with(e, seq![c]),
        e.inserted(c, raw).buffer.cursor == e.buffer.cursor + resolved(e.pending).len() + 1,
        e.inserted(c, raw).pending.len() == 0,
        e.inserted(c, raw).mode == e.mode,
{
    law_waiting_keys_resolve(e);
    let k = e.buffer.cursor + resolved(e.pending).len();
    let t = text_with(e, Seq::empty());
    assert(t.take(k) =~= e.buffer.text.take(e.buffer.cursor) + resolved(e.pending));
    assert(t.skip(k) =~= e.buffer.text.skip(e.buffer.cursor));
    assert(e.inserted(c, raw).buffer.text =~= text_with(e, seq![c]));
}

/// In alphabet mode, and in emoji mode, every printable character typed is put
/// into the text at the caret as that very character; the mode stays, and no key
/// waits afterwards.
pub proof fn law_letters_stand_for_themselves(e: EngineView, c: char)
    requires
        e.wf(),
        !(e.state is Conversion),
        e.mode == InputMode::Alphabet || e.mode == InputMode::Emoji,
        key::is_printable(c),
    ensures
        ({
            let next = e.pressed(composition_laws::character_key(c)).0;
            &&& next.state is Composing
            &&& next.buffer.text == text_with(e, seq![c])
            &&& next.buffer.cursor == e.buffer.cursor + resolved(e.pending).len() + 1
            &&& next.pending.len() == 0
            &&& next.mode == e.mode
            &&& e.typed(c).0 == next
        }),
{
    lemma_inserted(e, c, c);
}

/// An upper-case letter stands for itself, and the letters after it will: the
/// engine is in alphabet mode.
pub proof fn law_upper_case_enters_alphabet_mode(e: EngineView, c: char)
    requires
        e.wf(),
        !(e.state is Conversion),
        e.mode == InputMode::Hiragana || e.mode == InputMode::Katakana,
        'A' <= c <= 'Z',
    ensures
        ({
            let next = e.pressed(composition_laws::character_key(c)).0;
            &&& next.state is Composing
            &&& next.buffer.text == text_with(e, seq![c])
            &&& next.buffer.cursor == e.buffer.cursor + resolved(e.pending).len() + 1
            &&& next.pending.len() == 0
            &&& next.mode == InputMode::Alphabet
        }),
{
    lemma_inserted(e, c, c);
}

/// Whether `c` is typed as romaji.
pub open spec fn is_romaji_key(e: EngineView, c: char) -> bool {
    &&& e.mode == InputMode::Hiragana || e.mode == InputMode::Katakana
    &&& key::is_printable(c)
    &&& !('A' <= c <= 'Z')
}

/// The keys of a syllable become its kana: where the waiting keys and the typed
/// one are those of a rule, the kana of the first such rule stand at the caret,
/// with these keys, and no key waits any more.
pub proof fn law_syllable_becomes_kana(e: EngineView, c: char, rule: int)
    requires
        e.wf(),
        !(e.state is Conversion),
        is_romaji_key(e, c),
        0 <= rule < romaji::RULES@.len(),
        romaji::RULES@[rule].0@ == e.pending.push(c),
        forall|i: int| 0 <= i < rule ==> (#[trigger] romaji::RULES@[i]).0@ != e.pending.push(c),
    ensures
        ({
            let next = e.pressed(composition_laws::character_key(c)).0;
            let at = e.buffer.cursor;
            let kana = if romaji::RULES@[rule].2 == '\0' {
                seq![romaji::RULES@[rule].1]
            } else {
                seq![romaji::RULES@[rule].1, romaji::RULES@[rule].2]
            };
            &&& next.state is Composing
            &&& next.buffer.text == e.buffer.text.take(at) + kana + e.buffer.text.skip(at)
            &&& next.buffer.cursor == at + kana.len()
            &&& next.buffer.raws[at] == e.pending.push(c)
            &&& next.pending.len() == 0
            &&& next.mode == e.mode
        }),
{
    let keys = e.pending.push(c);
    let p = romaji::rule_for(keys);
    assert(p(romaji::RULES@[rule]));
    assert forall|i: int| 0 <= i < rule implies !p(#[trigger] romaji::RULES@[i]) by {}
    text::lemma_find_first_is(romaji::RULES@, p, rule);
    let group = GroupView { kana: romaji::rule_kana(romaji::RULES@[rule]), raw: keys };
    assert(romaji::fed_groups(keys) =~= seq![group]);
    reveal_with_fuel(buffer::BufferView::insert_all, 2);
    assert(seq![group].drop_last() =~= Seq::<GroupView>::empty());
    assert(e.romaji_typed(c).buffer == e.buffer.insert(group.kana, keys));
}

/// Keys that are no syllable yet wait, as long as more keys can make them one:
/// the text stays as it is.
pub proof fn law_unfinished_syllable_waits(e: EngineView, c: char, rule: int)
    requires
        e.wf(),
        !(e.state is Conversion),
        is_romaji_key(e, c),
        forall|i: int|
            0 <= i < romaji::RULES@.len() ==> (#[trigger] romaji::RULES@[i]).0@ != e.pending.push(c),
        0 <= rule < romaji::RULES@.len(),
        e.pending.push(c).is_prefix_of(romaji::RULES@[rule].0@),
    ensures
        ({
            let next = e.pressed(composition_laws::character_key(c)).0;
            &&& next.state is Composing
            &&& next.buffer == e.buffer
            &&& next.pending == e.pending.push(c)
            &&& next.mode == e.mode
        }),
{
    let keys = e.pending.push(c);
    let p = romaji::rule_for(keys);
    assert forall|i: int| 0 <= i < romaji::RULES@.len() implies !p(#[trigger] romaji::RULES@[i]) by {}
    text::lemma_find_first_none(romaji::RULES@, p);
    let q = romaji::rule_beyond(keys);
    assert(romaji::RULES@[rule].0@ != keys);
    if keys.len() == romaji::RULES@[rule].0@.len() {
        assert(keys =~= romaji::RULES@[rule].0@);
    }
    assert(q(romaji::RULES@[rule]));
    text::lemma_find_first(romaji::RULES@, q);
    assert(romaji::fed_groups(keys) =~= Seq::<GroupView>::empty());
}

/// No rule is for the keys or begins with them.
pub open spec fn is_dead_end(keys: Seq<char>) -> bool {
    forall|i: int|
        0 <= i < romaji::RULES@.len() ==> !keys.is_prefix_of((#[trigger] romaji::RULES@[i]).0@)
}

/// What the first of keys stands for that can be no syllable.
pub open spec fn left_behind(keys: Seq<char>) -> char {
    if keys.len() >= 2 && keys[0] == 'n' {
        'ん'
    } else if keys.len() >= 2 && keys[0] == keys[1] && 'a' <= keys[0] <= 'z' && keys[0] != 'a'
        && keys[0] != 'i' && keys[0] != 'u' && keys[0] != 'e' && keys[0] != 'o' {
        'っ'
    } else {
        keys[0]
    }
}

/// Where the waiting keys and the typed one can be no syllable, the first of them
/// goes into the text: as the syllabic n, as the small tsu of a doubled consonant,
/// or as itself. The others are as if they had been typed after it.
pub proof fn law_dead_end_leaves_first_key(e: EngineView, c: char)
    requires
        e.wf(),
        !(e.state is Conversion),
        is_romaji_key(e, c),
        is_dead_end(e.pending.push(c)),
    ensures
        ({
            let keys = e.pending.push(c);
            let next = e.pressed(composition_laws::character_key(c)).0;
            let at = e.buffer.cursor;
            let one = e.buffer.insert(seq![left_behind(keys)], seq![keys[0]]);
            &&& next.state is Composing
            &&& one.text == e.buffer.text.take(at) + seq![left_behind(keys)] + e.buffer.text.skip(at)
            &&& one.cursor == at + 1
            &&& if e.pending.len() == 0 {
                next.buffer == one && next.pending.len() == 0
            } else {
                let later = EngineView {
                    buffer: one,
                    pending: e.pending.drop_first(),
                    ..e
                }.romaji_typed(c);
                next.buffer == later.buffer && next.pending == later.pending
            }
        }),
{
    let keys = e.pending.push(c);
    let p = romaji::rule_for(keys);
    let q = romaji::rule_beyond(keys);
    assert forall|i: int| 0 <= i < romaji::RULES@.len() implies !p(#[trigger] romaji::RULES@[i])
        && !q(romaji::RULES@[i]) by {
        if romaji::RULES@[i].0@ == keys {
            assert(keys =~= keys.subrange(0, keys.len() as int));
        }
    }
    text::lemma_find_first_none(romaji::RULES@, p);
    text::lemma_find_first_none(romaji::RULES@, q);
    let rest = keys.drop_first();
    let first = romaji::stranded(keys);
    assert(first.kana =~= seq![left_behind(keys)]);
    assert(romaji::fed_groups(keys) == seq![first] + romaji::fed_groups(rest));
    lemma_insert_all_cons(e.buffer, first, romaji::fed_groups(rest));
    let one = e.buffer.insert(seq![left_behind(keys)], seq![keys[0]]);
    assert(first.raw =~= seq![keys[0]]);
    assert(one == e.buffer.insert(first.kana, first.raw));
    assert(e.pressed(composition_laws::character_key(c)).0.buffer == one.insert_all(romaji::fed_groups(rest)));
    assert(e.pressed(composition_laws::character_key(c)).0.pending == romaji::fed_rest(rest));
    if e.pending.len() == 0 {
        assert(rest =~= Seq::<char>::empty());
    } else {
        assert(e.pending.drop_first().push(c) =~= rest);
    }
}

/// Groups put in after a first one.
proof fn lemma_insert_all_cons(b: buffer::BufferView, first: GroupView, others: Seq<GroupView>)
    ensures
        b.insert_all(seq![first] + others) == b.insert(first.kana, first.raw).insert_all(others),
    decreases others.len(),
{
    let all = seq![first] + others;
    if others.len() == 0 {
        reveal_with_fuel(buffer::BufferView::insert_all, 2);
        assert(all =~= seq![first]);
        assert(all.drop_last() =~= Seq::<GroupView>::empty());
    } else {
        assert(all.drop_last() =~= seq![first] + others.drop_last());
        assert(all.last() == others.last());
        lemma_insert_all_cons(b, first, others.drop_last());
    }
}

/// The delete key removes exactly the character at the caret with its entry for
/// the keys, and the caret stays; at the end, and while keys wait, it does
/// nothing.
pub proof fn law_delete_removes_at_caret(e: EngineView)
    requires
        e.wf(),
        e.state is Composing,
    ensures
        ({
            let next = e.pressed(composition_laws::named_key(Keysym::DELETE)).0;
            let c = e.buffer.cursor;
            &&& e.pressed(composition_laws::named_key(Keysym::DELETE)).1.consumed
            &&& if e.pending.len() > 0 || c == e.buffer.text.len() {
                next == e
            } else {
                &&& next.buffer.text == e.buffer.text.take(c) + e.buffer.text.skip(c + 1)
                &&& next.buffer.raws == e.buffer.raws.take(c) + e.buffer.raws.skip(c + 1)
                &&& next.pending.len() == 0
                &&& e.buffer.text.len() > 1 ==> next.state is Composing && next.buffer.cursor == c
                &&& e.buffer.text.len() == 1 ==> next.state is Empty
            }
        }),
{
    let c = e.buffer.cursor;
    if e.pending.len() == 0 && c < e.buffer.text.len() && e.buffer.text.len() == 1 {
        assert(e.buffer.text.take(c) + e.buffer.text.skip(c + 1) =~= Seq::<char>::empty());
        assert(e.buffer.raws.take(c) + e.buffer.raws.skip(c + 1) =~= Seq::<Seq<char>>::empty());
    }
}

/// The characters from `start` to the caret are gone with their entries, the
/// first of which alone had keys, and the caret stands where they were.
pub open spec fn group_is_gone(e: EngineView, next: EngineView, start: int) -> bool {
    let c = e.buffer.cursor;
    &&& 0 <= start < c
    &&& start == 0 || e.buffer.raws[start].len() > 0
    &&& forall|k: int| start < k < c ==> (#[trigger] e.buffer.raws[k]).len() == 0
    &&& next.buffer.text == e.buffer.text.take(start) + e.buffer.text.skip(c)
    &&& next.buffer.raws == e.buffer.raws.take(start) + e.buffer.raws.skip(c)
    &&& next.buffer.text.len() > 0 ==> next.state is Composing && next.buffer.cursor == start
    &&& next.buffer.text.len() == 0 ==> next.state is Empty
}

/// Backspace takes back the last waiting key and leaves the text; where no key
/// waits it removes the character before the caret together with those before
/// it up to the one that has the keys, and the caret stands where they were.
pub proof fn law_backspace_removes_before_caret(e: EngineView)
    requires
        e.wf(),
        e.state is Composing,
    ensures
        ({
            let next = e.pressed(composition_laws::named_key(Keysym::BACKSPACE)).0;
            let c = e.buffer.cursor;
            &&& e.pressed(composition_laws::named_key(Keysym::BACKSPACE)).1.consumed
            &&& if e.pending.len() > 0 {
                &&& next.buffer == e.buffer
                &&& next.pending == e.pending.drop_last()
                &&& e.pending.len() > 1 || e.buffer.text.len() > 0 ==> next.state is Composing
                &&& e.pending.len() == 1 && e.buffer.text.len() == 0 ==> next.state is Empty
            } else if c == 0 {
                next == e
            } else {
                exists|start: int| #[trigger] group_is_gone(e, next, start)
            }
        }),
{
    let c = e.buffer.cursor;
    if e.pending.len() > 0 {
        if e.pending.len() == 1 && e.buffer.text.len() == 0 {
            assert(e.buffer.text =~= Seq::<char>::empty());
            assert(e.buffer.raws =~= Seq::<Seq<char>>::empty());
            assert(e.pending.drop_last() =~= Seq::<char>::empty());
            assert(e.buffer =~= buffer::empty_buffer());
        }
    } else if c > 0 {
        let start = buffer::group_start(e.buffer.raws, c - 1);
        buffer::lemma_group_start(e.buffer.raws, c - 1);
        let text = e.buffer.text.take(start) + e.buffer.text.skip(c);
        let raws = e.buffer.raws.take(start) + e.buffer.raws.skip(c);
        if text.len() == 0 {
            assert(text =~= Seq::<char>::empty());
            assert(raws =~= Seq::<Seq<char>>::empty());
        }
        assert(start == 0 || e.buffer.raws[start].len() > 0);
        let next = e.pressed(composition_laws::named_key(Keysym::BACKSPACE)).0;
        assert(next == e.without_group_before().edited().0);
        assert(next.buffer.text == text && next.buffer.raws == raws);
        assert(group_is_gone(e, next, start));
    }
}

/// The caret keys resolve the waiting keys and change nothing else of the text:
/// left and right go one place, home and end to the borders. Control with b, f,
/// a and e does the same.
pub proof fn law_caret_keys(e: EngineView)
    requires
        e.wf(),
        e.state is Composing,
    ensures
        ({
            let left = e.pressed(composition_laws::named_key(Keysym::LEFT));
            let right = e.pressed(composition_laws::named_key(Keysym::RIGHT));
            let home = e.pressed(composition_laws::named_key(Keysym::HOME));
            let end = e.pressed(composition_laws::named_key(Keysym::END));
            let all = text_with(e, Seq::empty());
            let at = e.buffer.cursor + resolved(e.pending).len();
            &&& left.0.buffer.text == all && right.0.buffer.text == all
            &&& home.0.buffer.text == all && end.0.buffer.text == all
            &&& left.0.buffer.cursor == if at > 0 {
                at - 1
            } else {
                0
            }
            &&& right.0.buffer.cursor == if at < all.len() {
                at + 1
            } else {
                all.len() as int
            }
            &&& home.0.buffer.cursor == 0
            &&& end.0.buffer.cursor == all.len()
            &&& left.0.pending.len() == 0 && right.0.pending.len() == 0
            &&& home.0.pending.len() == 0 && end.0.pending.len() == 0
            &&& left.0.state is Composing && right.0.state is Composing
            &&& home.0.state is Composing && end.0.state is Composing
            &&& e.pressed(control_key(Keysym::Character('b'))) == left
            &&& e.pressed(control_key(Keysym::Character('f'))) == right
            &&& e.pressed(control_key(Keysym::Character('a'))) == home
            &&& e.pressed(control_key(Keysym::Character('e'))) == end
        }),
{
    law_waiting_keys_resolve(e);
}

/// Space with control puts in a full-width space, and with shift a plain one;
/// either way the space key is the key that was typed. At rest control and space
/// start a composition.
pub proof fn law_spaces(e: EngineView)
    requires
        e.wf(),
        !(e.state is Conversion),
    ensures
        ({
            let wide = e.pressed(control_key(Keysym::SPACE));
            let at = e.buffer.cursor + resolved(e.pending).len();
            &&& wide.1.consumed
            &&& wide.0.state is Composing
            &&& wide.0.buffer.text == text_with(e, seq!['\u{3000}'])
            &&& wide.0.buffer.cursor == at + 1
            &&& wide.0.buffer.raws[at] == seq![' ']
            &&& e.state is Composing ==> {
                let plain = e.pressed(shift_key(Keysym::SPACE));
                &&& plain.0.state is Composing
                &&& plain.0.buffer.text == text_with(e, seq![' '])
                &&& plain.0.buffer.cursor == at + 1
                &&& plain.0.buffer.raws[at] == seq![' ']
            }
        }),
{
    lemma_inserted(e, '\u{3000}', ' ');
    lemma_inserted(e, ' ', ' ');
    law_waiting_keys_resolve(e);
}

/// Whether a step commits `text` and nothing else, and leaves the engine at rest.
pub open spec fn hands_over(step: Step, text: Seq<char>) -> bool {
    &&& step.1.consumed
    &&& step.1.actions.contains(ActionView::Commit(text))
    &&& forall|i: int|
        0 <= i < step.1.actions.len() && (#[trigger] step.1.actions[i]) is Commit
            ==> step.1.actions[i] == ActionView::Commit(text)
    &&& step.1.actions.contains(ActionView::HideCandidates)
    &&& step.1.actions.contains(ActionView::HideAuxText)
    &&& at_rest(step.0)
}

/// Nothing is under composition or conversion, and no mode for one composition
/// goes on.
pub open spec fn at_rest(e: EngineView) -> bool {
    &&& e.state is Empty
    &&& e.buffer.text.len() == 0
    &&& e.buffer.raws.len() == 0
    &&& e.buffer.cursor == 0
    &&& e.pending.len() == 0
    &&& !e.live.shown
    &&& e.tail is None
    &&& e.confirmed.len() == 0
    &&& e.upcoming.len() == 0
    &&& e.chunk_breaks.len() == 0
    &&& e.mode == InputMode::Hiragana || e.mode == InputMode::Katakana
}

/// What a commit of a text leaves.
proof fn lemma_committed(e: EngineView, text: Seq<char>)
    ensures
        hands_over(e.committed(text), text),
        e.mode == InputMode::Katakana <==> e.committed(text).0.mode == InputMode::Katakana,
        e.committed(text).0.learning == e.learning,
{
    let actions = e.committed(text).1.actions;
    assert(actions[0] == ActionView::HideCandidates);
    assert(actions[1] == ActionView::HideAuxText);
    assert(actions[2] == ActionView::Commit(text));
}

/// Enter commits the composition: the live conversion while it is shown, with
/// the waiting keys resolved, and else the text, in katakana mode as katakana.
/// Nothing is learned.
pub proof fn law_enter_commits_composition(e: EngineView)
    requires
        e.wf(),
        e.state is Composing,
    ensures
        ({
            let step = e.pressed(composition_laws::named_key(Keysym::RETURN));
            &&& hands_over(
                step,
                if e.live.shown {
                    e.live.text + resolved(e.pending)
                } else if e.mode == InputMode::Katakana {
                    kana::katakana_text(text_with(e, Seq::empty()))
                } else {
                    text_with(e, Seq::empty())
                },
            )
            &&& step.0.learning == e.learning
            &&& step.0.mode == InputMode::Katakana <==> e.mode == InputMode::Katakana
        }),
{
    lemma_resolved_kana(e);
    law_waiting_keys_resolve(e);
    lemma_committed(e, e.composed_text());
}

/// The kana of the waiting keys.
proof fn lemma_resolved_kana(e: EngineView)
    ensures
        e.settled_kana() == resolved(e.pending),
{
    let groups = romaji::settled_groups(e.pending);
    let parts = Seq::new(groups.len(), |i: int| groups[i].kana);
    if e.pending == seq!['n'] {
        assert(parts =~= seq![seq!['ん']]);
        text::lemma_concat_one(seq!['ん']);
    } else {
        romaji::lemma_concat_singletons(e.pending, parts);
    }
}

/// The function keys commit the composition in one form, while composing and
/// from within a conversion alike: hiragana, katakana, half-width katakana, the
/// typed keys in full width, and the typed keys. Nothing is learned.
pub proof fn law_function_keys_commit_forms(e: EngineView)
    requires
        e.wf(),
        !(e.state is Empty),
    ensures
        ({
            let reading = text_with(e, Seq::empty());
            let keys = text::concat(e.buffer.raws.take(e.buffer.cursor)) + e.pending
                + text::concat(e.buffer.raws.skip(e.buffer.cursor));
            &&& hands_over(e.pressed(composition_laws::named_key(Keysym::F6)), reading)
            &&& hands_over(e.pressed(composition_laws::named_key(Keysym::F7)), kana::katakana_text(reading))
            &&& hands_over(e.pressed(composition_laws::named_key(Keysym::F8)), kana::half_katakana_text(reading))
            &&& hands_over(e.pressed(composition_laws::named_key(Keysym::F9)), kana::fullwidth_text(keys))
            &&& hands_over(e.pressed(composition_laws::named_key(Keysym::F10)), keys)
            &&& e.state is Conversion ==> hands_over(
                e.pressed(composition_laws::named_key(Keysym::MUHENKAN)),
                kana::katakana_text(reading),
            )
            &&& e.pressed(composition_laws::named_key(Keysym::F6)).0.learning == e.learning
            &&& e.pressed(composition_laws::named_key(Keysym::F7)).0.learning == e.learning
            &&& e.pressed(composition_laws::named_key(Keysym::F8)).0.learning == e.learning
            &&& e.pressed(composition_laws::named_key(Keysym::F9)).0.learning == e.learning
            &&& e.pressed(composition_laws::named_key(Keysym::F10)).0.learning == e.learning
        }),
{
    law_waiting_keys_resolve(e);
    lemma_form_key(e, Keysym::F6);
    lemma_form_key(e, Keysym::F7);
    lemma_form_key(e, Keysym::F8);
    lemma_form_key(e, Keysym::F9);
    lemma_form_key(e, Keysym::F10);
    if e.state is Conversion {
        lemma_form_key(e, Keysym::MUHENKAN);
    }
}

/// A function key commits its form.
proof fn lemma_form_key(e: EngineView, keysym: Keysym)
    requires
        !(e.state is Empty),
        keysym == Keysym::F6 || keysym == Keysym::F7 || keysym == Keysym::F8 || keysym
            == Keysym::F9 || keysym == Keysym::F10 || (keysym == Keysym::MUHENKAN
            && e.state is Conversion),
    ensures
        e.pressed(composition_laws::named_key(keysym)) == e.committed(e.kana_form(keysym)),
        hands_over(e.pressed(composition_laws::named_key(keysym)), e.kana_form(keysym)),
        e.pressed(composition_laws::named_key(keysym)).0.learning == e.learning,
{
    assert(e.pressed(composition_laws::named_key(keysym)) == e.committed(e.kana_form(keysym)));
    lemma_committed(e, e.kana_form(keysym));
}

/// Escape drops the composition: nothing is committed or learned.
pub proof fn law_escape_drops_composition(e: EngineView)
    requires
        e.state is Composing,
    ensures
        ({
            let step = e.pressed(composition_laws::named_key(Keysym::ESCAPE));
            &&& step.1.consumed
            &&& at_rest(step.0)
            &&& forall|i: int|
                0 <= i < step.1.actions.len() ==> !((#[trigger] step.1.actions[i]) is Commit)
            &&& step.0.learning == e.learning
        }),
{
}

/// Muhenkan resolves the waiting keys and turns between hiragana and katakana:
/// the text stays, and is shown in katakana in katakana mode.
pub proof fn law_muhenkan_turns_script(e: EngineView)
    requires
        e.wf(),
        e.state is Composing,
    ensures
        ({
            let next = e.pressed(composition_laws::named_key(Keysym::MUHENKAN)).0;
            &&& next.buffer.text == text_with(e, Seq::empty())
            &&& next.pending.len() == 0
            &&& next.mode == if e.mode == InputMode::Katakana {
                InputMode::Hiragana
            } else {
                InputMode::Katakana
            }
            &&& shows_composition(next)
        }),
{
    law_waiting_keys_resolve(e);
}

/// What is shown while composing is the live conversion with the waiting keys, or
/// else the text with the waiting keys at the caret, in katakana mode as
/// katakana; it is underlined, and the caret stands after the waiting keys.
pub open spec fn shows_composition(e: EngineView) -> bool {
    let before = e.buffer.text.take(e.buffer.cursor);
    let after = e.buffer.text.skip(e.buffer.cursor);
    match e.state {
        StateView::Composing { preedit } => {
            &&& preedit.segments.len() == 1
            &&& !preedit.segments[0].highlighted
            &&& if e.live.shown {
                &&& preedit.segments[0].text == e.live.text + e.pending
                &&& preedit.caret == e.live.text.len() + e.pending.len()
            } else {
                &&& preedit.segments[0].text == if e.mode == InputMode::Katakana {
                    kana::katakana_text(before) + e.pending + kana::katakana_text(after)
                } else {
                    before + e.pending + after
                }
                &&& preedit.caret == before.len() + e.pending.len()
            }
        },
        _ => false,
    }
}

/// A step while composing: its key is taken, nothing is learned, and the engine
/// shows the composition if it still composes.
#[verifier::opaque]
spec fn sound(e: EngineView, step: Step) -> bool {
    &&& step.1.consumed
    &&& step.0.learning == e.learning
    &&& step.0.state is Composing ==> shows_composition(step.0)
}

/// A refreshed composition is shown.
proof fn lemma_refreshed_sound(e: EngineView)
    ensures
        sound(e, e.refreshed()),
        !e.refreshed().0.live.shown,
{
    reveal(sound);
}

/// A moved caret is shown.
proof fn lemma_caret_sound(e: EngineView, position: int)
    ensures
        sound(e, e.caret_moved(position)),
        !e.caret_moved(position).0.live.shown,
{
    reveal(sound);
}

/// A conversion started from a composition.
proof fn lemma_started_sound(e: EngineView, learning: LearningLookup)
    requires
        e.covered_reading().len() > 0,
    ensures
        sound(e, e.started(learning, false)),
{
    reveal(sound);
}

/// A backspace while composing.
proof fn lemma_backspaced_sound(e: EngineView)
    requires
        shows_composition(e),
    ensures
        sound(e, e.backspaced()),
{
    reveal(sound);
    lemma_refreshed_sound(e.without_group_before());
}

/// A delete while composing.
proof fn lemma_deleted_sound(e: EngineView)
    requires
        shows_composition(e),
    ensures
        sound(e, e.deleted()),
{
    reveal(sound);
    lemma_refreshed_sound(
        EngineView { buffer: e.buffer.cut(e.buffer.cursor, e.buffer.cursor + 1), ..e },
    );
}

/// A character typed.
proof fn lemma_typed_sound(e: EngineView, c: char)
    ensures
        sound(e, e.typed(c)),
        !e.typed(c).0.live.shown,
{
    reveal(sound);
    lemma_refreshed_sound(e.inserted(c, c));
    lemma_refreshed_sound(EngineView { mode: InputMode::Alphabet, ..e.inserted(c, c) });
    lemma_refreshed_sound(e.romaji_typed(c));
}

/// A chord of the control key while composing.
proof fn lemma_control_sound(e: EngineView, key: KeyEvent, shift: bool)
    requires
        key.modifiers.control_key,
        !key.modifiers.alt_key,
        shows_composition(e),
    ensures
        sound(e, e.composing_key(key, shift)),
{
    reveal(sound);
    lemma_refreshed_sound(e.inserted('\u{3000}', ' '));
    lemma_refreshed_sound(e);
    lemma_refreshed_sound(
        EngineView { chunk_breaks: e.chunk_breaks.push(e.buffer.cursor as usize), ..e },
    );
}

/// A commit or an end of the composition.
proof fn lemma_ended_sound(e: EngineView, text: Seq<char>)
    ensures
        sound(e, e.committed(text)),
        sound(e, e.cleared()),
{
    reveal(sound);
}

/// A key that does nothing while composing.
proof fn lemma_idle_sound(e: EngineView)
    requires
        shows_composition(e),
    ensures
        sound(e, (e, action::taken(Seq::empty()))),
{
    reveal(sound);
}

/// A key that starts a conversion.
proof fn lemma_starting_key_sound(e: EngineView, key: KeyEvent, shift: bool)
    requires
        !key.modifiers.control_key,
        !key.modifiers.alt_key,
        e.covered_reading().len() > 0,
        key.keysym == Keysym::SPACE || key.keysym == Keysym::DOWN || key.keysym == Keysym::TAB,
    ensures
        sound(e, e.composing_key(key, shift)),
{
    match key.keysym {
        Keysym::SPACE => {
            if shift {
                assert(e.composing_key(key, shift) == e.inserted(' ', ' ').refreshed());
                lemma_refreshed_sound(e.inserted(' ', ' '));
                assert(e.inserted(' ', ' ').learning == e.learning);
                reveal(sound);
            } else {
                assert(e.composing_key(key, shift) == e.started(LearningLookup::Use, false));
                lemma_started_sound(e, LearningLookup::Use);
            }
        },
        Keysym::DOWN => {
            assert(e.composing_key(key, shift) == e.started(LearningLookup::Use, false));
            lemma_started_sound(e, LearningLookup::Use);
        },
        _ => {
            assert(e.composing_key(key, shift) == e.started(LearningLookup::Skip, false));
            lemma_started_sound(e, LearningLookup::Skip);
        },
    }
}

/// A key without control while composing.
proof fn lemma_plain_sound(e: EngineView, key: KeyEvent, shift: bool)
    requires
        !key.modifiers.control_key,
        !key.modifiers.alt_key,
        shows_composition(e),
        e.covered_reading().len() > 0,
    ensures
        sound(e, e.composing_key(key, shift)),
{
    match key.keysym {
        Keysym::RETURN => {
            assert(e.composing_key(key, shift) == e.committed(e.composed_text()));
            lemma_ended_sound(e, e.composed_text());
        },
        Keysym::ESCAPE => {
            assert(e.composing_key(key, shift) == e.cleared());
            lemma_ended_sound(e, Seq::empty());
        },
        Keysym::BACKSPACE => {
            assert(e.composing_key(key, shift) == e.backspaced());
            lemma_backspaced_sound(e);
        },
        Keysym::DELETE => {
            assert(e.composing_key(key, shift) == e.deleted());
            lemma_deleted_sound(e);
        },
        Keysym::LEFT => {
            assert(e.composing_key(key, shift) == e.caret_left());
            let caret = e.flushed().buffer.cursor;
            lemma_caret_sound(e, caret - 1);
            lemma_caret_sound(e, 0);
        },
        Keysym::RIGHT => {
            assert(e.composing_key(key, shift) == e.caret_right());
            lemma_caret_sound(e, e.flushed().buffer.cursor + 1);
            lemma_caret_sound(e, e.flushed().buffer.text.len() as int);
        },
        Keysym::HOME => {
            assert(e.composing_key(key, shift) == e.caret_home());
            lemma_caret_sound(e, 0);
        },
        Keysym::END => {
            assert(e.composing_key(key, shift) == e.caret_end());
            lemma_caret_sound(e, e.flushed().buffer.text.len() as int);
        },
        Keysym::SPACE | Keysym::DOWN | Keysym::TAB => {
            lemma_starting_key_sound(e, key, shift);
        },
        Keysym::F6 | Keysym::F7 | Keysym::F8 | Keysym::F9 | Keysym::F10 => {
            assert(e.composing_key(key, shift) == e.committed(e.kana_form(key.keysym)));
            lemma_ended_sound(e, e.kana_form(key.keysym));
        },
        Keysym::MUHENKAN => {
            assert(e.composing_key(key, shift) == e.katakana_toggled());
            lemma_toggled_sound(e);
        },
        Keysym::Character(c) => {
            lemma_idle_sound(e);
            lemma_typed_sound(e, c);
        },
        _ => {
            lemma_idle_sound(e);
        },
    }
}

/// A turn to the other script.
proof fn lemma_toggled_sound(e: EngineView)
    ensures
        sound(e, e.katakana_toggled()),
        !e.katakana_toggled().0.live.shown,
{
    reveal(sound);
    lemma_refreshed_sound(EngineView { mode: InputMode::Hiragana, ..e.flushed() });
    lemma_refreshed_sound(EngineView { mode: InputMode::Katakana, ..e.flushed() });
}

/// After every key that leaves the engine composing, what is shown goes with the
/// composition; every key is taken but a chord with the alt key, and nothing
/// that is typed or edited is learned.
pub proof fn law_composition_is_shown(e: EngineView, key: KeyEvent)
    requires
        e.wf(),
        e.state is Composing,
        shows_composition(e),
        !e.is_blank(),
        !key.modifiers.alt_key,
    ensures
        e.pressed(key).1.consumed,
        e.pressed(key).0.learning == e.learning,
        e.pressed(key).0.state is Composing ==> shows_composition(e.pressed(key).0),
{
    reveal(sound);
    composition_laws::lemma_not_blank(e);
    let shift = key.modifiers.shift_key;
    if key.modifiers.control_key {
        lemma_control_sound(e, key, shift);
    } else {
        lemma_plain_sound(e, key, shift);
    }
}

/// A composition that starts from rest is shown.
pub proof fn law_first_key_is_shown(e: EngineView, key: KeyEvent)
    requires
        e.state is Empty,
        e.pressed(key).1.consumed,
    ensures
        e.pressed(key).0.state is Composing,
        shows_composition(e.pressed(key).0),
        e.pressed(key).0.learning == e.learning,
{
    reveal(sound);
    lemma_refreshed_sound(e.inserted('\u{3000}', ' '));
    if let Keysym::Character(c) = key.keysym {
        lemma_typed_sound(e, c);
    }
}

/// At rest only printable characters, and control with space, are taken; every
/// other key is left to the application and changes nothing.
pub proof fn law_at_rest_takes_characters_only(e: EngineView, key: KeyEvent)
    requires
        e.state is Empty,
    ensures
        e.pressed(key).1.consumed <==> !key.modifiers.alt_key && if key.modifiers.control_key {
            key.keysym == Keysym::SPACE
        } else {
            key.keysym matches Keysym::Character(c) && key::is_printable(c)
        },
        !e.pressed(key).1.consumed ==> e.pressed(key).0 == e && e.pressed(key).1.actions.len() == 0,
{
}

/// Control with j marks the caret as a place where the text is split for the
/// model, once, and keeps the marks there were.
pub proof fn law_chunk_break_marks_caret(e: EngineView)
    requires
        e.wf(),
        e.state is Composing,
        e.buffer.cursor <= usize::MAX,
    ensures
        ({
            let next = e.pressed(control_key(Keysym::Character('j'))).0;
            let at = e.buffer.cursor as usize;
            &&& next.buffer == e.buffer
            &&& next.pending == e.pending
            &&& next.chunk_breaks.contains(at)
            &&& e.chunk_breaks.contains(at) ==> next.chunk_breaks == e.chunk_breaks
            &&& !e.chunk_breaks.contains(at) ==> next.chunk_breaks == e.chunk_breaks.push(at)
        }),
{
    let at = e.buffer.cursor as usize;
    let marked = e.chunk_breaks.push(at);
    assert(marked[e.chunk_breaks.len() as int] == at);
}

/// A live conversion is shown while composing, and is left alone otherwise.
pub proof fn law_live_conversion_is_shown(e: EngineView, text: Seq<char>)
    ensures
        ({
            let step = e.live_shown(text);
            if e.state is Composing {
                &&& step.1.consumed
                &&& step.0.live.shown
                &&& step.0.live.text == text
                &&& step.0.buffer == e.buffer
                &&& step.0.pending == e.pending
                &&& shows_composition(step.0)
            } else {
                step.0 == e && !step.1.consumed
            }
        }),
{
}

/// Typing and editing end the live conversion: the kana are shown again.
pub proof fn law_edits_end_live_conversion(e: EngineView, c: char)
    requires
        e.wf(),
        e.state is Composing,
        key::is_printable(c),
    ensures
        !e.pressed(composition_laws::character_key(c)).0.live.shown,
        !e.pressed(composition_laws::named_key(Keysym::LEFT)).0.live.shown,
        !e.pressed(composition_laws::named_key(Keysym::RIGHT)).0.live.shown,
        !e.pressed(composition_laws::named_key(Keysym::HOME)).0.live.shown,
        !e.pressed(composition_laws::named_key(Keysym::END)).0.live.shown,
        !e.pressed(composition_laws::named_key(Keysym::MUHENKAN)).0.live.shown,
        e.pending.len() == 0 && e.buffer.cursor > 0 ==> !e.pressed(
            composition_laws::named_key(Keysym::BACKSPACE),
        ).0.live.shown,
        e.pending.len() == 0 && e.buffer.cursor < e.buffer.text.len() ==> !e.pressed(
            composition_laws::named_key(Keysym::DELETE),
        ).0.live.shown,
{
    lemma_typed_sound(e, c);
    assert(e.pressed(composition_laws::character_key(c)) == e.typed(c));
    lemma_toggled_sound(e);
    assert(e.pressed(composition_laws::named_key(Keysym::MUHENKAN)) == e.katakana_toggled());
    assert(e.pressed(composition_laws::named_key(Keysym::LEFT)) == e.caret_left());
    assert(e.pressed(composition_laws::named_key(Keysym::RIGHT)) == e.caret_right());
    assert(e.pressed(composition_laws::named_key(Keysym::HOME)) == e.caret_home());
    assert(e.pressed(composition_laws::named_key(Keysym::END)) == e.caret_end());
    assert(e.pressed(composition_laws::named_key(Keysym::BACKSPACE)) == e.backspaced());
    assert(e.pressed(composition_laws::named_key(Keysym::DELETE)) == e.deleted());
    lemma_refreshed_sound(e.without_group_before());
    lemma_refreshed_sound(
        EngineView { buffer: e.buffer.cut(e.buffer.cursor, e.buffer.cursor + 1), ..e },
    );
}

/// Going to another mode resolves the waiting keys and keeps the text.
pub proof fn law_mode_change_keeps_text(e: EngineView, mode: InputMode)
    requires
        e.wf(),
    ensures
        e.in_input_mode(mode).mode == mode,
        e.in_input_mode(mode).buffer.text == text_with(e, Seq::empty()),
        e.in_input_mode(mode).pending.len() == 0,
        e.state is Composing ==> shows_composition(e.in_input_mode(mode)),
        !(e.state is Composing) ==> e.in_input_mode(mode).state == e.state,
{
    law_waiting_keys_resolve(e);
}

/// The full-width form of printable ASCII has one character for each, beyond
/// ASCII, and its half-width form is the text again.
pub proof fn law_width_forms_undo(text: Seq<char>)
    requires
        forall|i: int| 0 <= i < text.len() ==> ' ' <= (#[trigger] text[i]) <= '~',
    ensures
        kana::fullwidth_text(text).len() == text.len(),
        forall|i: int|
            0 <= i < text.len() ==> (#[trigger] kana::fullwidth_text(text)[i]) > '~',
        kana::halfwidth_text(kana::fullwidth_text(text)) == text,
{
    let full = kana::fullwidth_text(text);
    assert forall|i: int| 0 <= i < text.len() implies (#[trigger] full[i]) > '~'
        && kana::halfwidth_char(full[i]) == text[i] by {
        lemma_width_char(text[i]);
    }
    assert(kana::halfwidth_text(full) =~= text);
}

/// The full-width form of one character and back.
proof fn lemma_width_char(c: char)
    requires
        ' ' <= c <= '~',
    ensures
        kana::fullwidth_char(c) > '~',
        kana::halfwidth_char(kana::fullwidth_char(c)) == c,
{
    let x = c as u32;
    assert(x as int == c as int);
    if 0x21 <= x {
        let y = (x + 0xfee0) as char;
        assert(y as int == x + 0xfee0);
        assert(y as u32 == x + 0xfee0);
    }
}

/// Katakana has one character for each; what is not hiragana stays, and each
/// hiragana is as far from its katakana as `あ` from `ア`. So none is hiragana.
pub proof fn law_katakana_of_text(text: Seq<char>)
    ensures
        kana::katakana_text(text).len() == text.len(),
        forall|i: int|
            0 <= i < text.len() ==> {
                let c = text[i];
                let k = #[trigger] kana::katakana_text(text)[i];
                if 'ぁ' <= c <= 'ゖ' || c == 'ゝ' || c == 'ゞ' {
                    k as int == c as int + ('ア' as int - 'あ' as int)
                } else {
                    k == c
                }
            },
        kana::katakana_text(kana::katakana_text(text)) == kana::katakana_text(text),
{
    let once = kana::katakana_text(text);
    assert forall|i: int| 0 <= i < text.len() implies {
        let c = text[i];
        let k = #[trigger] once[i];
        &&& kana::katakana_char(k) == k
        &&& if 'ぁ' <= c <= 'ゖ' || c == 'ゝ' || c == 'ゞ' {
            k as int == c as int + ('ア' as int - 'あ' as int)
        } else {
            k == c
        }
    } by {
        lemma_katakana_char(text[i]);
    }
    assert(kana::katakana_text(once) =~= once);
}

/// The katakana of one character.
proof fn lemma_katakana_char(c: char)
    ensures
        ({
            let k = kana::katakana_char(c);
            &&& kana::katakana_char(k) == k
            &&& if 'ぁ' <= c <= 'ゖ' || c == 'ゝ' || c == 'ゞ' {
                k as int == c as int + ('ア' as int - 'あ' as int)
            } else {
                k == c
            }
        }),
{
    let x = c as u32;
    assert(x as int == c as int);
    if kana::is_hiragana(c) {
        let y = (x + 0x60) as char;
        assert(y as int == x + 0x60);
        assert(y as u32 == x + 0x60);
    }
}

} // verus!
