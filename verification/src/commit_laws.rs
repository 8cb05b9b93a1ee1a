//! What a commit hands over, leaves and teaches, and what the other keys of a
//! conversion do.

use vstd::prelude::*;

use crate::action::ActionView;
use crate::candidate::CandidateSource;
use crate::composition_laws;
use crate::conversion;
use crate::conversion_laws;
use crate::editing_laws;
use crate::engine::EngineView;
use crate::key;
use crate::key::{KeyEvent, Keysym};
use crate::keys::ComposingEdit;
use crate::lexicon;
use crate::lexicon::EntryView;
use crate::part_laws;
use crate::preedit::PreeditView;
use crate::state;
use crate::state::{InputMode, LearningLookup, PieceView, StateView};
use crate::text;

verus! {

/// All that a conversion has converted: the texts of the parts before, the
/// selected text, the texts of the parts after.
pub open spec fn converted_text(e: EngineView, chosen: Seq<char>) -> Seq<char> {
    text::concat(Seq::new(e.confirmed.len(), |i: int| e.confirmed[i].text)) + chosen
        + text::concat(Seq::new(e.upcoming.len(), |i: int| e.upcoming[i].text))
}

/// What is handed over is all that was converted.
proof fn lemma_converted(e: EngineView, chosen: Seq<char>)
    ensures
        e.whole_text(chosen) == converted_text(e, chosen),
{
    assert(Seq::new(e.confirmed.len(), |i: int| e.confirmed[i].text) =~= state::piece_texts(
        e.confirmed,
    ));
    assert(Seq::new(e.upcoming.len(), |i: int| e.upcoming[i].text) =~= state::piece_texts(
        e.upcoming,
    ));
}

/// Whether a step hands over `text`, and nothing else.
pub open spec fn hands_over_only(actions: Seq<ActionView>, text: Seq<char>) -> bool {
    &&& actions.contains(ActionView::Commit(text))
    &&& forall|i: int|
        0 <= i < actions.len() && (#[trigger] actions[i]) is Commit ==> actions[i]
            == ActionView::Commit(text)
    &&& actions.contains(ActionView::HideCandidates)
}

/// Return hands over all that was converted. Without a tail the engine is at
/// rest; a tail is under composition afterwards, with the caret at its end, as
/// if each of its characters had been typed, and no longer live or split.
pub proof fn law_return_commits(e: EngineView)
    requires
        e.wf(),
        e.state is Conversion,
        part_laws::chosen_text(e).len() > 0 || e.confirmed.len() > 0,
    ensures
        ({
            let step = e.pressed(composition_laws::named_key(Keysym::RETURN));
            let next = step.0;
            &&& step == e.commit()
            &&& step.1.consumed
            &&& hands_over_only(step.1.actions, converted_text(e, part_laws::chosen_text(e)))
            &&& e.tail is None ==> editing_laws::at_rest(next)
            &&& e.tail matches Some(tail) ==> {
                &&& next.state is Composing
                &&& next.buffer.text == tail
                &&& next.buffer.cursor == tail.len()
                &&& next.buffer.raws.len() == tail.len()
                &&& forall|i: int|
                    0 <= i < tail.len() ==> (#[trigger] next.buffer.raws[i]) == seq![tail[i]]
                &&& next.pending.len() == 0
                &&& !next.live.shown
                &&& next.tail is None
                &&& next.confirmed.len() == 0
                &&& next.upcoming.len() == 0
                &&& next.chunk_breaks.len() == 0
                &&& next.mode == e.mode
                &&& editing_laws::shows_composition(next)
            }
        }),
{
    let step = e.pressed(composition_laws::named_key(Keysym::RETURN));
    let chosen = part_laws::chosen_text(e);
    lemma_converted(e, chosen);
    let selection = e.state.selection()->Some_0;
    assert(selection.0 == chosen);
    let first = e.recorded_selection(selection.1, chosen);
    conversion::lemma_recording_keeps(e, selection.1, chosen);
    conversion::lemma_recorded_all_keeps(first, first.confirmed + first.upcoming);
    let actions = step.1.actions;
    if e.tail is None {
        assert(actions[0] == ActionView::HideCandidates);
        assert(actions[2] == ActionView::Commit(e.whole_text(chosen)));
    } else {
        assert(actions[0] == ActionView::Commit(e.whole_text(chosen)));
        assert(actions[1] == ActionView::HideCandidates);
    }
}

/// A digit with control commits the candidate with that number on the page of
/// nine that the selection is on, with all that was converted around it; a number
/// beyond the list does nothing.
pub proof fn law_digit_commits(e: EngineView, c: char)
    requires
        e.wf(),
        e.state is Conversion,
        '1' <= c <= '9',
    ensures
        ({
            let rows = part_laws::rows_shown(e);
            let at = 9 * (part_laws::list_shown(e).cursor / 9) + (c as int - '1' as int);
            let step = e.pressed(editing_laws::control_key(Keysym::Character(c)));
            &&& at >= rows.len() ==> step.0 == e && step.1.actions.len() == 0
            &&& at < rows.len() && (rows[at].text.len() > 0 || e.confirmed.len() > 0)
                ==> step.1.actions.contains(
                ActionView::Commit(converted_text(e, rows[at].text)),
            )
        }),
{
    conversion_laws::law_digit_selects_on_page(e, c);
    let rows = part_laws::rows_shown(e);
    let at = 9 * (part_laws::list_shown(e).cursor / 9) + (c as int - '1' as int);
    assert(editing_laws::control_key(Keysym::Character(c)) == conversion_laws::digit_chord(c));
    if at < rows.len() {
        lemma_converted(e, rows[at].text);
    }
}

/// Where a word is recorded, it heads the history, once; all other words follow
/// in the order that they had.
pub proof fn law_recorded_heads_history(history: Seq<EntryView>, entry: EntryView)
    ensures
        ({
            let next = lexicon::recorded(history, entry);
            &&& next.len() > 0
            &&& next[0] == entry
            &&& next.skip(1) == history.filter(|other: EntryView| other != entry)
        }),
{
    let next = lexicon::recorded(history, entry);
    assert((|other: EntryView| other != entry) =~= lexicon::other_than(entry));
    assert(next.skip(1) =~= history.filter(lexicon::other_than(entry)));
}

/// Whether a word is a date that its reading stands for, where dates are
/// converted.
pub open spec fn is_date(e: EngineView, reading: Seq<char>, word: Seq<char>) -> bool {
    &&& e.config.date_conversion
    &&& e.config.date_formats.len() > 0
    &&& exists|i: int|
        0 <= i < e.outside.dates(reading).len() && (#[trigger] e.outside.dates(reading)[i]).text
            == word
}

/// A commit of a whole conversion teaches the selected word under its reading: it
/// heads the history afterwards, once, and all else that is remembered follows in
/// its order. Emoji and dates teach nothing, nor does a commit without a history.
pub proof fn law_commit_teaches_selection(e: EngineView)
    requires
        e.wf(),
        e.state is Conversion,
        e.confirmed.len() == 0,
        e.upcoming.len() == 0,
        part_laws::rows_shown(e).len() > 0,
        part_laws::rows_shown(e)[part_laws::list_shown(e).cursor].reading is Some,
        part_laws::chosen_text(e).len() > 0,
    ensures
        ({
            let next = e.pressed(composition_laws::named_key(Keysym::RETURN)).0;
            let entry = EntryView { reading: part_laws::chosen_reading(e), surface: part_laws::chosen_text(e) };
            match e.learning {
                None => next.learning is None,
                Some(history) => if e.mode == InputMode::Emoji || is_date(
                    e,
                    entry.reading,
                    entry.surface,
                ) {
                    next.learning == e.learning
                } else {
                    &&& next.learning matches Some(after)
                    &&& after.len() > 0
                    &&& after[0] == entry
                    &&& after.skip(1) == history.filter(|other: EntryView| other != entry)
                },
            }
        }),
{
    let entry = EntryView { reading: part_laws::chosen_reading(e), surface: part_laws::chosen_text(e) };
    let selection = e.state.selection()->Some_0;
    assert(selection.0 == entry.surface);
    assert(selection.1 == Some(entry.reading));
    let first = e.recorded(entry.reading, entry.surface);
    assert(first.confirmed + first.upcoming =~= Seq::<PieceView>::empty());
    assert(e.is_date_surface(entry.reading, entry.surface) == is_date(
        e,
        entry.reading,
        entry.surface,
    ));
    if let Some(history) = e.learning {
        law_recorded_heads_history(history, entry);
    }
}

/// Whether an entry is one of the words that a commit hands over, under its
/// reading.
pub open spec fn is_committed(e: EngineView, entry: EntryView) -> bool {
    ||| entry == (EntryView { reading: part_laws::chosen_reading(e), surface: part_laws::chosen_text(e) })
    ||| exists|i: int|
        0 <= i < e.confirmed.len() && entry == (EntryView {
            reading: (#[trigger] e.confirmed[i]).reading,
            surface: e.confirmed[i].text,
        })
    ||| exists|i: int|
        0 <= i < e.upcoming.len() && entry == (EntryView {
            reading: (#[trigger] e.upcoming[i]).reading,
            surface: e.upcoming[i].text,
        })
}

/// What recording one word adds and keeps.
proof fn lemma_recording_adds(
    e: EngineView,
    reading: Seq<char>,
    surface: Seq<char>,
    entry: EntryView,
)
    requires
        e.recorded(reading, surface).learning matches Some(after) && after.contains(entry),
    ensures
        e.learning matches Some(before) && before.contains(entry) || entry == (EntryView {
            reading,
            surface,
        }),
{
    let one = EntryView { reading, surface };
    if let Some(history) = e.learning {
        let next = lexicon::recorded(history, one);
        let kept = history.filter(lexicon::other_than(one));
        if next.contains(entry) && entry != one {
            let k = choose|k: int| 0 <= k < next.len() && next[k] == entry;
            assert(kept[k - 1] == entry);
            assert(kept.contains(entry));
            text::lemma_filter_contains(history, lexicon::other_than(one), entry);
        }
    }
}

/// What recording parts adds.
proof fn lemma_recording_parts_adds(e: EngineView, pieces: Seq<PieceView>, entry: EntryView)
    requires
        e.recorded_all(pieces).learning matches Some(after) && after.contains(entry),
    ensures
        (e.learning matches Some(before) && before.contains(entry)) || exists|i: int|
            0 <= i < pieces.len() && entry == (EntryView {
                reading: (#[trigger] pieces[i]).reading,
                surface: pieces[i].text,
            }),
    decreases pieces.len(),
{
    if pieces.len() > 0 {
        let before = e.recorded_all(pieces.drop_last());
        let last = pieces.last();
        lemma_recording_adds(before, last.reading, last.text, entry);
        if before.learning matches Some(known) && known.contains(entry) {
            lemma_recording_parts_adds(e, pieces.drop_last(), entry);
            if !(e.learning matches Some(known) && known.contains(entry)) {
                let i = choose|i: int|
                    0 <= i < pieces.drop_last().len() && entry == (EntryView {
                        reading: (#[trigger] pieces.drop_last()[i]).reading,
                        surface: pieces.drop_last()[i].text,
                    });
                assert(pieces[i] == pieces.drop_last()[i]);
            }
        } else {
            assert(pieces[pieces.len() - 1] == last);
        }
    }
}

/// A commit teaches nothing but what it hands over: every entry of the history
/// afterwards was there or is one of the committed words.
pub proof fn law_commit_teaches_nothing_else(e: EngineView, entry: EntryView)
    requires
        e.wf(),
        e.state is Conversion,
        e.commit().0.learning matches Some(after) && after.contains(entry),
    ensures
        (e.learning matches Some(before) && before.contains(entry)) || is_committed(e, entry),
{
    let selection = e.state.selection()->Some_0;
    if selection.0.len() > 0 || e.confirmed.len() > 0 {
        let first = e.recorded_selection(selection.1, selection.0);
        let pieces = e.confirmed + e.upcoming;
        conversion::lemma_recording_keeps(e, selection.1, selection.0);
        assert(e.commit().0.learning == first.recorded_all(pieces).learning);
        lemma_recording_parts_adds(first, pieces, entry);
        if first.learning matches Some(known) && known.contains(entry) {
            if let Some(reading) = selection.1 {
                lemma_recording_adds(e, reading, selection.0, entry);
            }
        } else {
            let i = choose|i: int|
                0 <= i < pieces.len() && entry == (EntryView {
                    reading: (#[trigger] pieces[i]).reading,
                    surface: pieces[i].text,
                });
            if i < e.confirmed.len() {
                assert(e.confirmed[i] == pieces[i]);
            } else {
                assert(e.upcoming[i - e.confirmed.len()] == pieces[i]);
            }
        }
    }
}

/// Where there is nothing to commit, return does nothing.
pub proof fn law_nothing_to_commit(e: EngineView)
    requires
        e.wf(),
        e.state is Conversion,
        part_laws::chosen_text(e).len() == 0,
        e.confirmed.len() == 0,
    ensures
        e.pressed(composition_laws::named_key(Keysym::RETURN)).0 == e,
        e.pressed(composition_laws::named_key(Keysym::RETURN)).1.actions.len() == 0,
{
}

/// Escape, and backspace where no source is narrowed to, end the conversion: the
/// composition is shown again as it was, with its caret and the keys that wait,
/// and no part of the conversion is left. Nothing is committed or learned.
pub proof fn law_escape_ends_conversion(e: EngineView)
    requires
        e.wf(),
        e.state is Conversion,
        !e.is_blank(),
    ensures
        ({
            let step = e.pressed(composition_laws::named_key(Keysym::ESCAPE));
            let next = step.0;
            &&& e.state.filter() is None ==> e.pressed(composition_laws::named_key(Keysym::BACKSPACE)) == step
            &&& step.1.consumed
            &&& next.state is Composing
            &&& editing_laws::shows_composition(next)
            &&& next.buffer == e.buffer
            &&& next.pending == e.pending
            &&& next.mode == e.mode
            &&& next.learning == e.learning
            &&& next.chunk_breaks == e.chunk_breaks
            &&& next.tail is None
            &&& next.confirmed.len() == 0
            &&& next.upcoming.len() == 0
            &&& conversion_laws::commits_nothing(step.1.actions)
            &&& step.1.actions.contains(ActionView::HideCandidates)
            &&& forall|p: PreeditView|
                next.state == (StateView::Composing { preedit: p })
                    ==> #[trigger] step.1.actions.contains(ActionView::UpdatePreedit(p))
        }),
{
    let step = e.pressed(composition_laws::named_key(Keysym::ESCAPE));
    assert(step == e.cancelled());
    let actions = step.1.actions;
    assert(actions.contains(actions[0]) && actions.contains(actions[1]));
}

/// The parts of a conversion are learned in their order, so that the last of them
/// heads the history; the parts after are learned after the parts before. Emoji
/// are not learned, nor is a date.
pub proof fn law_last_part_heads_history(e: EngineView)
    requires
        e.wf(),
        e.state is Conversion,
        e.mode != InputMode::Emoji,
        e.confirmed.len() > 0 || (e.upcoming.len() > 0 && part_laws::chosen_text(e).len() > 0),
        e.learning is Some,
    ensures
        ({
            let last = if e.upcoming.len() > 0 {
                e.upcoming.last()
            } else {
                e.confirmed.last()
            };
            let after = e.commit().0.learning;
            !is_date(e, last.reading, last.text) ==> {
                &&& after is Some
                &&& after->Some_0.len() > 0
                &&& after->Some_0[0] == (EntryView { reading: last.reading, surface: last.text })
            }
        }),
{
    let selection = e.state.selection()->Some_0;
    let first = e.recorded_selection(selection.1, selection.0);
    let pieces = e.confirmed + e.upcoming;
    let last = pieces.last();
    let before = first.recorded_all(pieces.drop_last());
    conversion::lemma_recording_keeps(e, selection.1, selection.0);
    conversion::lemma_recorded_all_keeps(first, pieces.drop_last());
    lemma_history_stays(e, selection.1, selection.0, pieces.drop_last());
    assert(e.commit().0.learning == first.recorded_all(pieces).learning);
    assert(first.recorded_all(pieces) == before.recorded(last.reading, last.text));
    assert(before.is_date_surface(last.reading, last.text) == is_date(
        e,
        last.reading,
        last.text,
    ));
    if let Some(history) = before.learning {
        law_recorded_heads_history(
            history,
            EntryView { reading: last.reading, surface: last.text },
        );
    }
}

/// Recording takes no history away.
proof fn lemma_history_stays(
    e: EngineView,
    reading: Option<Seq<char>>,
    surface: Seq<char>,
    pieces: Seq<PieceView>,
)
    requires
        e.learning is Some,
    ensures
        e.recorded_selection(reading, surface).recorded_all(pieces).learning is Some,
    decreases pieces.len(),
{
    if pieces.len() > 0 {
        lemma_history_stays(e, reading, surface, pieces.drop_last());
    }
}

/// The composition under a conversion, as the keys of composing find it.
pub open spec fn composition_of(e: EngineView, suppress: bool) -> EngineView {
    EngineView { suppress_suggest: suppress, ..e.composing() }
}

/// The composition under a conversion is the text, the caret and the waiting keys
/// that were there before it, in their mode, and it is shown.
pub proof fn law_composition_is_untouched(e: EngineView, suppress: bool)
    requires
        e.wf(),
    ensures
        ({
            let c = composition_of(e, suppress);
            &&& c.wf()
            &&& c.state is Composing
            &&& editing_laws::shows_composition(c)
            &&& c.buffer == e.buffer
            &&& c.pending == e.pending
            &&& c.mode == e.mode
            &&& c.chunk_breaks == e.chunk_breaks
            &&& c.learning == e.learning
            &&& c.suppress_suggest == suppress
        }),
{
}

/// Home, end, and control with a, e, b and f during a conversion do what they do
/// to the composition under it: the conversion is over and the caret moved.
pub proof fn law_caret_keys_leave_conversion(e: EngineView)
    requires
        e.wf(),
        e.state is Conversion,
    ensures
        ({
            let all = editing_laws::text_with(e, Seq::empty());
            let at = e.buffer.cursor + editing_laws::resolved(e.pending).len();
            let home = e.pressed(composition_laws::named_key(Keysym::HOME)).0;
            let end = e.pressed(composition_laws::named_key(Keysym::END)).0;
            let left = e.pressed(editing_laws::control_key(Keysym::Character('b'))).0;
            let right = e.pressed(editing_laws::control_key(Keysym::Character('f'))).0;
            &&& home.state is Composing && end.state is Composing
            &&& left.state is Composing && right.state is Composing
            &&& home.buffer.text == all && end.buffer.text == all
            &&& left.buffer.text == all && right.buffer.text == all
            &&& home.buffer.cursor == 0
            &&& end.buffer.cursor == all.len()
            &&& left.buffer.cursor == if at > 0 {
                at - 1
            } else {
                0
            }
            &&& right.buffer.cursor == if at < all.len() {
                at + 1
            } else {
                all.len() as int
            }
            &&& !home.suppress_suggest && !end.suppress_suggest
            &&& !left.suppress_suggest && !right.suppress_suggest
            &&& e.pressed(editing_laws::control_key(Keysym::Character('a'))).0 == home
            &&& e.pressed(editing_laws::control_key(Keysym::Character('e'))).0 == end
        }),
{
    let c = composition_of(e, false);
    law_composition_is_untouched(e, false);
    editing_laws::law_caret_keys(c);
    lemma_left_through(e, composition_laws::named_key(Keysym::HOME));
    lemma_left_through(e, composition_laws::named_key(Keysym::END));
    lemma_left_through(e, editing_laws::control_key(Keysym::Character('a')));
    lemma_left_through(e, editing_laws::control_key(Keysym::Character('e')));
    lemma_left_through(e, editing_laws::control_key(Keysym::Character('b')));
    lemma_left_through(e, editing_laws::control_key(Keysym::Character('f')));
    assert(editing_laws::text_with(c, Seq::empty()) == editing_laws::text_with(e, Seq::empty()));
}

/// A key that leaves the conversion is a key of the composition.
proof fn lemma_left_through(e: EngineView, key: KeyEvent)
    requires
        e.state is Conversion,
        key == composition_laws::named_key(Keysym::HOME) || key == composition_laws::named_key(Keysym::END) || key == editing_laws::control_key(
            Keysym::Character('a'),
        ) || key == editing_laws::control_key(Keysym::Character('e')) || key == editing_laws::control_key(
            Keysym::Character('b'),
        ) || key == editing_laws::control_key(Keysym::Character('f')),
    ensures
        e.pressed(key).0 == (EngineView {
            suppress_suggest: false,
            ..composition_of(e, false).pressed(key).0
        }),
        e.pressed(key).1 == composition_of(e, false).pressed(key).1,
{
    assert(e.pressed(key) == e.edited_within(false, ComposingEdit::Key(key, false)));
}

/// A character typed, or a backspace, in the view of one source goes to the
/// composition, and what it leaves is converted anew with the history and
/// narrowed to the same source; nothing is committed.
pub proof fn law_refining_converts_anew(e: EngineView, source: CandidateSource, key: KeyEvent)
    requires
        e.wf(),
        e.state is Conversion,
        e.state.filter() == Some(source),
        key == composition_laws::named_key(Keysym::BACKSPACE) || exists|c: char|
            key::is_printable(c) && key == #[trigger] composition_laws::character_key(c),
    ensures
        ({
            let edited = EngineView {
                suppress_suggest: false,
                ..composition_of(e, true).pressed(key).0
            };
            let started = edited.started(LearningLookup::Use, false).0;
            let step = e.pressed(key);
            &&& edited.state is Composing && started.state is Conversion ==> {
                &&& step == started.filtered(source)
                &&& step.0.buffer == edited.buffer
                &&& step.0.pending == edited.pending
                &&& !step.0.suppress_suggest
                &&& step.0.learning == e.learning
            }
            &&& !(edited.state is Composing) ==> step.0 == edited
        }),
{
    let composition = composition_of(e, true);
    assert(e.pressed(key) == e.refined(key, false));
    law_composition_is_untouched(e, true);
    let edited = EngineView { suppress_suggest: false, ..composition.pressed(key).0 };
    assert(e.edited_within(true, ComposingEdit::Key(key, false)).0 == edited);
    lemma_typing_keeps_history(composition, key);
}

/// Typing and backspace leave the history alone.
proof fn lemma_typing_keeps_history(e: EngineView, key: KeyEvent)
    requires
        e.state is Composing,
        key == composition_laws::named_key(Keysym::BACKSPACE) || exists|c: char|
            key::is_printable(c) && key == #[trigger] composition_laws::character_key(c),
    ensures
        e.pressed(key).0.learning == e.learning,
{
}

/// Control with j during a conversion splits the text for the model at the caret
/// of the composition, and converts anew, in the same view.
pub proof fn law_splitting_converts_anew(e: EngineView)
    requires
        e.wf(),
        e.state is Conversion,
        e.buffer.cursor <= usize::MAX,
    ensures
        ({
            let key = editing_laws::control_key(Keysym::Character('j'));
            let split = EngineView {
                suppress_suggest: false,
                ..composition_of(e, true).pressed(key).0
            };
            let at = e.buffer.cursor as usize;
            &&& split.buffer == e.buffer
            &&& split.pending == e.pending
            &&& split.chunk_breaks.contains(at)
            &&& !e.chunk_breaks.contains(at) ==> split.chunk_breaks == e.chunk_breaks.push(at)
            &&& e.chunk_breaks.contains(at) ==> split.chunk_breaks == e.chunk_breaks
            &&& e.state.filter() is None ==> e.pressed(key) == split.started(
                LearningLookup::Use,
                false,
            )
            &&& e.state.filter() matches Some(source) ==> split.started(
                LearningLookup::Use,
                false,
            ).0.state is Conversion ==> e.pressed(key) == split.started(
                LearningLookup::Use,
                false,
            ).0.filtered(source)
        }),
{
    let key = editing_laws::control_key(Keysym::Character('j'));
    let composition = composition_of(e, true);
    law_composition_is_untouched(e, true);
    editing_laws::law_chunk_break_marks_caret(composition);
    lemma_split_key(e);
    lemma_split_composition(e);
}

/// The key that splits the text during a conversion.
proof fn lemma_split_key(e: EngineView)
    requires
        e.state is Conversion,
    ensures
        e.pressed(editing_laws::control_key(Keysym::Character('j'))) == e.rebroken(),
{
    let key = editing_laws::control_key(Keysym::Character('j'));
    assert(e.pressed(key) == e.conversion_other(key, false));
    assert(e.conversion_chord(key, false) == Some(e.rebroken()));
}

/// The split of the composition under a conversion.
proof fn lemma_split_composition(e: EngineView)
    ensures
        e.edited_within(true, ComposingEdit::ChunkBreak).0 == (EngineView {
            suppress_suggest: false,
            ..composition_of(e, true).pressed(editing_laws::control_key(Keysym::Character('j'))).0
        }),
{
    let key = editing_laws::control_key(Keysym::Character('j'));
    let composition = composition_of(e, true);
    assert(composition.pressed(key) == composition.composing_key(key, false));
    assert(composition.composing_key(key, false) == composition.chunk_broken());
}

/// A chord of control that means nothing during a conversion does nothing, and
/// neither does any other key without a meaning.
pub proof fn law_idle_keys(e: EngineView, key: KeyEvent)
    requires
        e.state is Conversion,
        !key.modifiers.alt_key,
        key.keysym is Other || (key.modifiers.control_key && (key.keysym matches Keysym::Character(
            c,
        ) && (c == 'z' || c == 'x' || c == 'c' || c == 'v' || c == 'q' || c == 'w' || c == 's' || c
            == 'd' || c == 'g' || c == 'h' || c == 'k' || c == 'l' || c == 'm' || c == '0'))),
    ensures
        e.pressed(key).0 == e,
        e.pressed(key).1.consumed,
        e.pressed(key).1.actions.len() == 0,
{
}

} // verus!
