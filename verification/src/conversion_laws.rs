//! What holds of conversions as a whole.

use vstd::prelude::*;

use crate::action::ActionView;
use crate::candidate;
use crate::candidate::{AnnotatedView, CandidateSource};
use crate::candidate_laws;
use crate::composition_laws;
use crate::conversion;
use crate::engine::{EngineView, Metrics, Step};
use crate::filter;
use crate::key;
use crate::key::{KeyEvent, Keysym, Modifiers};
use crate::keys::ComposingEdit;
use crate::lexicon;
use crate::lexicon::EntryView;
use crate::lookup;
use crate::navigate::Navigation;
use crate::preedit;
use crate::preedit::PreeditView;
use crate::romaji;
use crate::settle;
use crate::state;
use crate::state::{FilterDirection, InputMode, LearningLookup, PieceView, StateView};
use crate::text;

verus! {

/// A move within a conversion that commits nothing.
pub enum ConversionMove {
    /// A move of the selection in the list.
    Select(Navigation),
    /// To the next part.
    Advance,
    /// To the part before.
    Return,
    /// The last character of the reading moved to the tail.
    Shrink,
    /// The first character of the tail moved to the reading.
    Expand,
    /// To the view of one source.
    Filter(CandidateSource),
    /// To the view of the next source.
    Cycle(FilterDirection),
}

/// A move made.
pub open spec fn move_made(e: EngineView, step: ConversionMove) -> Step {
    match step {
        ConversionMove::Select(navigation) => e.navigated(navigation),
        ConversionMove::Advance => e.advanced(),
        ConversionMove::Return => e.returned(),
        ConversionMove::Shrink => e.shrunk(),
        ConversionMove::Expand => e.expanded(),
        ConversionMove::Filter(source) => e.filtered(source),
        ConversionMove::Cycle(direction) => e.cycled(direction),
    }
}

/// The engine after moves made one after the other.
pub open spec fn after_moves(e: EngineView, steps: Seq<ConversionMove>) -> EngineView
    decreases steps.len(),
{
    if steps.len() == 0 {
        e
    } else {
        move_made(after_moves(e, steps.drop_last()), steps.last()).0
    }
}

/// No text is handed to the application.
pub open spec fn commits_nothing(actions: Seq<ActionView>) -> bool {
    forall|i: int| 0 <= i < actions.len() ==> !((#[trigger] actions[i]) is Commit)
}

/// The composition under two conversions is the same, and so is the history.
pub open spec fn same_composition(a: EngineView, b: EngineView) -> bool {
    &&& a.buffer == b.buffer
    &&& a.pending == b.pending
    &&& a.mode == b.mode
    &&& a.learning == b.learning
}

/// Entering a part touches neither the composition nor the history.
proof fn lemma_entering_keeps(e: EngineView, reading: Seq<char>, preselect: Option<Seq<char>>)
    ensures
        same_composition(e.segment_entered(reading, preselect).0, e),
        e.state is Conversion ==> e.segment_entered(reading, preselect).0.state is Conversion,
        commits_nothing(e.segment_entered(reading, preselect).1.actions),
{
}

/// Moving to another part touches neither the composition nor the history.
proof fn lemma_part_move_keeps(e: EngineView)
    requires
        e.state is Conversion,
    ensures
        same_composition(e.advanced().0, e),
        e.advanced().0.state is Conversion,
        commits_nothing(e.advanced().1.actions),
        same_composition(e.returned().0, e),
        e.returned().0.state is Conversion,
        commits_nothing(e.returned().1.actions),
{
    let piece = e.selected_piece()->0;
    if e.upcoming.len() > 0 {
        let next = e.upcoming[0];
        let ready = EngineView {
            confirmed: e.confirmed.push(piece),
            upcoming: e.upcoming.drop_first(),
            ..e
        };
        assert(e.advanced() == ready.segment_entered(next.reading, Some(next.text)));
        lemma_entering_keeps(ready, next.reading, Some(next.text));
    } else if e.tail_text().len() > 0 {
        let ready = EngineView { confirmed: e.confirmed.push(piece), tail: None, ..e };
        assert(e.advanced() == ready.segment_entered(e.tail_text(), None));
        lemma_entering_keeps(ready, e.tail_text(), None);
    }
    if e.confirmed.len() > 0 {
        let last = e.confirmed.last();
        let ready = EngineView {
            confirmed: e.confirmed.drop_last(),
            upcoming: e.upcoming.insert(0, piece),
            ..e
        };
        assert(e.returned() == ready.segment_entered(last.reading, Some(last.text)));
        lemma_entering_keeps(ready, last.reading, Some(last.text));
    }
}

/// Moving a border touches neither the composition nor the history.
proof fn lemma_border_move_keeps(e: EngineView)
    requires
        e.state is Conversion,
    ensures
        same_composition(e.shrunk().0, e),
        e.shrunk().0.state is Conversion,
        commits_nothing(e.shrunk().1.actions),
        same_composition(e.expanded().0, e),
        e.expanded().0.state is Conversion,
        commits_nothing(e.expanded().1.actions),
{
    let reading = e.reading_text();
    let tail = e.dissolved().tail_text();
    if reading.len() > 1 {
        let ready = EngineView { tail: Some(seq![reading.last()] + tail), ..e.dissolved() };
        assert(e.shrunk() == ready.segment_entered(reading.drop_last(), None));
        lemma_entering_keeps(ready, reading.drop_last(), None);
    }
    if tail.len() > 0 {
        let ready = EngineView {
            tail: if tail.len() > 1 {
                Some(tail.drop_first())
            } else {
                None
            },
            ..e.dissolved()
        };
        assert(e.expanded() == ready.segment_entered(reading.push(tail[0]), None));
        lemma_entering_keeps(ready, reading.push(tail[0]), None);
    }
}

/// Another view touches neither the composition nor the history.
proof fn lemma_view_keeps(e: EngineView, source: CandidateSource)
    requires
        e.state is Conversion,
    ensures
        same_composition(e.filtered(source).0, e),
        e.filtered(source).0.state is Conversion,
        commits_nothing(e.filtered(source).1.actions),
        same_composition(e.unfiltered().0, e),
        e.unfiltered().0.state is Conversion,
        commits_nothing(e.unfiltered().1.actions),
{
}

/// No move commits anything, ends the conversion, or touches the composition or
/// the history.
pub proof fn law_moves_keep_composition(e: EngineView, step: ConversionMove)
    requires
        e.state is Conversion,
    ensures
        move_made(e, step).0.state is Conversion,
        same_composition(move_made(e, step).0, e),
        commits_nothing(move_made(e, step).1.actions),
{
    match step {
        ConversionMove::Select(_) => {},
        ConversionMove::Advance | ConversionMove::Return => {
            lemma_part_move_keeps(e);
        },
        ConversionMove::Shrink | ConversionMove::Expand => {
            lemma_border_move_keeps(e);
        },
        ConversionMove::Filter(source) => {
            lemma_view_keeps(e, source);
        },
        ConversionMove::Cycle(direction) => {
            let next = match direction {
                FilterDirection::Forward => filter::filter_after(e.state.filter()),
                FilterDirection::Backward => filter::filter_before(e.state.filter()),
            };
            match next {
                Some(source) => {
                    lemma_view_keeps(e, source);
                },
                None => {
                    lemma_view_keeps(e, CandidateSource::Model);
                },
            }
        },
    }
}

/// Any number of moves keep the composition and the history.
proof fn lemma_moves_keep(e: EngineView, steps: Seq<ConversionMove>)
    requires
        e.state is Conversion,
    ensures
        after_moves(e, steps).state is Conversion,
        same_composition(after_moves(e, steps), e),
    decreases steps.len(),
{
    if steps.len() > 0 {
        lemma_moves_keep(e, steps.drop_last());
        law_moves_keep_composition(after_moves(e, steps.drop_last()), steps.last());
    }
}

/// Cancelling a conversion gives the composition back as it is, without parts
/// and tail, and commits nothing.
proof fn lemma_cancelled(e: EngineView)
    requires
        e.state is Conversion,
        !e.is_blank(),
    ensures
        e.cancelled().0.state is Composing,
        same_composition(e.cancelled().0, e),
        e.cancelled().0.tail is None,
        e.cancelled().0.confirmed.len() == 0,
        e.cancelled().0.upcoming.len() == 0,
        e.cancelled().1.consumed,
        commits_nothing(e.cancelled().1.actions),
{
}

/// Starting a conversion leaves the composition as it is, and escape comes back
/// to it after any number of moves: the text, the caret and the keys that wait
/// are as they were, nothing is learned or committed, and no part is left.
pub proof fn law_escape_returns_to_composition(
    e: EngineView,
    learning: LearningLookup,
    keep_display: bool,
    steps: Seq<ConversionMove>,
)
    requires
        e.wf(),
        e.covered_reading().len() > 0,
    ensures
        ({
            let started = e.started(learning, keep_display).0;
            &&& same_composition(started, e)
            &&& commits_nothing(e.started(learning, keep_display).1.actions)
            &&& started.state is Conversion ==> {
                let back = after_moves(started, steps).cancelled();
                &&& back.0.state is Composing
                &&& same_composition(back.0, e)
                &&& back.0.tail is None
                &&& back.0.confirmed.len() == 0
                &&& back.0.upcoming.len() == 0
                &&& back.1.consumed
                &&& commits_nothing(back.1.actions)
            }
        }),
{
    let started = e.started(learning, keep_display).0;
    if e.is_blank() {
        composition_laws::lemma_nothing_waits(e);
        assert(e.covered_reading().len() == 0);
    }
    lemma_starting_keeps(e, learning, keep_display);
    if started.state is Conversion {
        lemma_moves_keep(started, steps);
        lemma_cancelled(after_moves(started, steps));
    }
}

/// Starting a conversion touches neither the composition nor the history.
proof fn lemma_starting_keeps(e: EngineView, learning: LearningLookup, keep_display: bool)
    ensures
        same_composition(e.started(learning, keep_display).0, e),
        commits_nothing(e.started(learning, keep_display).1.actions),
{
}

/// A new conversion covers the composition: what it converts and its tail are
/// the settled reading.
pub proof fn law_conversion_covers_composition(
    e: EngineView,
    learning: LearningLookup,
    keep_display: bool,
)
    requires
        e.wf(),
        e.covered_reading().len() > 0,
        e.started(learning, keep_display).0.state is Conversion,
    ensures
        spanned(e.started(learning, keep_display).0) == e.settled_reading(),
{
    let started = e.started(learning, keep_display).0;
    assert(started.reading_text() == e.covered_reading());
    lemma_no_pieces();
    assert(spanned(started) =~= e.settled_reading());
}

/// No parts have neither text nor reading.
proof fn lemma_no_pieces()
    ensures
        text::concat(state::piece_readings(Seq::empty())) == Seq::<char>::empty(),
        text::concat(state::piece_texts(Seq::empty())) == Seq::<char>::empty(),
{
}

/// The text of the selected candidate, or the raw reading in an empty list.
pub open spec fn selected_text(e: EngineView) -> Seq<char> {
    match e.state.selection() {
        Some((text, _)) => text,
        None => Seq::empty(),
    }
}

/// What is shown of a conversion.
pub open spec fn shown(e: EngineView) -> PreeditView {
    match e.state {
        StateView::Conversion { preedit, .. } => preedit,
        _ => preedit::no_preedit(),
    }
}

/// What is shown of a conversion goes with its selection.
pub open spec fn shows_selection(e: EngineView) -> bool {
    match e.state {
        StateView::Conversion { preedit, .. } => preedit == e.conversion_preedit(selected_text(e)),
        _ => false,
    }
}

/// The readings that a conversion spans: of the parts before, of the part under
/// conversion, of the parts after, and the tail.
pub open spec fn spanned(e: EngineView) -> Seq<char> {
    text::concat(state::piece_readings(e.confirmed)) + e.reading_text() + text::concat(
        state::piece_readings(e.upcoming),
    ) + e.tail_text()
}

/// A part entered is under conversion, and nothing else of the composition or of
/// the other parts changes.
proof fn lemma_part_entered(e: EngineView, reading: Seq<char>, preselect: Option<Seq<char>>)
    requires
        reading.len() > 0,
    ensures
        ({
            let next = e.segment_entered(reading, preselect).0;
            &&& next.state is Conversion
            &&& next.reading_text() == reading
            &&& next.confirmed == e.confirmed
            &&& next.upcoming == e.upcoming
            &&& next.tail == e.tail
            &&& next.config == e.config
            &&& shows_selection(next)
        }),
{
}

/// Narrowing by one character, and what it leaves.
pub proof fn lemma_shrunk(e: EngineView)
    requires
        e.reading_text().len() > 1,
    ensures
        ({
            let next = e.shrunk().0;
            &&& next.state is Conversion
            &&& next.reading_text() == e.reading_text().drop_last()
            &&& next.confirmed == e.confirmed
            &&& next.upcoming.len() == 0
            &&& next.tail == Some(seq![e.reading_text().last()] + e.dissolved().tail_text())
            &&& shows_selection(next)
        }),
{
    let reading = e.reading_text();
    let ready = EngineView {
        tail: Some(seq![reading.last()] + e.dissolved().tail_text()),
        ..e.dissolved()
    };
    assert(e.shrunk() == ready.segment_entered(reading.drop_last(), None));
    lemma_part_entered(ready, reading.drop_last(), None);
}

/// Widening by one character, and what it leaves.
pub proof fn lemma_expanded(e: EngineView)
    requires
        e.dissolved().tail_text().len() > 0,
    ensures
        ({
            let tail = e.dissolved().tail_text();
            let next = e.expanded().0;
            &&& next.state is Conversion
            &&& next.reading_text() == e.reading_text().push(tail[0])
            &&& next.confirmed == e.confirmed
            &&& next.upcoming.len() == 0
            &&& next.tail_text() == tail.drop_first()
            &&& shows_selection(next)
        }),
{
    let tail = e.dissolved().tail_text();
    let ready = EngineView {
        tail: if tail.len() > 1 {
            Some(tail.drop_first())
        } else {
            None
        },
        ..e.dissolved()
    };
    let reading = e.reading_text().push(tail[0]);
    assert(e.expanded() == ready.segment_entered(reading, None));
    lemma_part_entered(ready, reading, None);
    assert(ready.tail_text() =~= tail.drop_first());
}

/// Moving the border of the part under conversion loses no character of the
/// readings, and doubles none.
pub proof fn law_border_keeps_readings(e: EngineView)
    requires
        e.state is Conversion,
    ensures
        spanned(e.shrunk().0) == spanned(e),
        spanned(e.expanded().0) == spanned(e),
{
    let dissolved = e.dissolved();
    lemma_no_pieces();
    assert(spanned(dissolved) =~= spanned(e));
    let reading = e.reading_text();
    if reading.len() > 1 {
        let shorter = e.shrunk().0;
        lemma_shrunk(e);
        assert(shorter.upcoming =~= Seq::<PieceView>::empty());
        assert(dissolved.upcoming =~= Seq::<PieceView>::empty());
        assert(reading.drop_last() + seq![reading.last()] =~= reading);
        assert(spanned(shorter) =~= spanned(dissolved));
    }
    let tail = dissolved.tail_text();
    if tail.len() > 0 {
        let longer = e.expanded().0;
        lemma_expanded(e);
        assert(longer.upcoming =~= Seq::<PieceView>::empty());
        assert(dissolved.upcoming =~= Seq::<PieceView>::empty());
        assert(seq![tail[0]] + tail.drop_first() =~= tail);
        assert(spanned(longer) =~= spanned(dissolved));
    }
}

/// Widening undoes narrowing, and narrowing undoes widening: the reading under
/// conversion, the tail and the parts before are as they were once the parts
/// after have been put into the tail.
pub proof fn law_border_moves_undo(e: EngineView)
    requires
        e.state is Conversion,
        e.reading_text().len() > 0,
    ensures
        e.reading_text().len() > 1 ==> {
            let back = e.shrunk().0.expanded().0;
            &&& back.reading_text() == e.reading_text()
            &&& back.tail_text() == e.dissolved().tail_text()
            &&& back.confirmed == e.confirmed
            &&& back.upcoming.len() == 0
        },
        e.dissolved().tail_text().len() > 0 ==> {
            let back = e.expanded().0.shrunk().0;
            &&& back.reading_text() == e.reading_text()
            &&& back.tail_text() == e.dissolved().tail_text()
            &&& back.confirmed == e.confirmed
            &&& back.upcoming.len() == 0
        },
{
    let reading = e.reading_text();
    let tail = e.dissolved().tail_text();
    if reading.len() > 1 {
        let shorter = e.shrunk().0;
        lemma_shrunk(e);
        lemma_expanded(shorter);
        assert((seq![reading.last()] + tail).drop_first() =~= tail);
        assert(reading.drop_last().push(reading.last()) =~= reading);
    }
    if tail.len() > 0 {
        let longer = e.expanded().0;
        lemma_expanded(e);
        lemma_shrunk(longer);
        assert(reading.push(tail[0]).drop_last() =~= reading);
        assert(seq![tail[0]] + tail.drop_first() =~= tail);
    }
}

/// Moving from part to part loses no character of the readings, as long as the
/// selected candidate has the reading under conversion and no part is empty.
pub proof fn law_moving_keeps_readings(e: EngineView)
    requires
        e.state is Conversion,
        e.selected_piece()->0.reading == e.reading_text(),
        e.upcoming.len() > 0 ==> e.upcoming[0].reading.len() > 0,
        e.confirmed.len() > 0 ==> e.confirmed.last().reading.len() > 0,
    ensures
        spanned(e.advanced().0) == spanned(e),
        spanned(e.returned().0) == spanned(e),
{
    let piece = e.selected_piece()->0;
    let before = state::piece_readings(e.confirmed);
    let after = state::piece_readings(e.upcoming);
    lemma_no_pieces();
    assert(state::piece_readings(e.confirmed.push(piece)) =~= before.push(piece.reading));
    assert(before.push(piece.reading).drop_last() =~= before);
    if e.upcoming.len() > 0 {
        let rest = state::piece_readings(e.upcoming.drop_first());
        assert(after =~= seq![e.upcoming[0].reading] + rest);
        text::lemma_concat_add(seq![e.upcoming[0].reading], rest);
        text::lemma_concat_one(e.upcoming[0].reading);
        assert(spanned(e.advanced().0) =~= spanned(e));
    } else if e.tail_text().len() > 0 {
        assert(e.upcoming =~= Seq::<PieceView>::empty());
        assert(spanned(e.advanced().0) =~= spanned(e));
    }
    if e.confirmed.len() > 0 {
        assert(state::piece_readings(e.confirmed.drop_last()) =~= before.drop_last());
        assert(before.last() == e.confirmed.last().reading);
        let grown = state::piece_readings(e.upcoming.insert(0, piece));
        assert(grown =~= seq![piece.reading] + after);
        text::lemma_concat_add(seq![piece.reading], after);
        text::lemma_concat_one(piece.reading);
        assert(spanned(e.returned().0) =~= spanned(e));
    }
}

/// What is shown during a conversion is what a commit hands over, followed by
/// the tail.
pub proof fn law_shown_is_committed(e: EngineView, selected: Seq<char>)
    ensures
        e.conversion_preedit(selected).text() == e.whole_text(selected) + e.tail_text(),
{
    let shown = e.conversion_preedit(selected).segments;
    let parts = Seq::new(shown.len(), |i: int| shown[i].text);
    let before = state::piece_texts(e.confirmed);
    let after = state::piece_texts(e.upcoming);
    let tail = match e.tail {
        Some(tail) => seq![tail],
        None => Seq::empty(),
    };
    assert(parts =~= before + seq![selected] + after + tail);
    text::lemma_concat_add(before + seq![selected] + after, tail);
    text::lemma_concat_add(before + seq![selected], after);
    text::lemma_concat_add(before, seq![selected]);
    text::lemma_concat_one(selected);
    match e.tail {
        Some(tail) => {
            text::lemma_concat_one(tail);
        },
        None => {
            assert(text::concat(parts) =~= e.whole_text(selected) + e.tail_text());
        },
    }
}

/// A commit hands over the parts before, the selected text and the parts after,
/// and what was not converted yet is under composition afterwards: no text is
/// lost. Without a tail the engine is at rest.
pub proof fn law_commit_keeps_text(e: EngineView)
    requires
        e.state is Conversion,
        selected_text(e).len() > 0 || e.confirmed.len() > 0,
    ensures
        e.commit().1.consumed,
        e.commit().1.actions.contains(
            ActionView::Commit(e.whole_text(selected_text(e))),
        ),
        e.commit().0.settled_reading() == e.tail_text(),
        e.tail is Some ==> e.commit().0.state is Composing,
        e.tail is None ==> e.commit().0.state is Empty && e.commit().0.is_blank(),
        e.commit().0.confirmed.len() == 0,
        e.commit().0.upcoming.len() == 0,
        e.commit().0.tail is None,
{
    let next = e.commit().0;
    composition_laws::lemma_nothing_waits(next);
    let actions = e.commit().1.actions;
    match e.tail {
        Some(tail) => {
            assert(actions[0] == ActionView::Commit(e.whole_text(selected_text(e))));
            assert(next.settled_reading() =~= tail);
        },
        None => {
            assert(actions[2] == ActionView::Commit(e.whole_text(selected_text(e))));
            assert(next.settled_reading() =~= e.tail_text());
        },
    }
}

/// An empty view of one source commits the raw reading, never an empty text.
pub proof fn law_empty_view_commits_reading(e: EngineView)
    requires
        e.wf(),
        e.state is Conversion,
        e.state.candidates()->0.candidates.len() == 0,
        e.reading_text().len() > 0,
    ensures
        e.commit().1.actions.contains(ActionView::Commit(e.whole_text(e.reading_text()))),
        e.whole_text(e.reading_text()).len() > 0,
{
    law_commit_keeps_text(e);
}

/// Chords with the alt key pass through, and change nothing.
pub proof fn law_alt_passes_through(e: EngineView, key: KeyEvent)
    requires
        key.modifiers.alt_key,
    ensures
        e.pressed(key).0 == e,
        !e.pressed(key).1.consumed,
        e.pressed(key).1.actions.len() == 0,
{
}

/// A part entered with a preferred text is that text under the reading of the
/// part, if the text is already in the width of the list.
proof fn lemma_preferred_piece(e: EngineView, reading: Seq<char>, preferred: Seq<char>)
    requires
        reading.len() > 0,
        settle::in_width(preferred, e.config.width) == preferred,
    ensures
        e.segment_entered(reading, Some(preferred)).0.selected_piece() == Some(
            PieceView { text: preferred, reading },
        ),
{
    let candidates = e.segment_candidates(reading);
    let offered = conversion::with_preferred(candidates, preferred);
    let list = e.conversion_list(offered, reading);
    let chosen = list.select_text(preferred);
    candidate_laws::law_part_candidates_keep_reading(e, reading);
    assert(candidate::has_text(offered, preferred)) by {
        if !candidate::has_text(candidates, preferred) {
            assert(offered[0].text == preferred);
        }
    }
    lemma_text_is_selected(e, offered, reading, preferred);
    text::lemma_find_first(list.candidates, candidate::with_text(preferred));
    assert forall|k: int| 0 <= k < offered.len() implies (#[trigger] offered[k]).reading is None by {
        if !candidate::has_text(candidates, preferred) && k > 0 {
            assert(offered[k] == candidates[k - 1]);
        } else if candidate::has_text(candidates, preferred) {
            assert(offered[k] == candidates[k]);
        }
    }
    assert(offered[chosen.cursor].reading is None);
    assert(chosen.selected_reading() == Some(reading));
}

/// What going on to the next part leaves.
proof fn lemma_advanced(e: EngineView)
    requires
        e.state is Conversion,
        e.upcoming.len() > 0 ==> e.upcoming[0].reading.len() > 0,
        e.upcoming.len() > 0 || e.tail_text().len() > 0,
    ensures
        ({
            let on = e.advanced().0;
            &&& on.state is Conversion
            &&& on.confirmed == e.confirmed.push(e.selected_piece()->0)
            &&& on.config == e.config
            &&& shows_selection(on)
            &&& e.upcoming.len() > 0 ==> {
                &&& on.upcoming == e.upcoming.drop_first()
                &&& on.tail == e.tail
                &&& on.reading_text() == e.upcoming[0].reading
                &&& settle::in_width(e.upcoming[0].text, e.config.width) == e.upcoming[0].text
                    ==> on.selected_piece() == Some(e.upcoming[0])
            }
            &&& e.upcoming.len() == 0 ==> {
                &&& on.upcoming.len() == 0
                &&& on.tail is None
                &&& on.reading_text() == e.tail_text()
            }
        }),
{
    let piece = e.selected_piece()->0;
    if e.upcoming.len() > 0 {
        let next = e.upcoming[0];
        let ready = EngineView {
            confirmed: e.confirmed.push(piece),
            upcoming: e.upcoming.drop_first(),
            ..e
        };
        assert(e.advanced() == ready.segment_entered(next.reading, Some(next.text)));
        lemma_part_entered(ready, next.reading, Some(next.text));
        if settle::in_width(next.text, e.config.width) == next.text {
            lemma_preferred_piece(ready, next.reading, next.text);
        }
    } else {
        let ready = EngineView { confirmed: e.confirmed.push(piece), tail: None, ..e };
        assert(e.advanced() == ready.segment_entered(e.tail_text(), None));
        lemma_part_entered(ready, e.tail_text(), None);
    }
}

/// What going back to the part before leaves.
proof fn lemma_returned(e: EngineView)
    requires
        e.state is Conversion,
        e.confirmed.len() > 0,
        e.confirmed.last().reading.len() > 0,
    ensures
        ({
            let back = e.returned().0;
            &&& back.state is Conversion
            &&& back.confirmed == e.confirmed.drop_last()
            &&& back.upcoming == e.upcoming.insert(0, e.selected_piece()->0)
            &&& back.tail == e.tail
            &&& back.config == e.config
            &&& back.reading_text() == e.confirmed.last().reading
            &&& shows_selection(back)
            &&& settle::in_width(e.confirmed.last().text, e.config.width)
                == e.confirmed.last().text ==> back.selected_piece() == Some(e.confirmed.last())
        }),
{
    let last = e.confirmed.last();
    let ready = EngineView {
        confirmed: e.confirmed.drop_last(),
        upcoming: e.upcoming.insert(0, e.selected_piece()->0),
        ..e
    };
    assert(e.returned() == ready.segment_entered(last.reading, Some(last.text)));
    lemma_part_entered(ready, last.reading, Some(last.text));
    if settle::in_width(last.text, e.config.width) == last.text {
        lemma_preferred_piece(ready, last.reading, last.text);
    }
}

/// Going back undoes going on: the part is under conversion again with its text
/// selected, and the parts before, the parts after, the tail and what is shown
/// are as they were. Where what was gone on to was the tail, the tail is the
/// part after now. The texts are already in the width of the list, and no part
/// is without a reading.
pub proof fn law_return_undoes_advance(e: EngineView)
    requires
        e.state is Conversion,
        e.upcoming.len() > 0 || e.tail_text().len() > 0,
        e.selected_piece()->0.reading.len() > 0,
        settle::in_width(e.selected_piece()->0.text, e.config.width)
            == e.selected_piece()->0.text,
        e.upcoming.len() > 0 ==> {
            &&& e.upcoming[0].reading.len() > 0
            &&& settle::in_width(e.upcoming[0].text, e.config.width) == e.upcoming[0].text
        },
    ensures
        ({
            let back = e.advanced().0.returned().0;
            &&& back.state is Conversion
            &&& back.confirmed == e.confirmed
            &&& back.selected_piece() == e.selected_piece()
            &&& back.reading_text() == e.selected_piece()->0.reading
            &&& selected_text(back) == selected_text(e)
            &&& shows_selection(back)
            &&& e.upcoming.len() > 0 ==> {
                &&& back.upcoming == e.upcoming
                &&& back.tail == e.tail
                &&& back.conversion_preedit(selected_text(back)) == e.conversion_preedit(
                    selected_text(e),
                )
                &&& shows_selection(e) ==> shown(back) == shown(e)
            }
            &&& e.upcoming.len() == 0 ==> {
                &&& back.tail is None
                &&& back.upcoming == seq![e.advanced().0.selected_piece()->0]
            }
        }),
{
    let on = e.advanced().0;
    lemma_advanced(e);
    assert(on.confirmed.last() == e.selected_piece()->0);
    lemma_returned(on);
    assert(on.confirmed.drop_last() =~= e.confirmed);
    if e.upcoming.len() > 0 {
        assert(e.upcoming.drop_first().insert(0, e.upcoming[0]) =~= e.upcoming);
    } else {
        assert(on.upcoming.insert(0, on.selected_piece()->0) =~= seq![on.selected_piece()->0]);
    }
}

/// What is shown goes with the selection through every move: after a move to
/// another part or of a border, and after a move in the list.
pub proof fn law_display_follows_moves(e: EngineView, navigation: Navigation)
    requires
        e.wf(),
        e.state is Conversion,
        shows_selection(e),
        e.upcoming.len() > 0 ==> e.upcoming[0].reading.len() > 0,
        e.confirmed.len() > 0 ==> e.confirmed.last().reading.len() > 0,
    ensures
        shows_selection(e.navigated(navigation).0),
        shows_selection(e.advanced().0),
        shows_selection(e.returned().0),
        shows_selection(e.shrunk().0),
        shows_selection(e.expanded().0),
{
    if e.upcoming.len() > 0 || e.tail_text().len() > 0 {
        lemma_advanced(e);
    }
    if e.confirmed.len() > 0 {
        lemma_returned(e);
    }
    if e.reading_text().len() > 1 {
        lemma_shrunk(e);
    }
    if e.upcoming.len() > 0 {
        let readings = state::piece_readings(e.upcoming);
        assert(readings =~= seq![readings[0]] + readings.skip(1));
        text::lemma_concat_add(seq![readings[0]], readings.skip(1));
        text::lemma_concat_one(readings[0]);
        assert(e.dissolved().tail_text().len() > 0);
    }
    if e.dissolved().tail_text().len() > 0 {
        lemma_expanded(e);
    }
    lemma_navigated(e, navigation);
}

/// What a move in the list leaves.
proof fn lemma_navigated(e: EngineView, navigation: Navigation)
    requires
        e.wf(),
        e.state is Conversion,
        shows_selection(e),
    ensures
        shows_selection(e.navigated(navigation).0),
{
    if let StateView::Conversion { candidates, .. } = e.state {
        let list = candidates.navigated(navigation);
        if candidates.candidates.len() > 0 {
            assert(0 <= list.cursor < list.candidates.len());
        }
    }
}

/// A preferred text, put among the candidates, can be selected in the list, if
/// it is already in the width of the list.
proof fn lemma_preferred_is_selected(
    e: EngineView,
    candidates: Seq<AnnotatedView>,
    reading: Seq<char>,
    preferred: Seq<char>,
)
    requires
        settle::in_width(preferred, e.config.width) == preferred,
    ensures
        e.conversion_list(
            conversion::with_preferred(candidates, preferred),
            reading,
        ).select_text(preferred).selected_text_or(reading) == preferred,
{
    let offered = conversion::with_preferred(candidates, preferred);
    assert(candidate::has_text(offered, preferred)) by {
        if !candidate::has_text(candidates, preferred) {
            assert(offered[0].text == preferred);
        }
    }
    lemma_text_is_selected(e, offered, reading, preferred);
}

/// A text among the candidates can be selected in the list, if it is already in
/// the width of the list.
pub proof fn lemma_text_is_selected(
    e: EngineView,
    candidates: Seq<AnnotatedView>,
    reading: Seq<char>,
    text: Seq<char>,
)
    requires
        candidate::has_text(candidates, text),
        settle::in_width(text, e.config.width) == text,
    ensures
        e.conversion_list(candidates, reading).select_text(text).selected_text_or(reading) == text,
        e.conversion_list(candidates, reading).select_text(text).candidates.len() > 0,
{
    let list = e.conversion_list(candidates, reading);
    let i = choose|i: int| 0 <= i < candidates.len() && (#[trigger] candidates[i]).text == text;
    assert(list.candidates[i].text == text);
    assert(candidate::with_text(text)(list.candidates[i]));
    text::lemma_find_first(list.candidates, candidate::with_text(text));
}

/// Where the live conversion shows a text, a conversion that keeps the display
/// has that text selected: the user goes on seeing it.
pub proof fn law_display_is_kept(e: EngineView)
    requires
        e.wf(),
        e.covered_reading().len() > 0,
        e.live_text_with_pending().len() > 0,
        e.live_text_with_pending() != e.covered_reading() || e.mode != InputMode::Emoji,
        settle::in_width(e.live_text_with_pending(), e.config.width)
            == e.live_text_with_pending(),
    ensures
        e.started(LearningLookup::Use, true).0.state is Conversion,
        selected_text(e.started(LearningLookup::Use, true).0)
            == e.live_text_with_pending(),
{
    let shown = e.live_text_with_pending();
    let reading = e.covered_reading();
    let candidates = e.offered_candidates(LearningLookup::Use);
    let ready = e.laid_out().asked(reading);
    if shown != reading {
        let starting = e.starting_candidates(LearningLookup::Use);
        lemma_preferred_is_selected(ready, starting, reading, shown);
        assert(candidates.len() > 0) by {
            if candidate::has_text(starting, shown) {
                let i = choose|i: int|
                    0 <= i < starting.len() && (#[trigger] starting[i]).text == shown;
            }
        }
    } else {
        let laid = e.laid_out();
        if e.splits_at_caret() {
            candidate_laws::law_reading_is_offered(
                laid,
                reading,
                reading,
                Seq::empty(),
                e.config.num_candidates as int,
                LearningLookup::Use,
                true,
            );
        } else {
            candidate_laws::law_reading_is_offered(
                laid,
                reading,
                laid.buffer.text,
                laid.pending,
                e.config.num_candidates as int,
                LearningLookup::Use,
                false,
            );
        }
        lemma_text_is_selected(ready, candidates, reading, shown);
    }
}

/// Every key but a chord with the alt key is taken while composing.
proof fn lemma_composing_takes(e: EngineView, key: KeyEvent, shift: bool)
    requires
        !key.modifiers.alt_key,
    ensures
        e.composing_key(key, shift).1.consumed,
{
}

/// An edit from within a conversion takes its key.
proof fn lemma_edit_takes(e: EngineView, discard_render: bool, edit: ComposingEdit)
    requires
        match edit {
            ComposingEdit::Key(key, _) => !key.modifiers.alt_key,
            ComposingEdit::ChunkBreak => true,
        },
    ensures
        e.edited_within(discard_render, edit).1.consumed,
{
    let composition = EngineView { suppress_suggest: discard_render, ..e.composing() };
    match edit {
        ComposingEdit::Key(key, shift) => {
            lemma_composing_takes(composition, key, shift);
        },
        ComposingEdit::ChunkBreak => {},
    }
}

/// A commit of a conversion takes its key.
proof fn lemma_commit_takes(e: EngineView)
    requires
        e.state is Conversion,
    ensures
        e.commit().1.consumed,
{
}

/// A conversion in the view of one source takes its key.
proof fn lemma_filtered_takes(e: EngineView, source: CandidateSource)
    ensures
        e.started_filtered(source).1.consumed,
        e.state is Conversion ==> e.filtered(source).1.consumed,
{
}

/// A key that refines a conversion is taken.
proof fn lemma_refined_takes(e: EngineView, key: KeyEvent, shift: bool)
    requires
        !key.modifiers.alt_key,
    ensures
        e.refined(key, shift).1.consumed,
{
    let filter = e.state.filter();
    lemma_edit_takes(e, filter is Some, ComposingEdit::Key(key, shift));
    if let Some(source) = filter {
        lemma_filtered_takes(
            e.edited_within(true, ComposingEdit::Key(key, shift)).0,
            source,
        );
    }
}

/// A chord of the control key is taken during a conversion.
proof fn lemma_chord_takes(e: EngineView, key: KeyEvent, shift: bool)
    requires
        e.state is Conversion,
        !key.modifiers.alt_key,
        e.conversion_chord(key, shift) is Some,
    ensures
        (e.conversion_chord(key, shift)->0).1.consumed,
{
    lemma_edit_takes(e, false, ComposingEdit::Key(key, shift));
    let split = e.edited_within(true, ComposingEdit::ChunkBreak).0;
    if let Some(source) = e.state.filter() {
        lemma_filtered_takes(split, source);
    }
    if let Some(source) = filter::key_source(key.keysym) {
        lemma_filtered_takes(e, source);
    }
}

/// The keys that move between the parts of a conversion, or move their borders,
/// are taken.
proof fn lemma_part_keys_take(e: EngineView)
    requires
        e.state is Conversion,
    ensures
        e.shrunk().1.consumed,
        e.expanded().1.consumed,
        e.advanced().1.consumed,
        e.returned().1.consumed,
{
}

/// Removing the selected candidate from the history takes its key.
proof fn lemma_forgetting_takes(e: EngineView)
    requires
        e.state is Conversion,
    ensures
        e.selected_forgotten().1.consumed,
{
}

/// A key without a place of its own is taken during a conversion.
proof fn lemma_other_takes(e: EngineView, key: KeyEvent, shift: bool)
    requires
        e.state is Conversion,
        !key.modifiers.alt_key,
    ensures
        e.conversion_other(key, shift).1.consumed,
{
    if key.modifiers.control_key {
        if e.conversion_chord(key, shift) is Some {
            lemma_chord_takes(e, key, shift);
        }
    } else if key.typed() is Some {
        if e.state.filter() is Some {
            lemma_refined_takes(e, key, shift);
        } else {
            lemma_commit_takes(e);
        }
    }
}

/// During a conversion the application sees no key but chords with the alt key:
/// every other key is taken.
pub proof fn law_conversion_takes_every_key(e: EngineView, key: KeyEvent)
    requires
        e.state is Conversion,
        !key.modifiers.alt_key,
    ensures
        e.pressed(key).1.consumed,
{
    let shift = key.modifiers.shift_key;
    let step = e.conversion_key(key, shift);
    assert(step.1.consumed) by {
        match key.keysym {
            Keysym::RETURN => {
                lemma_commit_takes(e);
            },
            Keysym::DELETE => {
                lemma_forgetting_takes(e);
            },
            Keysym::BACKSPACE => {
                lemma_forgetting_takes(e);
                lemma_refined_takes(e, key, shift);
            },
            Keysym::LEFT | Keysym::RIGHT => {
                lemma_part_keys_take(e);
            },
            Keysym::HOME | Keysym::END => {
                lemma_edit_takes(e, false, ComposingEdit::Key(key, shift));
            },
            Keysym::Character(_) | Keysym::Other(_) => {
                lemma_other_takes(e, key, shift);
            },
            _ => {},
        }
    }
}

/// A character typed during a conversion commits the selection, and is the next
/// key of what follows: of the tail, or of a new composition.
pub proof fn law_typing_commits_and_continues(e: EngineView, c: char)
    requires
        e.wf(),
        e.state is Conversion,
        e.state.filter() is None,
        selected_text(e).len() > 0 || e.confirmed.len() > 0,
        key::is_printable(c),
    ensures
        ({
            let step = e.pressed(composition_laws::character_key(c));
            &&& step.1.consumed
            &&& step.1.actions.contains(ActionView::Commit(e.whole_text(selected_text(e))))
            &&& step.0.state is Composing
            &&& step.0.raw_text() == e.tail_text().push(c)
        }),
{
    let pressed = composition_laws::character_key(c);
    let committed = e.commit();
    law_commit_keeps_text(e);
    lemma_commit_is_ready(e);
    composition_laws::law_typed_key_joins(committed.0, c);
    let next = committed.0.pressed(pressed);
    assert(e.pressed(pressed) == e.conversion_other(pressed, false));
    assert(e.conversion_other(pressed, false) == e.continued(pressed, false));
    let step = e.continued(pressed, false);
    assert(step.0 == next.0);
    assert(step.1.actions == committed.1.actions + next.1.actions);
    let handed = ActionView::Commit(e.whole_text(selected_text(e)));
    let k = choose|k: int| 0 <= k < committed.1.actions.len() && committed.1.actions[k] == handed;
    assert(step.1.actions[k] == handed);
    assert(next.0.raw_text() =~= e.tail_text().push(c));
}

/// After a commit the engine is in order, and what is under composition has the
/// characters of the tail as its keys, all before the caret.
proof fn lemma_commit_is_ready(e: EngineView)
    requires
        e.wf(),
        e.state is Conversion,
        selected_text(e).len() > 0 || e.confirmed.len() > 0,
    ensures
        e.commit().0.wf(),
        e.commit().0.buffer.raw_before() == e.tail_text(),
        e.commit().0.buffer.raw_after() == Seq::<char>::empty(),
        e.commit().0.pending == Seq::<char>::empty(),
{
    let b = e.commit().0.buffer;
    match e.tail {
        Some(tail) => {
            let keys = Seq::new(tail.len(), |i: int| seq![tail[i]]);
            assert(b.raws.take(b.cursor) =~= keys);
            assert(b.raws.skip(b.cursor) =~= Seq::<Seq<char>>::empty());
            romaji::lemma_concat_singletons(tail, keys);
        },
        None => {
            assert(b.raws.take(b.cursor) =~= Seq::<Seq<char>>::empty());
            assert(b.raws.skip(b.cursor) =~= Seq::<Seq<char>>::empty());
        },
    }
}

/// A digit key with control.
pub open spec fn digit_chord(c: char) -> KeyEvent {
    KeyEvent {
        keysym: Keysym::Character(c),
        modifiers: Modifiers { shift_key: false, control_key: true, alt_key: false },
    }
}

/// A digit key with control selects and commits the candidate with that number
/// on the page, wherever on the page the selection was.
pub proof fn law_digit_selects_on_page(e: EngineView, c: char)
    requires
        e.wf(),
        e.state is Conversion,
        '1' <= c <= '9',
    ensures
        ({
            let digit = c as int - '0' as int;
            &&& e.pressed(digit_chord(c)) == e.select_shown(digit)
            &&& match e.state.candidates() {
                Some(list) => {
                    let index = list.page_start() + digit - 1;
                    index < list.candidates.len() && (list.candidates[index].text.len() > 0
                        || e.confirmed.len() > 0) ==> e.pressed(
                        digit_chord(c),
                    ).1.actions.contains(
                        ActionView::Commit(e.whole_text(list.candidates[index].text)),
                    )
                },
                None => false,
            }
        }),
{
    let digit = c as int - '0' as int;
    if let StateView::Conversion { preedit, candidates, reading, filter } = e.state {
        let index = candidates.page_start() + digit - 1;
        let chosen = EngineView {
            state: StateView::Conversion {
                preedit,
                candidates: candidates.select(index),
                reading,
                filter,
            },
            ..e
        };
        assert(index >= 0);
        if index < candidates.candidates.len() && (candidates.candidates[index].text.len() > 0
            || e.confirmed.len() > 0) {
            assert(selected_text(chosen) == candidates.candidates[index].text);
            law_commit_keeps_text(chosen);
        }
    }
}

/// The engine with other measurements.
pub open spec fn timed(e: EngineView, metrics: Metrics) -> EngineView {
    EngineView { metrics, ..e }
}

/// Recording depends on no measurement.
proof fn lemma_recording_untimed(e: EngineView, pieces: Seq<PieceView>, metrics: Metrics)
    ensures
        timed(e, metrics).recorded_all(pieces) == timed(e.recorded_all(pieces), metrics),
    decreases pieces.len(),
{
    if pieces.len() > 0 {
        let init = pieces.drop_last();
        let last = pieces.last();
        lemma_recording_untimed(e, init, metrics);
        lemma_recorded_untimed(e.recorded_all(init), last.reading, last.text, metrics);
    }
}

/// Recording one selection depends on no measurement.
proof fn lemma_recorded_untimed(
    e: EngineView,
    reading: Seq<char>,
    surface: Seq<char>,
    metrics: Metrics,
)
    ensures
        timed(e, metrics).recorded(reading, surface) == timed(e.recorded(reading, surface), metrics),
{
    assert(timed(e, metrics).is_date_surface(reading, surface) == e.is_date_surface(
        reading,
        surface,
    ));
}

/// A commit depends on no measurement.
proof fn lemma_commit_untimed(e: EngineView, metrics: Metrics)
    ensures
        timed(e, metrics).commit() == (timed(e.commit().0, metrics), e.commit().1),
{
    if let Some((text, reading)) = e.state.selection() {
        if let Some(own) = reading {
            lemma_recorded_untimed(e, own, text, metrics);
        }
        let first = e.recorded_selection(reading, text);
        assert(timed(e, metrics).recorded_selection(reading, text) == timed(first, metrics));
        let pieces = first.confirmed + first.upcoming;
        lemma_recording_untimed(first, pieces, metrics);
        assert(timed(first, metrics).finalized() == timed(first.finalized(), metrics));
        assert(timed(e, metrics).whole_text(text) == e.whole_text(text));
    }
}

/// Selecting a candidate on the page, counted from 0, is what the digit key with
/// control one higher does: the outcome is the same, and so is the engine but
/// for its measurements.
pub proof fn law_page_selection_is_digit_key(
    e: EngineView,
    page_index: int,
    process_key_ms: u64,
    c: char,
)
    requires
        e.wf(),
        e.state is Conversion,
        0 <= page_index <= 8,
        c as int == '1' as int + page_index,
    ensures
        ({
            let on_page = e.selected_on_page(page_index, process_key_ms);
            let by_key = e.pressed(digit_chord(c));
            &&& on_page.1 == by_key.1
            &&& on_page.0 == timed(by_key.0, Metrics { conversion_ms: 0, process_key_ms })
            &&& by_key == e.conversion_key(digit_chord(c), false)
            &&& by_key.0.metrics == e.metrics
        }),
{
    law_digit_selects_on_page(e, c);
    let metrics = Metrics { conversion_ms: 0, ..e.metrics };
    if let StateView::Conversion { preedit, candidates, reading, filter } = e.state {
        let chosen = EngineView {
            state: StateView::Conversion {
                preedit,
                candidates: candidates.select(candidates.page_start() + page_index),
                reading,
                filter,
            },
            ..e
        };
        lemma_commit_untimed(chosen, metrics);
        lemma_commit_untimed(chosen, e.metrics);
        assert(timed(chosen, e.metrics) == chosen);
        assert(timed(e, metrics).select_shown(page_index + 1) == (
            timed(e.select_shown(page_index + 1).0, metrics),
            e.select_shown(page_index + 1).1,
        ));
    }
}

/// Emoji and dates are never learned.
pub proof fn law_emoji_and_dates_are_not_learned(
    e: EngineView,
    reading: Seq<char>,
    surface: Seq<char>,
)
    requires
        e.mode == InputMode::Emoji || e.is_date_surface(reading, surface),
    ensures
        e.recorded(reading, surface).learning == e.learning,
{
}

/// Whether an entry of the history is there, if there is a history.
pub open spec fn knows(e: EngineView, entry: EntryView) -> bool {
    e.learning is Some ==> e.learning->0.contains(entry)
}

/// A recorded entry is known, and what was known stays known.
proof fn lemma_recorded_knows(e: EngineView, reading: Seq<char>, surface: Seq<char>, entry: EntryView)
    ensures
        knows(e, entry) ==> knows(e.recorded(reading, surface), entry),
        e.mode != InputMode::Emoji && !e.is_date_surface(reading, surface) ==> knows(
            e.recorded(reading, surface),
            EntryView { reading, surface },
        ),
{
    if let Some(history) = e.learning {
        let one = EntryView { reading, surface };
        let kept = history.filter(lexicon::other_than(one));
        let next = lexicon::recorded(history, one);
        assert(next[0] == one);
        if history.contains(entry) && entry != one {
            text::lemma_filter_contains(history, lexicon::other_than(one), entry);
            let k = choose|k: int| 0 <= k < kept.len() && kept[k] == entry;
            assert(next[k + 1] == entry);
        }
    }
}

/// All parts are known once they were recorded, unless they are emoji or dates.
proof fn lemma_recorded_all_knows(e: EngineView, pieces: Seq<PieceView>, entry: EntryView)
    ensures
        knows(e, entry) ==> knows(e.recorded_all(pieces), entry),
        e.mode != InputMode::Emoji ==> forall|i: int|
            0 <= i < pieces.len() && !e.is_date_surface(
                (#[trigger] pieces[i]).reading,
                pieces[i].text,
            ) ==> knows(
                e.recorded_all(pieces),
                EntryView { reading: pieces[i].reading, surface: pieces[i].text },
            ),
    decreases pieces.len(),
{
    if pieces.len() > 0 {
        let init = pieces.drop_last();
        let last = pieces.last();
        let before = e.recorded_all(init);
        conversion::lemma_recorded_all_keeps(e, init);
        lemma_recorded_all_knows(e, init, entry);
        lemma_recorded_knows(before, last.reading, last.text, entry);
        if e.mode != InputMode::Emoji {
            assert forall|i: int|
                0 <= i < pieces.len() && !e.is_date_surface(
                    (#[trigger] pieces[i]).reading,
                    pieces[i].text,
                ) implies knows(
                e.recorded_all(pieces),
                EntryView { reading: pieces[i].reading, surface: pieces[i].text },
            ) by {
                let one = EntryView { reading: pieces[i].reading, surface: pieces[i].text };
                if i < init.len() {
                    assert(init[i] == pieces[i]);
                    lemma_recorded_all_knows(e, init, one);
                    lemma_recorded_knows(before, last.reading, last.text, one);
                }
            }
        }
    }
}

/// A commit is learned: the selection under its reading, and every other part
/// under its own, unless they are emoji or dates.
pub proof fn law_commit_is_learned(e: EngineView)
    requires
        e.state is Conversion,
        e.mode != InputMode::Emoji,
        selected_text(e).len() > 0 || e.confirmed.len() > 0,
    ensures
        match e.state.selection() {
            Some((text, Some(reading))) => !e.is_date_surface(reading, text) ==> knows(
                e.commit().0,
                EntryView { reading, surface: text },
            ),
            _ => true,
        },
        forall|i: int|
            0 <= i < (e.confirmed + e.upcoming).len() && !e.is_date_surface(
                (#[trigger] (e.confirmed + e.upcoming)[i]).reading,
                (e.confirmed + e.upcoming)[i].text,
            ) ==> knows(
                e.commit().0,
                EntryView {
                    reading: (e.confirmed + e.upcoming)[i].reading,
                    surface: (e.confirmed + e.upcoming)[i].text,
                },
            ),
{
    if let Some((text, reading)) = e.state.selection() {
        let first = e.recorded_selection(reading, text);
        let pieces = e.confirmed + e.upcoming;
        let own = match reading {
            Some(reading) => reading,
            None => Seq::empty(),
        };
        let entry = EntryView { reading: own, surface: text };
        lemma_recorded_knows(e, own, text, entry);
        lemma_recorded_all_knows(first, pieces, entry);
        assert(e.commit().0.learning == first.recorded_all(pieces).learning);
        assert forall|i: int|
            0 <= i < pieces.len() && !e.is_date_surface(
                (#[trigger] pieces[i]).reading,
                pieces[i].text,
            ) implies knows(
            e.commit().0,
            EntryView { reading: pieces[i].reading, surface: pieces[i].text },
        ) by {
            assert(!first.is_date_surface(pieces[i].reading, pieces[i].text));
        }
    }
}

/// While keys wait, a dictionary or the history can still be searched for what
/// they become: the keys are never beyond all kana.
pub proof fn law_waiting_keys_have_expansions(e: EngineView)
    requires
        e.ready(),
    ensures
        !(lookup::tail_of(e.pending) is Dead),
{
    if e.pending.len() > 0 {
        let p = romaji::rule_beyond(e.pending);
        text::lemma_find_first(romaji::RULES@, p);
        let i = text::find_first(romaji::RULES@, p)->0;
        let rule = romaji::RULES@[i];
        text::lemma_filter_contains(romaji::RULES@, p, rule);
        assert(romaji::RULES@.filter(p).len() > 0);
    }
}

/// The filters stand in a ring: going forward and then backward, or backward and
/// then forward, comes back, and a full round passes each source once.
pub proof fn law_filter_ring(at: Option<CandidateSource>)
    requires
        at matches Some(source) ==> source == CandidateSource::Learning || source
            == CandidateSource::UserDictionary || source == CandidateSource::Model || source
            == CandidateSource::Dictionary,
    ensures
        filter::filter_before(filter::filter_after(at)) == at,
        filter::filter_after(filter::filter_before(at)) == at,
        filter::filter_after(
            filter::filter_after(
                filter::filter_after(filter::filter_after(filter::filter_after(at))),
            ),
        ) == at,
{
}

/// The text that the live conversion showed is among the candidates of a new
/// conversion, even where nothing else offers it.
pub proof fn law_live_text_is_offered(e: EngineView, learning: LearningLookup)
    requires
        e.live_text_with_pending().len() > 0,
        e.live_text_with_pending() != e.covered_reading(),
    ensures
        candidate::has_text(e.offered_candidates(learning), e.live_text_with_pending()),
{
    let shown = e.live_text_with_pending();
    let starting = e.starting_candidates(learning);
    if !candidate::has_text(starting, shown) {
        assert(e.offered_candidates(learning)[0].text == shown);
    }
}

/// Splitting the text for the model stays in the view of one source, and so
/// does removing a candidate from the history.
pub proof fn law_rebuilding_keeps_filter(e: EngineView)
    requires
        e.state is Conversion,
    ensures
        e.rebroken().0.state is Conversion && e.covered_reading().len() > 0
            ==> e.rebroken().0.state.filter() == e.state.filter(),
        e.selected_forgotten().0.state is Conversion ==> e.selected_forgotten().0.state.filter()
            == e.state.filter(),
{
}

/// Typing and backspace in the view of one source stay in that view, as long as
/// anything is left to convert.
pub proof fn law_refining_keeps_filter(e: EngineView, key: KeyEvent)
    requires
        e.state.filter() is Some,
        !key.modifiers.alt_key,
        !key.modifiers.control_key,
        key.keysym == Keysym::BACKSPACE || (key.keysym is Character && key.typed() is Some),
    ensures
        e.pressed(key).0.state is Conversion ==> e.pressed(key).0.state.filter()
            == e.state.filter(),
{
    let shift = key.modifiers.shift_key;
    assert(e.pressed(key) == e.refined(key, shift));
    let composition = EngineView { suppress_suggest: true, ..e.composing() };
    let step = composition.composing_key(key, shift);
    assert(!(step.0.state is Conversion));
    let edited = e.edited_within(true, ComposingEdit::Key(key, shift));
    assert(edited.0.state == step.0.state);
}

/// Going on typing commits first and feeds the key to what the commit left: the
/// outcome is that of the commit followed by that of the key there, and the
/// engine is as the key leaves it. So the key is neither lost nor fed before the
/// commit.
pub proof fn law_key_follows_commit(e: EngineView, key: KeyEvent, shift: bool)
    requires
        e.state is Conversion,
        selected_text(e).len() > 0 || e.confirmed.len() > 0,
        key.typed() is Some,
    ensures
        ({
            let committed = e.commit();
            let left = committed.0;
            let next = if left.state is Empty {
                left.empty_key(key)
            } else {
                left.composing_key(key, shift)
            };
            let step = e.continued(key, shift);
            &&& !(left.state is Conversion)
            &&& step.1.consumed
            &&& step.1.actions == committed.1.actions + next.1.actions
            &&& step.0 == next.0
        }),
        key.keysym is Character && !key.modifiers.alt_key && !key.modifiers.control_key
            && e.state.filter() is None ==> e.conversion_key(key, shift) == e.continued(key, shift),
{
    law_commit_keeps_text(e);
    let left = e.commit().0;
    assert(left.state is Empty || left.state is Composing);
}

/// A row that the history gives for a reading can be removed by that reading, and
/// once it is, the history gives no such row any more, whatever keys wait.
pub proof fn law_learned_row_can_be_removed(
    e: EngineView,
    reading: Seq<char>,
    pending: Seq<char>,
    max: int,
    row: int,
    later: Seq<char>,
    later_max: int,
)
    requires
        max >= 0,
        later_max >= 0,
        0 <= row < lookup::learned(e.learning, reading, pending, max).len(),
    ensures
        ({
            let text = lookup::learned(e.learning, reading, pending, max)[row].text;
            let left = lookup::learned(
                e.forgotten(reading, text).learning,
                reading,
                later,
                later_max,
            );
            &&& e.remembers(reading, text)
            &&& forall|i: int| 0 <= i < left.len() ==> (#[trigger] left[i]).text != text
        }),
{
    let history = e.learning->0;
    let words = lookup::learned_words(history, reading, pending, max);
    let text = words[row].text;
    let entry = candidate_laws::lemma_learned_word_entry(history, reading, pending, max, row);
    let k = choose|k: int| 0 <= k < history.len() && history[k] == entry;
    assert(lexicon::suggests(reading, text)(history[k]));
    candidate_laws::law_removed_is_not_suggested(history, reading, text, later, later_max);
    let kept = history.filter(lexicon::not_suggests(reading, text));
    let left_words = lookup::learned_words(kept, reading, later, later_max);
    let left = lookup::learned(e.forgotten(reading, text).learning, reading, later, later_max);
    assert forall|i: int| 0 <= i < left.len() implies (#[trigger] left[i]).text != text by {
        assert(left[i].text == left_words[i].text);
    }
}

/// Removing the selected row in the view of the history takes it out of the
/// history together with its twins, also while keys wait: the view gives no such
/// row any more. The row is shown in the width that its text has.
pub proof fn law_deletion_clears_row(e: EngineView, row: int)
    requires
        e.state is Conversion,
        e.state.filter() == Some(CandidateSource::Learning),
        ({
            let rows = e.source_candidates(e.reading_text(), CandidateSource::Learning);
            let list = e.state.candidates()->0;
            &&& 0 <= row < rows.len()
            &&& list.cursor == row
            &&& list.candidates == e.list_of(rows).candidates
            &&& settle::in_width(rows[row].text, e.config.width) == rows[row].text
        }),
    ensures
        ({
            let rows = e.source_candidates(e.reading_text(), CandidateSource::Learning);
            let base = e.lookup_base(e.reading_text());
            let after = e.selected_forgotten().0;
            let left = lookup::learned(
                after.learning,
                base,
                e.lookup_pending(),
                usize::MAX as int,
            );
            &&& after.learning == e.forgotten(base, rows[row].text).learning
            &&& forall|i: int| 0 <= i < left.len() ==> (#[trigger] left[i]).text != rows[row].text
        }),
{
    let reading = e.reading_text();
    let base = e.lookup_base(reading);
    let rows = e.source_candidates(reading, CandidateSource::Learning);
    let max = usize::MAX as int;
    law_learned_row_can_be_removed(
        e,
        base,
        e.lookup_pending(),
        max,
        row,
        e.lookup_pending(),
        max,
    );
    assert(e.state.candidates()->0.candidates[row].text == rows[row].text);
    assert(e.removal_prefix(reading, e.state.filter()) == base);
}

} // verus!
