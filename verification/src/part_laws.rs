//! What a conversion covers and what is selected in it, from its start through
//! the moves between its parts.

use vstd::prelude::*;

use crate::action::ActionView;
use crate::candidate;
use crate::candidate::{CandidateSource, CandidateView, ListView};
use crate::candidate_laws;
use crate::composition_laws;
use crate::conversion;
use crate::conversion_laws;
use crate::editing_laws;
use crate::engine;
use crate::engine::{EngineView, Step};
use crate::key::Keysym;
use crate::offer_laws;
use crate::offer_laws::Search;
use crate::preedit::PreeditView;
use crate::settle;
use crate::state;
use crate::state::{InputMode, LearningLookup, PieceView, StateView};
use crate::suggestion_laws;
use crate::text;

verus! {

/// The candidate list of a conversion.
pub open spec fn list_shown(e: EngineView) -> ListView {
    match e.state {
        StateView::Conversion { candidates, .. } => candidates,
        _ => ListView { candidates: Seq::empty(), cursor: 0 },
    }
}

/// The rows of the candidate list of a conversion.
pub open spec fn rows_shown(e: EngineView) -> Seq<CandidateView> {
    list_shown(e).candidates
}

/// The reading under conversion.
pub open spec fn reading_shown(e: EngineView) -> Seq<char> {
    match e.state {
        StateView::Conversion { reading, .. } => reading,
        _ => Seq::empty(),
    }
}

/// The dictionaries are no larger than a candidate list can be.
pub open spec fn of_size(e: EngineView) -> bool {
    2 * (suggestion_laws::entries(e.user).len() + suggestion_laws::entries(e.system).len()) <= usize::MAX
}

/// The search for a part of the composition: words for exactly its reading.
pub open spec fn part_search(reading: Seq<char>) -> Search {
    Search {
        reading,
        base: reading,
        pending: Seq::empty(),
        learning: LearningLookup::Use,
        exact_only: true,
    }
}

/// The search for the whole composition: what is composed so far, with the keys
/// that wait.
pub open spec fn whole_search(e: EngineView, learning: LearningLookup) -> Search {
    Search {
        reading: editing_laws::text_with(e, Seq::empty()),
        base: e.buffer.text,
        pending: e.pending,
        learning,
        exact_only: false,
    }
}

/// Rows that fit a search, or that do once a preferred text is taken off their
/// head.
pub open spec fn rows_fit_after(
    e: EngineView,
    s: Search,
    rows: Seq<CandidateView>,
    preferred: Seq<char>,
) -> bool {
    ||| offer_laws::rows_fit(e, s, rows)
    ||| {
        &&& rows.len() > 0
        &&& offer_laws::row_has_text(e, rows[0], preferred)
        &&& rows[0].source == Some(CandidateSource::Model)
        &&& rows[0].reading == Some(s.reading)
        &&& offer_laws::rows_fit(e, s, rows.skip(1))
    }
}

/// Every row has the reading itself, and none a longer one.
pub open spec fn rows_have_reading(rows: Seq<CandidateView>, reading: Seq<char>) -> bool {
    forall|i: int| 0 <= i < rows.len() ==> (#[trigger] rows[i]).reading == Some(reading)
}

/// The text that is selected, or the reading in an empty list.
pub open spec fn chosen_text(e: EngineView) -> Seq<char> {
    let list = list_shown(e);
    if 0 <= list.cursor < list.candidates.len() {
        list.candidates[list.cursor].text
    } else {
        reading_shown(e)
    }
}

/// What is shown of a conversion: the texts of the parts before, the selected
/// text, the texts of the parts after, and the tail, in this order; the selected
/// text alone is highlighted, and the caret stands after it.
pub open spec fn shows_parts(e: EngineView) -> bool {
    match e.state {
        StateView::Conversion { preedit, .. } => shows_choice(e, preedit, chosen_text(e)),
        _ => false,
    }
}

/// A preedit that shows `chosen` between the parts of a conversion.
pub open spec fn shows_choice(e: EngineView, preedit: PreeditView, chosen: Seq<char>) -> bool {
    let before = e.confirmed.len() as int;
    let after = e.upcoming.len() as int;
    let segments = preedit.segments;
    &&& segments.len() == before + 1 + after + if e.tail is Some {
        1int
    } else {
        0
    }
    &&& forall|i: int|
        0 <= i < before ==> (#[trigger] segments[i]).text == e.confirmed[i].text
            && !segments[i].highlighted
    &&& segments[before].text == chosen
    &&& segments[before].highlighted
    &&& forall|i: int|
        before < i <= before + after ==> (#[trigger] segments[i]).text == e.upcoming[i - before
            - 1].text && !segments[i].highlighted
    &&& e.tail matches Some(tail) ==> segments[before + after + 1].text == tail
        && !segments[before + after + 1].highlighted
    &&& preedit.caret == text::concat(
        Seq::new(e.confirmed.len(), |i: int| e.confirmed[i].text),
    ).len() + chosen.len()
}

/// A preedit of a conversion shows its parts.
pub proof fn lemma_preedit(e: EngineView, chosen: Seq<char>)
    ensures
        shows_choice(e, e.conversion_preedit(chosen), chosen),
{
    assert(Seq::new(e.confirmed.len(), |i: int| e.confirmed[i].text)
        =~= state::piece_texts(e.confirmed));
}

/// What is shown of a conversion depends on its parts alone.
pub proof fn lemma_same_parts(a: EngineView, b: EngineView, preedit: PreeditView, chosen: Seq<char>)
    requires
        a.confirmed == b.confirmed,
        a.upcoming == b.upcoming,
        a.tail == b.tail,
        shows_choice(a, preedit, chosen),
    ensures
        shows_choice(b, preedit, chosen),
{
}

/// What a step leaves of a conversion is shown by it and told to the application.
pub open spec fn tells_conversion(step: Step) -> bool {
    match step.0.state {
        StateView::Conversion { preedit, candidates, .. } => {
            &&& shows_parts(step.0)
            &&& step.1.consumed
            &&& step.1.actions.contains(ActionView::UpdatePreedit(preedit))
            &&& step.1.actions.contains(ActionView::ShowCandidates(candidates))
        },
        _ => false,
    }
}

/// A step tells beside the list what it is for: the source that it is narrowed
/// to, a reading, and the page.
pub open spec fn tells_aux(step: Step, reading: Seq<char>) -> bool {
    step.1.actions.contains(
        ActionView::UpdateAuxText(
            engine::conversion_aux(step.0.state.filter(), reading, list_shown(step.0)),
        ),
    )
}

/// What a step enters is shown by it and told to the application, under the
/// reading that it converts.
pub open spec fn tells_entry(step: Step) -> bool {
    tells_conversion(step) && tells_aux(step, reading_shown(step.0))
}

/// A conversion that is entered is shown and told.
pub proof fn lemma_entering_tells(
    e: EngineView,
    reading: Seq<char>,
    list: ListView,
    filter: Option<CandidateSource>,
)
    requires
        list.wf(),
    ensures
        tells_entry(e.entered_filtered(reading, list, filter)),
{
    let step = e.entered_filtered(reading, list, filter);
    assert(step.1.actions[2] is UpdateAuxText);
    let chosen = list.selected_text_or(reading);
    assert(step.1.actions[0] is UpdatePreedit);
    assert(step.1.actions[1] is ShowCandidates);
    lemma_preedit(e, chosen);
    lemma_same_parts(e, step.0, e.conversion_preedit(chosen), chosen);
}

/// An engine searches alike whatever it shows.
pub proof fn lemma_same_search(a: EngineView, b: EngineView, s: Search)
    requires
        a.config == b.config,
        a.mode == b.mode,
        a.outside == b.outside,
        a.chunk_breaks == b.chunk_breaks,
        a.learning == b.learning,
        a.user == b.user,
        a.system == b.system,
    ensures
        offer_laws::found(a, s) == offer_laws::found(b, s),
        a.conversion_list(offer_laws::found(a, s), s.reading) == b.conversion_list(
            offer_laws::found(b, s),
            s.reading,
        ),
{
}

/// The rows of a list that has a preferred text among them.
proof fn lemma_preferred_rows(e: EngineView, s: Search, preferred: Seq<char>)
    requires
        s.pending.len() == 0 ==> s.base == s.reading,
        of_size(e),
    ensures
        rows_fit_after(
            e,
            s,
            e.conversion_list(
                conversion::with_preferred(offer_laws::found(e, s), preferred),
                s.reading,
            ).candidates,
            preferred,
        ),
{
    let all = offer_laws::found(e, s);
    let rows = e.conversion_list(all, s.reading).candidates;
    let more = e.conversion_list(
        conversion::with_preferred(all, preferred),
        s.reading,
    ).candidates;
    offer_laws::law_rows_fit(e, s);
    if !candidate::has_text(all, preferred) {
        assert(more.skip(1) =~= rows) by {
            assert forall|i: int| 0 <= i < rows.len() implies more[i + 1] == #[trigger] rows[i] by {
                assert(conversion::with_preferred(all, preferred)[i + 1] == all[i]);
            }
        }
        assert(offer_laws::row_has_text(e, more[0], preferred));
    }
}

/// A list of candidates without readings of their own, and a preferred text
/// among them, shows the reading alone.
proof fn lemma_rows_have_reading(e: EngineView, reading: Seq<char>, preferred: Seq<char>)
    ensures
        rows_have_reading(
            e.conversion_list(e.segment_candidates(reading), reading).candidates,
            reading,
        ),
        rows_have_reading(
            e.conversion_list(
                conversion::with_preferred(e.segment_candidates(reading), preferred),
                reading,
            ).candidates,
            reading,
        ),
{
    let all = e.segment_candidates(reading);
    let more = conversion::with_preferred(all, preferred);
    candidate_laws::law_part_candidates_keep_reading(e, reading);
    assert forall|i: int| 0 <= i < more.len() implies (#[trigger] more[i]).reading is None by {
        if candidate::has_text(all, preferred) {
            assert(more[i] == all[i]);
        } else if i > 0 {
            assert(more[i] == all[i - 1]);
        }
    }
}

/// What a new conversion searches for.
pub open spec fn starting_search(e: EngineView, learning: LearningLookup) -> Search {
    let whole = editing_laws::text_with(e, Seq::empty());
    let caret = e.buffer.cursor + editing_laws::resolved(e.pending).len();
    if 0 < caret < whole.len() {
        Search {
            reading: whole.take(caret),
            base: whole.take(caret),
            pending: Seq::empty(),
            learning,
            exact_only: learning == LearningLookup::Use,
        }
    } else {
        whole_search(e, learning)
    }
}

/// What a conversion covers from its start: where the caret stands inside the
/// text, what stands before it, and what follows is the tail; else all of it. The
/// candidates are those that the sources have, with what was shown live among
/// them, and the first is selected, unless what is shown is to be kept. No source
/// is narrowed to. What the model was not asked yet, it is asked now.
pub proof fn law_conversion_starts(e: EngineView, learning: LearningLookup, keep_display: bool)
    requires
        e.wf(),
        of_size(e),
        editing_laws::text_with(e, Seq::empty()).len() > 0,
    ensures
        ({
            let whole = editing_laws::text_with(e, Seq::empty());
            let caret = e.buffer.cursor + editing_laws::resolved(e.pending).len();
            let s = starting_search(e, learning);
            let step = e.started(learning, keep_display);
            let next = step.0;
            let shown = e.live.text + e.pending;
            &&& e.mode != InputMode::Emoji ==> next.state is Conversion
            &&& next.state is Conversion ==> {
                &&& reading_shown(next) == s.reading
                &&& next.state.filter() is None
                &&& next.tail == if 0 < caret < whole.len() {
                    Some(whole.skip(caret))
                } else {
                    None
                }
                &&& next.confirmed.len() == 0
                &&& next.upcoming.len() == 0
                &&& if e.live.shown && shown.len() > 0 && shown != s.reading {
                    rows_fit_after(e, s, rows_shown(next), shown)
                } else {
                    offer_laws::rows_fit(e, s, rows_shown(next))
                }
                &&& !next.live.shown
                &&& rows_shown(next).len() > 0
                &&& !keep_display ==> list_shown(next).cursor == 0
                &&& tells_entry(step)
            }
            &&& e.outside.answer(s.reading, e.chunk_breaks) is None ==> next.requested.contains(
                s.reading,
            )
            &&& e.outside.answer(s.reading, e.chunk_breaks) is Some ==> next.requested
                == e.requested
        }),
{
    editing_laws::law_waiting_keys_resolve(e);
    let s = starting_search(e, learning);
    let reading = e.covered_reading();
    let laid = e.laid_out();
    let ready = laid.asked(reading);
    let all = offer_laws::found(e, s);
    let shown = e.live_text_with_pending();
    let offered = e.offered_candidates(learning);
    assert(s.reading == reading);
    if s.pending.len() == 0 && !e.splits_at_caret() {
        assert(e.pending =~= Seq::<char>::empty());
        assert(editing_laws::text_with(e, Seq::empty()) =~= e.buffer.text);
    }
    lemma_same_search(e, laid, s);
    assert(e.starting_candidates(learning) == all);
    offer_laws::law_rows_fit(e, s);
    lemma_preferred_rows(e, s, shown);
    assert(ready.conversion_list(offered, reading) == e.conversion_list(offered, reading));
    lemma_started(e, learning, keep_display);
    if e.mode != InputMode::Emoji {
        candidate_laws::law_reading_is_offered(
            e,
            s.reading,
            s.base,
            s.pending,
            e.config.num_candidates as int,
            s.learning,
            s.exact_only,
        );
        let i = choose|i: int| 0 <= i < all.len() && (#[trigger] all[i]).text == reading;
        assert(all.len() > 0);
        assert(offered.len() > 0);
    }
    if e.requested.contains(reading) {
        assert(ready.requested.contains(reading));
    } else {
        assert(e.requested.push(reading)[e.requested.len() as int] == reading);
    }
}

/// What the start of a conversion leaves.
proof fn lemma_started(e: EngineView, learning: LearningLookup, keep_display: bool)
    requires
        e.covered_reading().len() > 0,
    ensures
        ({
            let step = e.started(learning, keep_display);
            let next = step.0;
            let reading = e.covered_reading();
            let ready = e.laid_out().asked(reading);
            let offered = e.offered_candidates(learning);
            let list = ready.conversion_list(offered, reading);
            &&& next.requested == ready.requested
            &&& next.state is Conversion <==> offered.len() > 0
            &&& next.state is Conversion ==> {
                &&& reading_shown(next) == reading
                &&& next.state.filter() is None
                &&& next.tail == e.laid_out().tail
                &&& next.confirmed.len() == 0
                &&& next.upcoming.len() == 0
                &&& !next.live.shown
                &&& rows_shown(next) == list.candidates
                &&& list_shown(next).cursor == if keep_display {
                    list.select_text(e.live_text_with_pending()).cursor
                } else {
                    0
                }
                &&& tells_entry(step)
            }
        }),
{
    let step = e.started(learning, keep_display);
    let reading = e.covered_reading();
    let ready = e.laid_out().asked(reading);
    let list = ready.conversion_list(e.offered_candidates(learning), reading);
    if e.offered_candidates(learning).len() > 0 {
        let shown = e.live_text_with_pending();
        text::lemma_find_first(list.candidates, candidate::with_text(shown));
        lemma_entering_tells(ready, reading, list, None);
        lemma_entering_tells(ready, reading, list.select_text(shown), None);
    }
}

/// Where the caret stands inside the text, a conversion that uses the history
/// offers words for exactly what stands before the caret: every candidate has
/// that as its reading, and no word with a longer reading is offered. What the
/// live conversion showed is no exception.
pub proof fn law_part_conversion_is_exact(e: EngineView, keep_display: bool)
    requires
        e.wf(),
        0 < e.buffer.cursor + editing_laws::resolved(e.pending).len() < editing_laws::text_with(e, Seq::empty()).len(),
    ensures
        ({
            let whole = editing_laws::text_with(e, Seq::empty());
            let caret = e.buffer.cursor + editing_laws::resolved(e.pending).len();
            let next = e.started(LearningLookup::Use, keep_display).0;
            next.state is Conversion ==> {
                &&& reading_shown(next) == whole.take(caret)
                &&& next.tail == Some(whole.skip(caret))
                &&& rows_have_reading(rows_shown(next), whole.take(caret))
            }
        }),
{
    editing_laws::law_waiting_keys_resolve(e);
    let reading = e.covered_reading();
    let laid = e.laid_out();
    let ready = laid.asked(reading);
    let offered = e.offered_candidates(LearningLookup::Use);
    lemma_started(e, LearningLookup::Use, keep_display);
    lemma_rows_have_reading(laid, reading, e.live_text_with_pending());
    assert(ready.conversion_list(offered, reading) == laid.conversion_list(offered, reading));
}

/// The keys that start a conversion: space and down with the history, tab
/// without it.
pub proof fn law_keys_that_convert(e: EngineView)
    requires
        e.state is Composing,
    ensures
        e.pressed(composition_laws::named_key(Keysym::SPACE)) == e.started(LearningLookup::Use, false),
        e.pressed(composition_laws::named_key(Keysym::DOWN)) == e.started(LearningLookup::Use, false),
        e.pressed(composition_laws::named_key(Keysym::TAB)) == e.started(LearningLookup::Skip, false),
{
}

/// Without the history, no candidate of a new conversion is of the history.
pub proof fn law_tab_leaves_history_out(e: EngineView)
    requires
        e.wf(),
        of_size(e),
        e.state is Composing,
        editing_laws::text_with(e, Seq::empty()).len() > 0,
    ensures
        ({
            let rows = rows_shown(e.pressed(composition_laws::named_key(Keysym::TAB)).0);
            forall|i: int|
                0 <= i < rows.len() ==> (#[trigger] rows[i]).source != Some(
                    CandidateSource::Learning,
                )
        }),
{
    let next = e.started(LearningLookup::Skip, false).0;
    let rows = rows_shown(next);
    let s = starting_search(e, LearningLookup::Skip);
    law_conversion_starts(e, LearningLookup::Skip, false);
    if next.state is Conversion {
        assert forall|i: int| 0 <= i < rows.len() implies (#[trigger] rows[i]).source != Some(
            CandidateSource::Learning,
        ) by {
            if offer_laws::rows_fit(e, s, rows) {
                assert(offer_laws::row_is_sourced(e, s, rows[i]));
            } else if i > 0 {
                assert(rows.skip(1)[i - 1] == rows[i]);
                assert(offer_laws::row_is_sourced(e, s, rows.skip(1)[i - 1]));
            }
        }
    }
}

/// What stands after the part under conversion: the readings of the parts after
/// it, and the tail.
pub open spec fn after_part(e: EngineView) -> Seq<char> {
    text::concat(Seq::new(e.upcoming.len(), |i: int| e.upcoming[i].reading)) + match e.tail {
        Some(tail) => tail,
        None => Seq::empty(),
    }
}

/// A part that is entered without a preferred text.
proof fn lemma_part_fresh(e: EngineView, reading: Seq<char>)
    requires
        reading.len() > 0,
        of_size(e),
    ensures
        ({
            let step = e.segment_entered(reading, None);
            let next = step.0;
            &&& next.state is Conversion
            &&& reading_shown(next) == reading
            &&& next.state.filter() is None
            &&& list_shown(next).cursor == 0
            &&& offer_laws::rows_fit(e, part_search(reading), rows_shown(next))
            &&& rows_have_reading(rows_shown(next), reading)
            &&& tells_entry(step)
        }),
{
    offer_laws::law_rows_fit(e, part_search(reading));
    lemma_rows_have_reading(e, reading, Seq::empty());
    assert(offer_laws::found(e, part_search(reading)) == e.segment_candidates(reading));
    let list = e.conversion_list(e.segment_candidates(reading), reading);
    lemma_entering_tells(e.asked(reading), reading, list, None);
}

/// A part that is entered with a preferred text.
proof fn lemma_part_preferred(e: EngineView, reading: Seq<char>, preferred: Seq<char>)
    requires
        reading.len() > 0,
        of_size(e),
    ensures
        ({
            let step = e.segment_entered(reading, Some(preferred));
            let next = step.0;
            &&& next.state is Conversion
            &&& reading_shown(next) == reading
            &&& next.state.filter() is None
            &&& rows_fit_after(e, part_search(reading), rows_shown(next), preferred)
            &&& rows_have_reading(rows_shown(next), reading)
            &&& tells_entry(step)
        }),
{
    lemma_preferred_rows(e, part_search(reading), preferred);
    lemma_rows_have_reading(e, reading, preferred);
    assert(offer_laws::found(e, part_search(reading)) == e.segment_candidates(reading));
    let list = e.conversion_list(
        conversion::with_preferred(e.segment_candidates(reading), preferred),
        reading,
    );
    text::lemma_find_first(list.candidates, candidate::with_text(preferred));
    lemma_entering_tells(e.asked(reading), reading, list.select_text(preferred), None);
}

/// Rows that fit for an engine fit for one that searches alike.
proof fn lemma_same_part(a: EngineView, b: EngineView, reading: Seq<char>)
    requires
        reading.len() > 0,
        of_size(a),
        a.config == b.config,
        a.mode == b.mode,
        a.outside == b.outside,
        a.chunk_breaks == b.chunk_breaks,
        a.learning == b.learning,
        a.user == b.user,
        a.system == b.system,
    ensures
        offer_laws::rows_fit(a, part_search(reading), rows_shown(b.segment_entered(reading, None).0)),
        forall|preferred: Seq<char>|
            rows_fit_after(
                a,
                part_search(reading),
                rows_shown((#[trigger] b.segment_entered(reading, Some(preferred))).0),
                preferred,
            ),
{
    let s = part_search(reading);
    lemma_same_search(a, b, s);
    offer_laws::law_rows_fit(a, s);
    assert(offer_laws::found(b, s) == b.segment_candidates(reading));
    assert forall|preferred: Seq<char>|
        rows_fit_after(
            a,
            s,
            rows_shown((#[trigger] b.segment_entered(reading, Some(preferred))).0),
            preferred,
        ) by {
        lemma_preferred_rows(a, s, preferred);
    }
}

/// Narrowing the part under conversion by shift and left moves the last
/// character of its reading to what follows; the parts before stay, those after
/// are put back into what follows. The first candidate of the new part's list is
/// selected, and the list is for exactly the new reading. A part of one
/// character stays.
pub proof fn law_narrowing_selects_first(e: EngineView)
    requires
        e.state is Conversion,
        of_size(e),
    ensures
        e.pressed(editing_laws::shift_key(Keysym::LEFT)) == e.shrunk(),
        reading_shown(e).len() > 1 ==> {
            let reading = reading_shown(e);
            let step = e.shrunk();
            let next = step.0;
            &&& next.state is Conversion
            &&& reading_shown(next) == reading.drop_last()
            &&& next.tail == Some(seq![reading.last()] + after_part(e))
            &&& next.upcoming.len() == 0
            &&& next.confirmed == e.confirmed
            &&& next.state.filter() is None
            &&& list_shown(next).cursor == 0
            &&& offer_laws::rows_fit(e, part_search(reading.drop_last()), rows_shown(next))
            &&& rows_have_reading(rows_shown(next), reading.drop_last())
            &&& tells_entry(step)
        },
        reading_shown(e).len() <= 1 ==> e.shrunk().0 == e && e.shrunk().1.actions.len() == 0,
{
    let reading = e.reading_text();
    let dissolved = e.dissolved();
    lemma_after_part(e);
    if reading.len() > 1 {
        let ready = EngineView {
            tail: Some(seq![reading.last()] + dissolved.tail_text()),
            ..dissolved
        };
        let shorter = reading.drop_last();
        assert(e.shrunk() == ready.segment_entered(shorter, None));
        conversion_laws::lemma_shrunk(e);
        lemma_part_fresh(ready, shorter);
        lemma_same_part(e, ready, shorter);
    }
}

/// What follows once the parts after are put back into it.
proof fn lemma_after_part(e: EngineView)
    ensures
        e.dissolved().tail_text() == after_part(e),
{
    let readings = Seq::new(e.upcoming.len(), |i: int| e.upcoming[i].reading);
    assert(readings =~= state::piece_readings(e.upcoming));
    if e.upcoming.len() == 0 {
        assert(after_part(e) =~= e.tail_text());
    }
}

/// Widening the part under conversion by shift and right moves the first
/// character of what follows to its reading; the parts before stay, those after
/// are put back into what follows. The first candidate of the new part's list is
/// selected, and the list is for exactly the new reading. Where nothing follows,
/// the conversion stays.
pub proof fn law_widening_selects_first(e: EngineView)
    requires
        e.state is Conversion,
        of_size(e),
    ensures
        e.pressed(editing_laws::shift_key(Keysym::RIGHT)) == e.expanded(),
        after_part(e).len() > 0 ==> {
            let reading = reading_shown(e).push(after_part(e)[0]);
            let step = e.expanded();
            let next = step.0;
            &&& next.state is Conversion
            &&& reading_shown(next) == reading
            &&& next.tail == if after_part(e).len() > 1 {
                Some(after_part(e).drop_first())
            } else {
                None
            }
            &&& next.upcoming.len() == 0
            &&& next.confirmed == e.confirmed
            &&& next.state.filter() is None
            &&& list_shown(next).cursor == 0
            &&& offer_laws::rows_fit(e, part_search(reading), rows_shown(next))
            &&& rows_have_reading(rows_shown(next), reading)
            &&& tells_entry(step)
        },
        after_part(e).len() == 0 ==> e.expanded().0.state == e.state && e.expanded().1.actions.len()
            == 0 && e.expanded().0.confirmed == e.confirmed,
{
    let dissolved = e.dissolved();
    let tail = after_part(e);
    lemma_after_part(e);
    if tail.len() > 0 {
        let ready = EngineView {
            tail: if tail.len() > 1 {
                Some(tail.drop_first())
            } else {
                None
            },
            ..dissolved
        };
        let longer = e.reading_text().push(tail[0]);
        assert(e.expanded() == ready.segment_entered(longer, None));
        conversion_laws::lemma_expanded(e);
        lemma_part_fresh(ready, longer);
        lemma_same_part(e, ready, longer);
    }
}

/// The reading of what is selected.
pub open spec fn chosen_reading(e: EngineView) -> Seq<char> {
    let list = list_shown(e);
    if 0 <= list.cursor < list.candidates.len() && list.candidates[list.cursor].reading is Some {
        list.candidates[list.cursor].reading->Some_0
    } else {
        reading_shown(e)
    }
}

/// The right key goes on to the next part: what is selected joins the parts
/// before, under its reading. The next part is the first of the parts after, with
/// its text selected again; without one, all of the tail, with the first
/// candidate selected. With neither, nothing happens.
pub proof fn law_right_goes_on(e: EngineView)
    requires
        e.wf(),
        e.state is Conversion,
        of_size(e),
        e.upcoming.len() > 0 ==> e.upcoming[0].reading.len() > 0,
    ensures
        ({
            let step = e.pressed(composition_laws::named_key(Keysym::RIGHT));
            let next = step.0;
            let piece = PieceView { text: chosen_text(e), reading: chosen_reading(e) };
            let tail = match e.tail {
                Some(tail) => tail,
                None => Seq::empty(),
            };
            &&& e.upcoming.len() > 0 || tail.len() > 0 ==> {
                &&& next.state is Conversion
                &&& next.confirmed == e.confirmed.push(piece)
                &&& next.state.filter() is None
                &&& rows_have_reading(rows_shown(next), reading_shown(next))
                &&& tells_entry(step)
            }
            &&& e.upcoming.len() > 0 ==> {
                &&& reading_shown(next) == e.upcoming[0].reading
                &&& next.upcoming == e.upcoming.drop_first()
                &&& next.tail == e.tail
                &&& rows_fit_after(
                    e,
                    part_search(e.upcoming[0].reading),
                    rows_shown(next),
                    e.upcoming[0].text,
                )
                &&& settle::in_width(e.upcoming[0].text, e.config.width) == e.upcoming[0].text
                    ==> chosen_text(next) == e.upcoming[0].text
            }
            &&& e.upcoming.len() == 0 && tail.len() > 0 ==> {
                &&& reading_shown(next) == tail
                &&& next.upcoming.len() == 0
                &&& next.tail is None
                &&& offer_laws::rows_fit(e, part_search(tail), rows_shown(next))
                &&& list_shown(next).cursor == 0
            }
            &&& e.upcoming.len() == 0 && tail.len() == 0 ==> {
                &&& next == e
                &&& step.1.actions.len() == 0
            }
        }),
{
    let step = e.pressed(composition_laws::named_key(Keysym::RIGHT));
    assert(step == e.advanced());
    let piece = PieceView { text: chosen_text(e), reading: chosen_reading(e) };
    assert(e.selected_piece() == Some(piece));
    if e.upcoming.len() > 0 {
        let part = e.upcoming[0];
        let ready = EngineView {
            confirmed: e.confirmed.push(piece),
            upcoming: e.upcoming.drop_first(),
            ..e
        };
        assert(step == ready.segment_entered(part.reading, Some(part.text)));
        lemma_part_preferred(ready, part.reading, part.text);
        lemma_same_part(e, ready, part.reading);
        lemma_preferred_chosen(ready, part.reading, part.text);
    } else if e.tail_text().len() > 0 {
        let ready = EngineView { confirmed: e.confirmed.push(piece), tail: None, ..e };
        assert(step == ready.segment_entered(e.tail_text(), None));
        lemma_part_fresh(ready, e.tail_text());
        lemma_same_part(e, ready, e.tail_text());
    }
}

/// A preferred text is selected, if it is in the width of the list.
proof fn lemma_preferred_chosen(e: EngineView, reading: Seq<char>, preferred: Seq<char>)
    requires
        reading.len() > 0,
    ensures
        settle::in_width(preferred, e.config.width) == preferred ==> chosen_text(
            e.segment_entered(reading, Some(preferred)).0,
        ) == preferred,
{
    if settle::in_width(preferred, e.config.width) == preferred {
        let all = e.segment_candidates(reading);
        let offered = conversion::with_preferred(all, preferred);
        assert(candidate::has_text(offered, preferred)) by {
            if !candidate::has_text(all, preferred) {
                assert(offered[0].text == preferred);
            }
        }
        let list = e.conversion_list(offered, reading);
        conversion_laws::lemma_text_is_selected(e, offered, reading, preferred);
        text::lemma_find_first(list.candidates, candidate::with_text(preferred));
    }
}

/// The left key goes back to the part before: what is selected becomes the first
/// of the parts after, and the text that the part before had is selected again.
/// Without a part before, nothing happens.
pub proof fn law_left_goes_back(e: EngineView)
    requires
        e.wf(),
        e.state is Conversion,
        of_size(e),
        e.confirmed.len() > 0 ==> e.confirmed.last().reading.len() > 0,
    ensures
        ({
            let step = e.pressed(composition_laws::named_key(Keysym::LEFT));
            let next = step.0;
            let piece = PieceView { text: chosen_text(e), reading: chosen_reading(e) };
            &&& e.confirmed.len() > 0 ==> {
                let part = e.confirmed.last();
                &&& next.state is Conversion
                &&& reading_shown(next) == part.reading
                &&& next.confirmed == e.confirmed.drop_last()
                &&& next.upcoming == seq![piece] + e.upcoming
                &&& next.tail == e.tail
                &&& next.state.filter() is None
                &&& rows_have_reading(rows_shown(next), part.reading)
                &&& rows_fit_after(e, part_search(part.reading), rows_shown(next), part.text)
                &&& settle::in_width(part.text, e.config.width) == part.text ==> chosen_text(next)
                    == part.text
                &&& tells_entry(step)
            }
            &&& e.confirmed.len() == 0 ==> {
                &&& next == e
                &&& step.1.actions.len() == 0
            }
        }),
{
    let step = e.pressed(composition_laws::named_key(Keysym::LEFT));
    assert(step == e.returned());
    let piece = PieceView { text: chosen_text(e), reading: chosen_reading(e) };
    assert(e.selected_piece() == Some(piece));
    if e.confirmed.len() > 0 {
        let part = e.confirmed.last();
        let ready = EngineView {
            confirmed: e.confirmed.drop_last(),
            upcoming: e.upcoming.insert(0, piece),
            ..e
        };
        assert(step == ready.segment_entered(part.reading, Some(part.text)));
        assert(e.upcoming.insert(0, piece) =~= seq![piece] + e.upcoming);
        lemma_part_preferred(ready, part.reading, part.text);
        lemma_same_part(e, ready, part.reading);
        lemma_preferred_chosen(ready, part.reading, part.text);
    }
}

} // verus!
