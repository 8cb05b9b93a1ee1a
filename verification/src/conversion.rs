//! Conversion state handling: starting a conversion, moving between its parts,
//! and commit.

use vstd::prelude::*;
use vstd::string::StrSliceExecFns;

use crate::action;
use crate::action::{ActionView, EngineAction, EngineResult};
use crate::buffer;
use crate::candidate;
use crate::candidate::{
    any_has_text, AnnotatedCandidate, AnnotatedView, CandidateList, CandidateSource, ListView,
};
use crate::engine;
use crate::engine::{EngineView, InputMethodEngine, LiveView, Step};
use crate::preedit;
use crate::preedit::{Preedit, PreeditSegment, PreeditView, SegmentView};
use crate::state;
use crate::state::{ConvertedSegment, InputState, LearningLookup, PieceView, StateView};
use crate::text;
use crate::text::{append, copy_opt, same_text, skip_chars, take_chars};

verus! {

/// Converted parts as underlined segments.
pub open spec fn piece_segments(pieces: Seq<PieceView>) -> Seq<SegmentView> {
    Seq::new(pieces.len(), |i: int| preedit::underlined(pieces[i].text))
}

/// An optional text as an underlined segment.
pub open spec fn tail_segments(tail: Option<Seq<char>>) -> Seq<SegmentView> {
    match tail {
        Some(tail) => seq![preedit::underlined(tail)],
        None => Seq::empty(),
    }
}

/// Candidates with a preferred text at the head, unless it is among them.
pub open spec fn with_preferred(candidates: Seq<AnnotatedView>, preferred: Seq<char>) -> Seq<
    AnnotatedView,
> {
    if candidate::has_text(candidates, preferred) {
        candidates
    } else {
        candidates.insert(0, candidate::plain(preferred, CandidateSource::Model))
    }
}

impl EngineView {
    /// What is shown during a conversion: the parts before, the selected text
    /// highlighted, the parts after, and the tail; the caret after the selected
    /// text.
    pub open spec fn conversion_preedit(self, selected: Seq<char>) -> PreeditView {
        PreeditView {
            segments: piece_segments(self.confirmed).push(preedit::highlighted(selected))
                + piece_segments(self.upcoming) + tail_segments(self.tail),
            caret: (text::concat(state::piece_texts(self.confirmed)) + selected).len() as int,
        }
    }

    /// The engine converting `reading`, with `list` shown.
    pub open spec fn converting(
        self,
        reading: Seq<char>,
        list: ListView,
        filter: Option<CandidateSource>,
    ) -> EngineView {
        EngineView {
            state: StateView::Conversion {
                preedit: self.conversion_preedit(list.selected_text_or(reading)),
                candidates: list,
                reading,
                filter,
            },
            ..self
        }
    }

    /// A conversion of `reading` entered, with `list` shown.
    pub open spec fn entered_filtered(
        self,
        reading: Seq<char>,
        list: ListView,
        filter: Option<CandidateSource>,
    ) -> Step {
        (
            self.converting(reading, list, filter),
            action::taken(
                seq![
                    ActionView::UpdatePreedit(
                        self.conversion_preedit(list.selected_text_or(reading)),
                    ),
                    ActionView::ShowCandidates(list),
                    ActionView::UpdateAuxText(engine::conversion_aux(filter, reading, list)),
                ],
            ),
        )
    }

    /// A conversion of `reading` entered, without a filter.
    pub open spec fn entered(self, reading: Seq<char>, list: ListView) -> Step {
        self.entered_filtered(reading, list, None)
    }

    /// Whether a conversion covers only what stands before the caret.
    pub open spec fn splits_at_caret(self) -> bool {
        0 < self.settled_cursor() < self.settled_reading().len()
    }

    /// The reading that a new conversion covers.
    pub open spec fn covered_reading(self) -> Seq<char> {
        if self.splits_at_caret() {
            self.settled_reading().take(self.settled_cursor())
        } else {
            self.settled_reading()
        }
    }

    /// The engine with a new conversion laid out: what stands after the caret is
    /// the tail, and nothing is converted yet.
    pub open spec fn laid_out(self) -> EngineView {
        EngineView {
            tail: if self.splits_at_caret() {
                Some(self.settled_reading().skip(self.settled_cursor()))
            } else {
                None
            },
            confirmed: Seq::empty(),
            upcoming: Seq::empty(),
            live: LiveView { shown: false, ..self.live },
            ..self
        }
    }

    /// The candidates for the whole composition: its text is the reading for
    /// the dictionaries, narrowed by the waiting keys.
    pub open spec fn whole_candidates(
        self,
        reading: Seq<char>,
        learning: LearningLookup,
    ) -> Seq<AnnotatedView> {
        self.conversion_candidates(
            reading,
            self.buffer.text,
            self.pending,
            self.config.num_candidates as int,
            learning,
            false,
        )
    }

    /// The candidates of a new conversion, before the text shown so far is put
    /// among them.
    pub open spec fn starting_candidates(self, learning: LearningLookup) -> Seq<AnnotatedView> {
        let reading = self.covered_reading();
        if self.splits_at_caret() {
            if learning == LearningLookup::Use {
                self.laid_out().segment_candidates(reading)
            } else {
                self.laid_out().conversion_candidates(
                    reading,
                    reading,
                    Seq::empty(),
                    self.config.num_candidates as int,
                    learning,
                    false,
                )
            }
        } else {
            self.laid_out().whole_candidates(reading, learning)
        }
    }

    /// The candidates of a new conversion: the text that the live conversion
    /// showed heads them if it is not among them.
    pub open spec fn offered_candidates(self, learning: LearningLookup) -> Seq<AnnotatedView> {
        let shown = self.live_text_with_pending();
        if shown.len() == 0 || shown == self.covered_reading() {
            self.starting_candidates(learning)
        } else {
            with_preferred(self.starting_candidates(learning), shown)
        }
    }

    /// A conversion started. The composition stays as it is.
    pub open spec fn started(self, learning: LearningLookup, keep_display: bool) -> Step {
        let reading = self.covered_reading();
        let candidates = self.offered_candidates(learning);
        let ready = self.laid_out().asked(reading);
        let list = ready.conversion_list(candidates, reading);
        if reading.len() == 0 {
            (self.laid_out(), action::taken(Seq::empty()))
        } else if candidates.len() == 0 {
            (
                ready.composing(),
                action::taken(seq![ActionView::UpdatePreedit(ready.composing_preedit())]),
            )
        } else if keep_display {
            ready.entered(reading, list.select_text(self.live_text_with_pending()))
        } else {
            ready.entered(reading, list)
        }
    }

    /// All converted parts put into the learning history.
    pub open spec fn recorded_all(self, pieces: Seq<PieceView>) -> EngineView
        decreases pieces.len(),
    {
        if pieces.len() == 0 {
            self
        } else {
            self.recorded_all(pieces.drop_last()).recorded(
                pieces.last().reading,
                pieces.last().text,
            )
        }
    }

    /// A selection put into the learning history, if it has a reading.
    pub open spec fn recorded_selection(
        self,
        reading: Option<Seq<char>>,
        text: Seq<char>,
    ) -> EngineView {
        match reading {
            Some(reading) => self.recorded(reading, text),
            None => self,
        }
    }

    /// What a commit hands over: the parts before, the selected text, and the
    /// parts after.
    pub open spec fn whole_text(self, text: Seq<char>) -> Seq<char> {
        text::concat(state::piece_texts(self.confirmed)) + text + text::concat(
            state::piece_texts(self.upcoming),
        )
    }

    /// The converted parts learned and put away.
    pub open spec fn finalized(self) -> EngineView {
        EngineView {
            confirmed: Seq::empty(),
            upcoming: Seq::empty(),
            ..self.recorded_all(self.confirmed + self.upcoming)
        }
    }

    /// A conversion committed with nothing after it.
    pub open spec fn commit_all(self, text: Seq<char>, reading: Option<Seq<char>>) -> Step {
        self.recorded_selection(reading, text).finalized().committed(self.whole_text(text))
    }

    /// The engine composing what was not converted yet.
    pub open spec fn resumed(self, tail: Seq<char>) -> EngineView {
        EngineView {
            buffer: buffer::literal_buffer(tail),
            pending: Seq::empty(),
            live: LiveView { shown: false, ..self.live },
            tail: None,
            chunk_breaks: Seq::empty(),
            ..self
        }.composing()
    }

    /// A conversion committed, and what was not converted yet composed further.
    pub open spec fn commit_and_resume(
        self,
        text: Seq<char>,
        reading: Option<Seq<char>>,
        tail: Seq<char>,
    ) -> Step {
        let next = self.recorded_selection(reading, text).finalized().resumed(tail);
        (
            next,
            action::taken(
                seq![
                    ActionView::Commit(self.whole_text(text)),
                    ActionView::HideCandidates,
                    ActionView::UpdatePreedit(next.composing_preedit()),
                    ActionView::UpdateAuxText(engine::mode_label(self.mode)),
                ],
            ),
        )
    }

    /// The current conversion committed.
    pub open spec fn commit(self) -> Step {
        match self.state.selection() {
            None => (self, action::left_alone()),
            Some((text, reading)) => if text.len() == 0 && self.confirmed.len() == 0 {
                (self, action::taken(Seq::empty()))
            } else {
                match self.tail {
                    Some(tail) => self.commit_and_resume(text, reading, tail),
                    None => self.commit_all(text, reading),
                }
            },
        }
    }

    /// The current conversion cancelled: the composition is there again, as it
    /// was.
    pub open spec fn cancelled(self) -> Step {
        let back = EngineView {
            tail: None,
            confirmed: Seq::empty(),
            upcoming: Seq::empty(),
            ..self
        };
        if !(self.state is Conversion) {
            (self, action::left_alone())
        } else if self.is_blank() {
            (
                EngineView { state: StateView::Empty, ..self },
                action::taken(EngineView::cleared_actions()),
            )
        } else {
            (
                back.composing(),
                action::taken(
                    seq![
                        ActionView::UpdatePreedit(back.composing_preedit()),
                        ActionView::HideCandidates,
                        ActionView::UpdateAuxText(engine::mode_label(self.mode)),
                    ],
                ),
            )
        }
    }
}

/// Add converted parts to a preedit as underlined segments.
fn push_pieces(segments: &mut Vec<PreeditSegment>, pieces: &Vec<ConvertedSegment>)
    ensures
        text::views(final(segments)@) == text::views(old(segments)@) + piece_segments(
            text::views(pieces@),
        ),
{
    let ghost start = text::views(segments@);
    let ghost all = piece_segments(text::views(pieces@));
    assert(start + all.take(0) =~= start);
    for i in 0..pieces.len()
        invariant
            all == piece_segments(text::views(pieces@)),
            text::views(segments@) == start + all.take(i as int),
    {
        let ghost before = text::views(segments@);
        segments.push(PreeditSegment::underlined(pieces[i].text.as_str()));
        assert(text::views(segments@) =~= before.push(all[i as int]));
        assert(text::views(segments@) =~= start + all.take(i + 1));
    }
    assert(all.take(all.len() as int) =~= all);
}

/// The texts of converted parts, joined.
fn joined_texts(pieces: &Vec<ConvertedSegment>) -> (joined: String)
    ensures
        joined@ == text::concat(state::piece_texts(text::views(pieces@))),
{
    let mut joined = String::new();
    let ghost all = state::piece_texts(text::views(pieces@));
    assert(all.take(0) =~= Seq::<Seq<char>>::empty());
    for i in 0..pieces.len()
        invariant
            all == state::piece_texts(text::views(pieces@)),
            joined@ == text::concat(all.take(i as int)),
    {
        append(&mut joined, pieces[i].text.as_str());
        assert(all.take(i + 1).drop_last() =~= all.take(i as int));
    }
    assert(all.take(all.len() as int) =~= all);
    joined
}

/// Put a preferred text at the head of candidates, unless it is among them.
pub(crate) fn prefer(candidates: &mut Vec<AnnotatedCandidate>, preferred: &str)
    ensures
        text::views(final(candidates)@) == with_preferred(
            text::views(old(candidates)@),
            preferred@,
        ),
{
    if !any_has_text(candidates, preferred) {
        let ghost before = text::views(candidates@);
        let one = AnnotatedCandidate::new(preferred.to_owned(), CandidateSource::Model);
        candidates.insert(0, one);
        assert(text::views(candidates@) =~= before.insert(0, one@));
    }
}

impl InputMethodEngine {
    /// Start kanji conversion for the current buffer (Space/Down/Tab).
    pub fn start_conversion(&mut self, learning: LearningLookup) -> (result: EngineResult)
        requires
            old(self)@.wf(),
        ensures
            (final(self)@, result@) == old(self)@.started(learning, false),
            final(self)@.wf(),
    {
        self.start_conversion_impl(learning, false)
    }

    /// Enter segment selection without replacing the live text the user sees.
    pub fn start_conversion_keep_display(&mut self) -> (result: EngineResult)
        requires
            old(self)@.wf(),
        ensures
            (final(self)@, result@) == old(self)@.started(LearningLookup::Use, true),
            final(self)@.wf(),
    {
        self.start_conversion_impl(LearningLookup::Use, true)
    }

    fn start_conversion_impl(&mut self, learning: LearningLookup, keep_display: bool) -> (result:
        EngineResult)
        requires
            old(self)@.wf(),
        ensures
            (final(self)@, result@) == old(self)@.started(learning, keep_display),
            final(self)@.wf(),
    {
        let ghost e = self@;
        // Resolve the reading without touching the composition, so Esc
        // returns to an editable buffer with the romaji tail still live.
        let full_reading = self.settled_reading();
        let cursor = self.settled_cursor();
        let total_len = full_reading.as_str().unicode_len();
        let split = cursor > 0 && cursor < total_len;
        let (reading, tail, base, pending) = if split {
            let reading = take_chars(full_reading.as_str(), cursor);
            (
                reading.clone(),
                Some(skip_chars(full_reading.as_str(), cursor)),
                reading,
                String::new(),
            )
        } else {
            (full_reading, None, self.input_buf.reading(), self.romaji.buffer())
        };
        assert(split == e.splits_at_caret());
        assert(reading@ == e.covered_reading());
        // Snapshot the live-conversion text before clearing it, so the
        // displayed candidate survives even if re-inference diverges.
        let shown = self.live_text_with_pending();
        self.conversion_tail = tail;
        self.confirmed_segments.clear();
        self.upcoming_segments.clear();
        self.live.shown = false;
        assert(self@ =~= e.laid_out());
        if reading.as_str().is_empty() {
            return EngineResult::consumed();
        }
        let num_candidates = self.config.num_candidates;
        let mut candidates = if learning == LearningLookup::Use && split {
            self.build_segment_conversion_candidates(reading.as_str())
        } else {
            self.build_conversion_candidates(
                reading.as_str(),
                base.as_str(),
                pending.as_str(),
                num_candidates,
                learning,
            )
        };
        proof {
            if split {
                assert(pending@ =~= Seq::<char>::empty());
            }
            assert(text::views(candidates@) == e.starting_candidates(learning));
        }
        if !shown.as_str().is_empty() && !same_text(shown.as_str(), reading.as_str()) {
            prefer(&mut candidates, shown.as_str());
        }
        assert(text::views(candidates@) == e.offered_candidates(learning));
        if candidates.len() == 0 {
            // No candidates: stay composing, untouched (emoji queries with
            // no match land here)
            let preedit = self.set_composing_state();
            let result = EngineResult::consumed().with_action(
                EngineAction::UpdatePreedit(preedit),
            );
            assert(result@ =~= e.started(learning, keep_display).1);
            return result;
        }
        let mut list = self.to_conversion_candidate_list(candidates, reading.as_str());
        if keep_display {
            proof {
                candidate::law_navigation_stays_in_list(list@, 0, shown@);
            }
            list.select_text(shown.as_str());
        }
        self.enter_conversion_state(reading.as_str(), list)
    }

    /// Transition to Conversion state with the given reading and candidate list.
    ///
    /// Sets up the preedit (highlighted selected text), updates the state, and
    /// returns an EngineResult with preedit, candidates, and aux text actions.
    pub fn enter_conversion_state(&mut self, reading: &str, candidates: CandidateList) -> (result:
        EngineResult)
        requires
            old(self)@.ready(),
            candidates@.wf(),
        ensures
            (final(self)@, result@) == old(self)@.entered(reading@, candidates@),
            final(self)@.wf(),
    {
        // A fresh conversion always starts unfiltered
        self.enter_filtered_state(reading, candidates, None)
    }

    /// Transition to Conversion state with a list narrowed to one source.
    pub fn enter_filtered_state(
        &mut self,
        reading: &str,
        candidates: CandidateList,
        filter: Option<CandidateSource>,
    ) -> (result: EngineResult)
        requires
            old(self)@.ready(),
            candidates@.wf(),
        ensures
            (final(self)@, result@) == old(self)@.entered_filtered(
                reading@,
                candidates@,
                filter,
            ),
            final(self)@.wf(),
    {
        let selected_text = candidates.selected_text_or(reading);
        let preedit = self.build_conversion_preedit(selected_text.as_str());
        self.state = InputState::Conversion {
            preedit: preedit.clone(),
            candidates: candidates.clone(),
            reading: reading.to_owned(),
            filter,
        };
        // After the state assignment: the aux header reads the active filter.
        let aux = self.format_aux_conversion_with_page(reading, &candidates);
        let result = EngineResult::consumed().with_action(
            EngineAction::UpdatePreedit(preedit),
        ).with_action(EngineAction::ShowCandidates(candidates)).with_action(
            EngineAction::UpdateAuxText(aux),
        );
        assert(result@ =~= old(self)@.entered_filtered(reading@, candidates@, filter).1);
        result
    }

    pub(crate) fn build_conversion_preedit(&self, selected_text: &str) -> (shown: Preedit)
        ensures
            shown@ == self@.conversion_preedit(selected_text@),
    {
        let mut segments: Vec<PreeditSegment> = Vec::new();
        push_pieces(&mut segments, &self.confirmed_segments);
        let ghost before = text::views(segments@);
        segments.push(PreeditSegment::highlighted(selected_text));
        assert(text::views(segments@) =~= before.push(preedit::highlighted(selected_text@)));
        push_pieces(&mut segments, &self.upcoming_segments);
        let ghost parts = text::views(segments@);
        if let Some(tail) = &self.conversion_tail {
            segments.push(PreeditSegment::underlined(tail.as_str()));
        }
        assert(text::views(segments@) =~= parts + tail_segments(self@.tail));
        let mut to_caret = joined_texts(&self.confirmed_segments);
        append(&mut to_caret, selected_text);
        let shown = Preedit::from_segments(segments, to_caret.as_str().unicode_len());
        assert(shown@ =~= self@.conversion_preedit(selected_text@));
        shown
    }

    /// Get selected text and reading from conversion state, or None if not in
    /// conversion
    pub fn selected_conversion_info(&self) -> (selection: Option<(String, Option<String>)>)
        ensures
            match selection {
                Some((text, reading)) => self@.state.selection() == Some(
                    (text@, text::opt_view(reading)),
                ),
                None => self@.state.selection() is None,
            },
    {
        self.state.selection()
    }

    /// Put converted parts into the learning history.
    fn record_pieces(&mut self, pieces: &Vec<ConvertedSegment>)
        ensures
            final(self)@ == old(self)@.recorded_all(text::views(pieces@)),
    {
        let ghost e = self@;
        let ghost all = text::views(pieces@);
        assert(all.take(0) =~= Seq::<PieceView>::empty());
        for i in 0..pieces.len()
            invariant
                all == text::views(pieces@),
                self@ == e.recorded_all(all.take(i as int)),
        {
            self.record_learning(pieces[i].reading.as_str(), pieces[i].text.as_str());
            assert(all.take(i + 1).drop_last() =~= all.take(i as int));
        }
        assert(all.take(all.len() as int) =~= all);
    }

    /// Record the converted parts in the learning cache and put them away; give
    /// the whole text with `text` between them.
    pub fn finalize_segments(&mut self, text: &str) -> (committed: String)
        ensures
            final(self)@ == old(self)@.finalized(),
            committed@ == old(self)@.whole_text(text@),
    {
        let ghost e = self@;
        let mut committed = joined_texts(&self.confirmed_segments);
        append(&mut committed, text);
        append(&mut committed, joined_texts(&self.upcoming_segments).as_str());
        let mut pieces = copy_pieces(&self.confirmed_segments);
        let mut upcoming = copy_pieces(&self.upcoming_segments);
        let ghost (first, second) = (text::views(pieces@), text::views(upcoming@));
        pieces.append(&mut upcoming);
        assert(text::views(pieces@) =~= first + second);
        self.record_pieces(&pieces);
        self.confirmed_segments.clear();
        self.upcoming_segments.clear();
        assert(self@ =~= e.finalized());
        committed
    }

    /// Record the selection and the converted parts in the learning cache, and
    /// give the whole text.
    fn conclude(&mut self, text: &str, reading: &Option<String>) -> (committed: String)
        ensures
            final(self)@ == old(self)@.recorded_selection(
                text::opt_view(*reading),
                text@,
            ).finalized(),
            committed@ == old(self)@.whole_text(text@),
    {
        if let Some(reading) = reading {
            self.record_learning(reading.as_str(), text);
        }
        self.finalize_segments(text)
    }

    /// Record the committed conversion in the learning cache and end the
    /// composition.
    pub fn finish_conversion(&mut self, text: &str, reading: &Option<String>) -> (committed: String)
        ensures
            final(self)@ == old(self)@.recorded_selection(
                text::opt_view(*reading),
                text@,
            ).finalized().ended(),
            committed@ == old(self)@.whole_text(text@),
            final(self)@.wf(),
    {
        let committed = self.conclude(text, reading);
        self.end_composition();
        committed
    }

    /// Commit the current conversion
    pub fn commit_conversion(&mut self) -> (result: EngineResult)
        requires
            old(self)@.wf(),
        ensures
            (final(self)@, result@) == old(self)@.commit(),
            final(self)@.wf(),
    {
        let (text, reading) = match self.selected_conversion_info() {
            Some(selection) => selection,
            None => {
                return EngineResult::not_consumed();
            },
        };
        if text.as_str().is_empty() && self.confirmed_segments.len() == 0 {
            return EngineResult::consumed();
        }
        if self.conversion_tail.is_some() {
            return self.commit_and_resume_tail(text.as_str(), &reading);
        }
        let committed = self.finish_conversion(text.as_str(), &reading);
        let result = EngineResult::consumed().with_action(EngineAction::HideCandidates).with_action(
            EngineAction::HideAuxText,
        ).with_action(EngineAction::Commit(committed));
        assert(result@ =~= old(self)@.commit().1);
        result
    }

    pub fn commit_and_resume_tail(&mut self, text: &str, reading: &Option<String>) -> (result:
        EngineResult)
        requires
            old(self)@.tail is Some,
        ensures
            (final(self)@, result@) == old(self)@.commit_and_resume(
                text@,
                text::opt_view(*reading),
                old(self)@.tail->0,
            ),
            final(self)@.wf(),
    {
        let ghost e = self@;
        let tail = match copy_opt(&self.conversion_tail) {
            Some(tail) => tail,
            None => String::new(),
        };
        let committed = self.conclude(text, reading);
        let ghost concluded = self@;
        self.input_buf.set_direct(tail.as_str());
        self.romaji.reset();
        self.live.shown = false;
        self.conversion_tail = None;
        self.chunk_breaks.clear();
        let preedit = self.set_composing_state();
        assert(self@ =~= concluded.resumed(tail@));
        proof {
            lemma_recording_keeps(e, text::opt_view(*reading), text@);
        }
        let result = EngineResult::consumed().with_action(
            EngineAction::Commit(committed),
        ).with_action(EngineAction::HideCandidates).with_action(
            EngineAction::UpdatePreedit(preedit),
        ).with_action(EngineAction::UpdateAuxText(self.format_aux_composing()));
        assert(result@ =~= e.commit_and_resume(text@, text::opt_view(*reading), tail@).1);
        result
    }

    /// Cancel the current conversion
    pub fn cancel_conversion(&mut self) -> (result: EngineResult)
        requires
            old(self)@.wf(),
        ensures
            (final(self)@, result@) == old(self)@.cancelled(),
            final(self)@.wf(),
    {
        let converting = match self.state {
            InputState::Conversion { .. } => true,
            _ => false,
        };
        if !converting {
            return EngineResult::not_consumed();
        }
        if self.is_blank() {
            self.state = InputState::Empty;
            let result = EngineResult::consumed().with_action(
                EngineAction::UpdatePreedit(Preedit::new()),
            ).with_action(EngineAction::HideCandidates).with_action(EngineAction::HideAuxText);
            assert(result@ =~= old(self)@.cancelled().1);
            return result;
        }
        self.conversion_tail = None;
        self.confirmed_segments.clear();
        self.upcoming_segments.clear();
        let ghost back = self@;
        assert(back =~= EngineView {
            tail: None,
            confirmed: Seq::empty(),
            upcoming: Seq::empty(),
            ..old(self)@
        });
        // The composition was left untouched when the conversion started:
        // just come back to it, pending romaji still live
        let preedit = self.set_composing_state();
        let result = EngineResult::consumed().with_action(
            EngineAction::UpdatePreedit(preedit),
        ).with_action(EngineAction::HideCandidates).with_action(
            EngineAction::UpdateAuxText(self.format_aux_composing()),
        );
        assert(result@ =~= old(self)@.cancelled().1);
        result
    }
}

/// Converted parts copied.
fn copy_pieces(pieces: &Vec<ConvertedSegment>) -> (copy: Vec<ConvertedSegment>)
    ensures
        text::views(copy@) == text::views(pieces@),
{
    let mut copy: Vec<ConvertedSegment> = Vec::new();
    for i in 0..pieces.len()
        invariant
            copy@.len() == i,
            forall|j: int| 0 <= j < i ==> (#[trigger] copy@[j])@ == pieces@[j]@,
    {
        copy.push(pieces[i].clone());
    }
    assert(text::views(copy@) =~= text::views(pieces@));
    copy
}

/// Recording changes nothing but the learning history.
pub proof fn lemma_recorded_all_keeps(e: EngineView, pieces: Seq<PieceView>)
    ensures
        e.recorded_all(pieces) == (EngineView {
            learning: e.recorded_all(pieces).learning,
            ..e
        }),
    decreases pieces.len(),
{
    if pieces.len() > 0 {
        lemma_recorded_all_keeps(e, pieces.drop_last());
    }
}

/// Recording a commit changes nothing but the learning history and the
/// converted parts.
pub proof fn lemma_recording_keeps(e: EngineView, reading: Option<Seq<char>>, text: Seq<char>)
    ensures
        e.recorded_selection(reading, text).finalized() == (EngineView {
            learning: e.recorded_selection(reading, text).finalized().learning,
            confirmed: Seq::empty(),
            upcoming: Seq::empty(),
            ..e
        }),
{
    let first = e.recorded_selection(reading, text);
    lemma_recorded_all_keeps(first, first.confirmed + first.upcoming);
}

} // verus!
