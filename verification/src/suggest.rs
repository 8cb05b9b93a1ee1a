//! Suggestions while composing, and the composing display.

use vstd::prelude::*;

use crate::action;
use crate::action::{ActionView, EngineAction, EngineResult};
use crate::candidate;
use crate::candidate::{Candidate, CandidateSource, CandidateView, DEFAULT_PAGE_SIZE};
use crate::engine;
use crate::engine::{EngineView, InputMethodEngine, LiveConversion, LiveView, Step};
use crate::lookup;
use crate::state::InputState;
use crate::text;
use crate::text::same_text;

verus! {

/// Whether one of the candidates has a given text.
pub open spec fn shows_text(candidates: Seq<CandidateView>, text: Seq<char>) -> bool {
    exists|i: int| 0 <= i < candidates.len() && (#[trigger] candidates[i]).text == text
}

/// The first candidate of each text, in order.
pub open spec fn first_of_each(candidates: Seq<CandidateView>) -> Seq<CandidateView>
    decreases candidates.len(),
{
    if candidates.len() == 0 {
        Seq::empty()
    } else {
        let kept = first_of_each(candidates.drop_last());
        if shows_text(kept, candidates.last().text) {
            kept
        } else {
            kept.push(candidates.last())
        }
    }
}

impl EngineView {
    /// All that the learning history, the dictionaries and the rewriters offer
    /// for the text under composition.
    pub open spec fn offers(self) -> Seq<CandidateView> {
        lookup::learned(
            self.learning,
            self.buffer.text,
            Seq::empty(),
            lookup::MAX_LEARNING_CANDIDATES as int,
        ) + candidate::window_candidates(
            self.dictionary_candidates(
                self.buffer.text,
                self.pending,
                DEFAULT_PAGE_SIZE as int,
                lookup::MAX_PREDICTIVE_SUGGESTIONS as int,
                lookup::MIN_PREDICTIVE_PREFIX_CHARS as int,
                None,
            ),
            self.buffer.text,
        ) + candidate::window_candidates(
            lookup::all_rewritten(
                self.rewriter_variants(self.buffer.text),
                CandidateSource::Rewriter,
            ),
            self.buffer.text,
        )
    }

    /// The suggestions for the text under composition, each text once; none
    /// while they are suppressed.
    pub open spec fn suggestions(self) -> Seq<CandidateView> {
        if self.suppress_suggest || self.buffer.text.len() == 0 {
            Seq::empty()
        } else {
            first_of_each(self.offers())
        }
    }

    /// The engine composing again after an edit. The live conversion no longer
    /// fits, and suggestions are shown if there are any.
    pub open spec fn refreshed(self) -> Step {
        let plain = EngineView { live: LiveView { shown: false, ..self.live }, ..self };
        (
            plain.composing(),
            action::taken(
                seq![
                    ActionView::UpdatePreedit(plain.composing_preedit()),
                    if self.suggestions().len() > 0 {
                        ActionView::ShowCandidates(self.list_of(self.suggestions()))
                    } else {
                        ActionView::HideCandidates
                    },
                    ActionView::UpdateAuxText(engine::mode_label(self.mode)),
                ],
            ),
        )
    }

    /// The engine with a live conversion shown in place of the kana.
    pub open spec fn live_shown(self, text: Seq<char>) -> Step {
        if self.state is Composing {
            let live = EngineView { live: LiveView { text, shown: true }, ..self };
            (
                live.composing(),
                action::taken(seq![ActionView::UpdatePreedit(live.composing_preedit())]),
            )
        } else {
            (self, action::left_alone())
        }
    }
}

/// The first candidate of each text, in order.
fn keep_first(candidates: Vec<Candidate>) -> (kept: Vec<Candidate>)
    ensures
        text::views(kept@) == first_of_each(text::views(candidates@)),
{
    let ghost all = text::views(candidates@);
    let mut kept: Vec<Candidate> = Vec::new();
    assert(all.take(0) =~= Seq::<CandidateView>::empty());
    assert(text::views(kept@) =~= Seq::<CandidateView>::empty());
    for one in it: candidates
        invariant
            it.seq() == candidates@,
            all == text::views(candidates@),
            text::views(kept@) == first_of_each(all.take(it.index())),
    {
        let ghost before = text::views(kept@);
        assert(all.take(it.index() + 1).drop_last() =~= all.take(it.index()));
        let mut seen = false;
        for i in 0..kept.len()
            invariant
                before == text::views(kept@),
                seen == exists|j: int| 0 <= j < i && (#[trigger] before[j]).text == one@.text,
        {
            if same_text(kept[i].text.as_str(), one.text.as_str()) {
                assert(before[i as int].text == one@.text);
                seen = true;
            }
        }
        if !seen {
            kept.push(one);
            assert(text::views(kept@) =~= before.push(one@));
        }
    }
    assert(all.take(all.len() as int) =~= all);
    kept
}

impl InputMethodEngine {
    /// The suggestions for the text under composition, each text once.
    fn suggestions(&self) -> (found: Vec<Candidate>)
        requires
            self@.ready(),
        ensures
            text::views(found@) == self@.suggestions(),
    {
        if self.suppress_suggest || self.input_buf.is_empty() {
            let none: Vec<Candidate> = Vec::new();
            assert(text::views(none@) =~= Seq::<CandidateView>::empty());
            return none;
        }
        let reading = self.input_buf.reading();
        let mut offers = self.lookup_learning_candidates(reading.as_str());
        let mut words = self.lookup_dict_candidates(reading.as_str());
        let mut variants = self.lookup_rewriter_variants(reading.as_str());
        let ghost parts = (text::views(offers@), text::views(words@), text::views(variants@));
        offers.append(&mut words);
        offers.append(&mut variants);
        assert(text::views(offers@) =~= parts.0 + parts.1 + parts.2);
        keep_first(offers)
    }

    /// Show the composition again after an edit.
    pub fn refresh_input_state(&mut self) -> (result: EngineResult)
        requires
            old(self)@.ready(),
        ensures
            (final(self)@, result@) == old(self)@.refreshed(),
            final(self)@.wf(),
    {
        let found = self.suggestions();
        self.live.shown = false;
        let shown = self.set_composing_state();
        let offer = if found.len() > 0 {
            EngineAction::ShowCandidates(self.settle_candidates(found))
        } else {
            EngineAction::HideCandidates
        };
        let result = EngineResult::consumed().with_action(
            EngineAction::UpdatePreedit(shown),
        ).with_action(offer).with_action(EngineAction::UpdateAuxText(self.format_aux_composing()));
        assert(result@ =~= old(self)@.refreshed().1);
        result
    }

    /// Show a live conversion of the composition in place of its kana. Not
    /// consumed unless text is being composed.
    pub fn show_live_text(&mut self, text: String) -> (result: EngineResult)
        requires
            old(self)@.wf(),
        ensures
            (final(self)@, result@) == old(self)@.live_shown(text@),
            final(self)@.wf(),
    {
        let composing = match self.state {
            InputState::Composing { .. } => true,
            _ => false,
        };
        if !composing {
            return EngineResult::not_consumed();
        }
        self.live = LiveConversion { text, shown: true };
        let shown = self.set_composing_state();
        let result = EngineResult::consumed().with_action(EngineAction::UpdatePreedit(shown));
        assert(result@ =~= old(self)@.live_shown(text@).1);
        result
    }
}

} // verus!
