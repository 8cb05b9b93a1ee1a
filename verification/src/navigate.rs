//! The selection in the candidate list.

use vstd::prelude::*;

use crate::action;
use crate::action::{ActionView, EngineAction, EngineResult};
use crate::candidate;
use crate::candidate::{CandidateList, ListView, DEFAULT_PAGE_SIZE};
use crate::engine;
use crate::engine::{EngineView, InputMethodEngine, Metrics, Step};
use crate::state::{InputState, StateView};

verus! {

/// A move of the selection in the candidate list.
#[derive(Clone, Copy, PartialEq, Eq, Structural, Debug)]
pub enum Navigation {
    Next,
    Prev,
    NextPage,
    PrevPage,
    Cursor(usize),
}

impl ListView {
    /// The list after a move of the selection.
    pub open spec fn navigated(self, navigation: Navigation) -> ListView {
        match navigation {
            Navigation::Next => self.next(),
            Navigation::Prev => self.prev(),
            Navigation::NextPage => self.next_page(),
            Navigation::PrevPage => self.prev_page(),
            Navigation::Cursor(cursor) => self.clamp(cursor as int),
        }
    }
}

impl EngineView {
    /// The engine with another candidate list shown in the same conversion.
    pub open spec fn showing(self, list: ListView) -> EngineView {
        match self.state {
            StateView::Conversion { reading, filter, .. } => EngineView {
                state: StateView::Conversion {
                    preedit: self.conversion_preedit(list.selected_text_or(Seq::empty())),
                    candidates: list,
                    reading,
                    filter,
                },
                ..self
            },
            _ => self,
        }
    }

    /// The selection moved. Nothing moves in an empty list.
    pub open spec fn navigated(self, navigation: Navigation) -> Step {
        match self.state {
            StateView::Conversion { candidates, filter, .. } => {
                let list = candidates.navigated(navigation);
                let reading = match list.selected_reading() {
                    Some(reading) => reading,
                    None => Seq::empty(),
                };
                if candidates.candidates.len() == 0 {
                    (self, action::taken(Seq::empty()))
                } else {
                    (
                        self.showing(list),
                        action::taken(
                            seq![
                                ActionView::UpdatePreedit(
                                    self.conversion_preedit(list.selected_text_or(Seq::empty())),
                                ),
                                ActionView::ShowCandidates(list),
                                ActionView::UpdateAuxText(
                                    engine::conversion_aux(filter, reading, list),
                                ),
                            ],
                        ),
                    )
                }
            },
            _ => (self, action::left_alone()),
        }
    }

    /// The `digit`th candidate of the page selected and committed.
    pub open spec fn select_shown(self, digit: int) -> Step {
        match self.state {
            StateView::Conversion { preedit, candidates, reading, filter } => {
                let index = candidates.page_start() + digit - 1;
                if 1 <= digit <= DEFAULT_PAGE_SIZE && index < candidates.candidates.len() {
                    EngineView {
                        state: StateView::Conversion {
                            preedit,
                            candidates: candidates.select(index),
                            reading,
                            filter,
                        },
                        ..self
                    }.commit()
                } else {
                    (self, action::taken(Seq::empty()))
                }
            },
            _ => (self, action::left_alone()),
        }
    }
}

impl EngineView {
    /// The candidate at `page_index` of the page, counted from 0, selected and
    /// committed, which took `process_key_ms` milliseconds and no conversion.
    pub open spec fn selected_on_page(self, page_index: int, process_key_ms: u64) -> Step {
        let untimed = EngineView {
            metrics: Metrics { conversion_ms: 0, ..self.metrics },
            ..self
        };
        let step = untimed.select_shown(page_index + 1);
        (
            EngineView { metrics: Metrics { conversion_ms: 0, process_key_ms }, ..step.0 },
            step.1,
        )
    }
}

/// A point in time, as the system clock measures it.
#[verifier::external_type_specification]
#[verifier::external_body]
pub struct ExInstant(std::time::Instant);

/// `Instant::now` gives the current time; nothing is claimed of it.
#[verifier::external_body]
fn now() -> (instant: std::time::Instant) {
    std::time::Instant::now()
}

/// `Instant::elapsed` gives the time since an earlier point; nothing is claimed
/// of it.
#[verifier::external_body]
fn elapsed_since(start: &std::time::Instant) -> (elapsed: core::time::Duration) {
    start.elapsed()
}

/// `Duration::as_millis` gives the whole milliseconds of a duration; nothing is
/// claimed of them, for nothing is known of the duration.
#[verifier::external_body]
fn whole_millis(elapsed: core::time::Duration) -> (millis: u128) {
    elapsed.as_millis()
}

impl InputMethodEngine {
    /// Move the selection, then update preedit
    pub fn navigate_candidate(&mut self, navigation: Navigation) -> (result: EngineResult)
        requires
            old(self)@.wf(),
        ensures
            (final(self)@, result@) == old(self)@.navigated(navigation),
            final(self)@.wf(),
    {
        let mut list = match self.state.candidates() {
            Some(list) => list.clone(),
            None => {
                return EngineResult::not_consumed();
            },
        };
        // Nothing to navigate in an empty (source-filtered) view; keep
        // the reading preedit instead of blanking it.
        if list.is_empty() {
            return EngineResult::consumed();
        }
        proof {
            candidate::law_navigation_stays_in_list(
                list@,
                match navigation {
                    Navigation::Cursor(cursor) => cursor as int,
                    _ => 0,
                },
                Seq::empty(),
            );
        }
        match navigation {
            Navigation::Next => {
                list.move_next();
            },
            Navigation::Prev => {
                list.move_prev();
            },
            Navigation::NextPage => {
                list.next_page();
            },
            Navigation::PrevPage => {
                list.prev_page();
            },
            Navigation::Cursor(cursor) => {
                list.set_cursor(cursor);
            },
        }
        self.update_conversion_preedit(list)
    }

    /// Select next candidate
    pub fn next_candidate(&mut self) -> (result: EngineResult)
        requires
            old(self)@.wf(),
        ensures
            (final(self)@, result@) == old(self)@.navigated(Navigation::Next),
            final(self)@.wf(),
    {
        self.navigate_candidate(Navigation::Next)
    }

    /// Select previous candidate
    pub fn prev_candidate(&mut self) -> (result: EngineResult)
        requires
            old(self)@.wf(),
        ensures
            (final(self)@, result@) == old(self)@.navigated(Navigation::Prev),
            final(self)@.wf(),
    {
        self.navigate_candidate(Navigation::Prev)
    }

    /// Go to next candidate page
    pub fn next_candidate_page(&mut self) -> (result: EngineResult)
        requires
            old(self)@.wf(),
        ensures
            (final(self)@, result@) == old(self)@.navigated(Navigation::NextPage),
            final(self)@.wf(),
    {
        self.navigate_candidate(Navigation::NextPage)
    }

    /// Go to previous candidate page
    pub fn prev_candidate_page(&mut self) -> (result: EngineResult)
        requires
            old(self)@.wf(),
        ensures
            (final(self)@, result@) == old(self)@.navigated(Navigation::PrevPage),
            final(self)@.wf(),
    {
        self.navigate_candidate(Navigation::PrevPage)
    }

    /// Update preedit after candidate selection change
    fn update_conversion_preedit(&mut self, list: CandidateList) -> (result: EngineResult)
        requires
            old(self)@.wf(),
            old(self)@.state is Conversion,
            list@.wf(),
        ensures
            final(self)@ == old(self)@.showing(list@),
            final(self)@.wf(),
            result@ == action::taken(
                seq![
                    ActionView::UpdatePreedit(
                        old(self)@.conversion_preedit(list@.selected_text_or(Seq::empty())),
                    ),
                    ActionView::ShowCandidates(list@),
                    ActionView::UpdateAuxText(
                        engine::conversion_aux(
                            old(self)@.state.filter(),
                            match list@.selected_reading() {
                                Some(reading) => reading,
                                None => Seq::empty(),
                            },
                            list@,
                        ),
                    ),
                ],
            ),
    {
        proof {
            reveal_strlit("");
            assert(""@ =~= Seq::<char>::empty());
        }
        let selected_text = list.selected_text_or("");
        let preedit = self.build_conversion_preedit(selected_text.as_str());
        let reading = match self.state.reading() {
            Some(reading) => reading,
            None => String::new(),
        };
        let filter = self.state.filter();
        self.state = InputState::Conversion {
            preedit: preedit.clone(),
            candidates: list.clone(),
            reading,
            filter,
        };
        let own = match list.selected_reading() {
            Some(own) => own,
            None => String::new(),
        };
        let aux = self.format_aux_conversion_with_page(own.as_str(), &list);
        let result = EngineResult::consumed().with_action(
            EngineAction::UpdatePreedit(preedit),
        ).with_action(EngineAction::ShowCandidates(list)).with_action(
            EngineAction::UpdateAuxText(aux),
        );
        assert(result@.actions =~= seq![
            ActionView::UpdatePreedit(
                old(self)@.conversion_preedit(list@.selected_text_or(Seq::empty())),
            ),
            ActionView::ShowCandidates(list@),
            ActionView::UpdateAuxText(
                engine::conversion_aux(
                    old(self)@.state.filter(),
                    match list@.selected_reading() {
                        Some(reading) => reading,
                        None => Seq::empty(),
                    },
                    list@,
                ),
            ),
        ]);
        result
    }

    /// Select and commit the `digit`th candidate of the current page.
    pub fn select_shown_candidate(&mut self, digit: usize) -> (result: EngineResult)
        requires
            old(self)@.wf(),
        ensures
            (final(self)@, result@) == old(self)@.select_shown(digit as int),
            final(self)@.wf(),
    {
        let mut list = match self.state.candidates() {
            Some(list) => list.clone(),
            None => {
                return EngineResult::not_consumed();
            },
        };
        let start = list.cursor - list.cursor % DEFAULT_PAGE_SIZE;
        let shown = list.candidates.len() - start;
        if digit < 1 || digit > DEFAULT_PAGE_SIZE || digit > shown {
            return EngineResult::consumed();
        }
        list.select(start + digit - 1);
        let selected = match &self.state {
            InputState::Conversion { preedit, reading, filter, .. } => InputState::Conversion {
                preedit: preedit.clone(),
                candidates: list,
                reading: reading.clone(),
                filter: *filter,
            },
            _ => InputState::Empty,
        };
        self.state = selected;
        self.commit_conversion()
    }

    /// Select and commit the candidate at `page_index` (0-based) within the
    /// current page, like pressing the digit key `page_index + 1`. Not
    /// consumed unless a candidate list is active (Conversion state).
    pub fn select_candidate_on_page(&mut self, page_index: usize) -> (result: EngineResult)
        requires
            old(self)@.wf(),
            page_index < usize::MAX,
        ensures
            (final(self)@, result@) == old(self)@.selected_on_page(
                page_index as int,
                final(self)@.metrics.process_key_ms,
            ),
            final(self)@.wf(),
    {
        let start = now();
        self.metrics.conversion_ms = 0;
        let ghost untimed = self@;
        let result = self.select_shown_candidate(page_index + 1);
        proof {
            lemma_select_keeps_metrics(untimed, page_index + 1);
        }
        let millis: u128 = whole_millis(elapsed_since(&start));
        self.metrics.process_key_ms = #[verifier::truncate]
        (millis as u64);
        result
    }
}

/// Selecting and committing a candidate takes no measurements.
proof fn lemma_select_keeps_metrics(e: EngineView, digit: int)
    ensures
        e.select_shown(digit).0.metrics == e.metrics,
{
    match e.state {
        StateView::Conversion { preedit, candidates, reading, filter } => {
            let selected = EngineView {
                state: StateView::Conversion {
                    preedit,
                    candidates: candidates.select(candidates.page_start() + digit - 1),
                    reading,
                    filter,
                },
                ..e
            };
            match selected.state.selection() {
                Some((text, reading)) => {
                    crate::conversion::lemma_recording_keeps(selected, reading, text);
                },
                None => {},
            }
        },
        _ => {},
    }
}

} // verus!
