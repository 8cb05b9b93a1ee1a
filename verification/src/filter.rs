//! Views of the candidates narrowed to one source, and removal from the
//! learning history.

use vstd::prelude::*;

use crate::action;
use crate::action::EngineResult;
use crate::candidate;
use crate::candidate::{into_candidates, Candidate, CandidateSource, CandidateView};
use crate::engine::{EngineView, InputMethodEngine, Step};
use crate::key::Keysym;
use crate::lexicon;
use crate::lookup;
use crate::lookup::{plain_candidates, MIN_PREDICTIVE_PREFIX_CHARS};
use crate::navigate::Navigation;
use crate::state::{FilterDirection, InputState, LearningLookup, StateView};
use crate::text;

verus! {

/// The source whose view a key jumps to.
pub open spec fn key_source(keysym: Keysym) -> Option<CandidateSource> {
    match keysym {
        Keysym::Character(c) => if c == 'y' || c == 'Y' {
            Some(CandidateSource::Learning)
        } else if c == 'u' || c == 'U' {
            Some(CandidateSource::UserDictionary)
        } else if c == 'i' || c == 'I' {
            Some(CandidateSource::Model)
        } else if c == 'o' || c == 'O' {
            Some(CandidateSource::Dictionary)
        } else {
            None
        },
        _ => None,
    }
}

/// The source whose view a key jumps to, if it does.
pub fn source_for_key(keysym: Keysym) -> (source: Option<CandidateSource>)
    ensures
        source == key_source(keysym),
{
    match keysym {
        Keysym::Character(c) => if c == 'y' || c == 'Y' {
            Some(CandidateSource::Learning)
        } else if c == 'u' || c == 'U' {
            Some(CandidateSource::UserDictionary)
        } else if c == 'i' || c == 'I' {
            Some(CandidateSource::Model)
        } else if c == 'o' || c == 'O' {
            Some(CandidateSource::Dictionary)
        } else {
            None
        },
        _ => None,
    }
}

/// The filter after another: no filter, then the sources in priority order, and
/// round again.
pub open spec fn filter_after(filter: Option<CandidateSource>) -> Option<CandidateSource> {
    match filter {
        None => Some(CandidateSource::Learning),
        Some(CandidateSource::Learning) => Some(CandidateSource::UserDictionary),
        Some(CandidateSource::UserDictionary) => Some(CandidateSource::Model),
        Some(CandidateSource::Model) => Some(CandidateSource::Dictionary),
        _ => None,
    }
}

/// The filter before another, the other way round.
pub open spec fn filter_before(filter: Option<CandidateSource>) -> Option<CandidateSource> {
    match filter {
        None => Some(CandidateSource::Dictionary),
        Some(CandidateSource::Dictionary) => Some(CandidateSource::Model),
        Some(CandidateSource::Model) => Some(CandidateSource::UserDictionary),
        Some(CandidateSource::UserDictionary) => Some(CandidateSource::Learning),
        _ => None,
    }
}

impl EngineView {
    /// Whether the conversion covers the whole composition.
    pub open spec fn covers_all(self) -> bool {
        self.tail is None && self.confirmed.len() == 0 && self.upcoming.len() == 0
    }

    /// What dictionaries and history look for when `reading` is converted: the
    /// composed text where the conversion covers all of it.
    pub open spec fn lookup_base(self, reading: Seq<char>) -> Seq<char> {
        if self.covers_all() {
            self.buffer.text
        } else {
            reading
        }
    }

    /// The waiting keys by which that is narrowed.
    pub open spec fn lookup_pending(self) -> Seq<char> {
        if self.covers_all() {
            self.pending
        } else {
            Seq::empty()
        }
    }

    /// All candidates of one source for a reading.
    pub open spec fn source_candidates(
        self,
        reading: Seq<char>,
        source: CandidateSource,
    ) -> Seq<CandidateView> {
        match source {
            CandidateSource::Learning => lookup::learned(
                self.learning,
                self.lookup_base(reading),
                self.lookup_pending(),
                usize::MAX as int,
            ),
            CandidateSource::UserDictionary | CandidateSource::Dictionary => {
                candidate::window_candidates(
                    self.dictionary_candidates(
                        self.lookup_base(reading),
                        self.lookup_pending(),
                        usize::MAX as int,
                        usize::MAX as int,
                        MIN_PREDICTIVE_PREFIX_CHARS as int,
                        Some(source),
                    ),
                    reading,
                )
            },
            CandidateSource::Model => candidate::window_candidates(
                lookup::all_plain(
                    self.model_texts(reading, self.config.num_candidates as int),
                    CandidateSource::Model,
                ),
                reading,
            ),
            _ => Seq::empty(),
        }
    }

    /// The view of one source.
    pub open spec fn filtered(self, source: CandidateSource) -> Step {
        match self.state {
            StateView::Conversion { reading, .. } => {
                let asked = if source == CandidateSource::Model {
                    self.asked(reading)
                } else {
                    self
                };
                asked.entered_filtered(
                    reading,
                    self.list_of(self.source_candidates(reading, source)),
                    Some(source),
                )
            },
            _ => (self, action::left_alone()),
        }
    }

    /// The view of all sources again.
    pub open spec fn unfiltered(self) -> Step {
        match self.state {
            StateView::Conversion { reading, .. } => self.asked(reading).entered(
                reading,
                self.conversion_list(
                    if self.covers_all() {
                        self.whole_candidates(reading, LearningLookup::Use)
                    } else {
                        self.segment_candidates(reading)
                    },
                    reading,
                ),
            ),
            _ => (self, action::left_alone()),
        }
    }

    /// The view of the next source.
    pub open spec fn cycled(self, direction: FilterDirection) -> Step {
        let next = match direction {
            FilterDirection::Forward => filter_after(self.state.filter()),
            FilterDirection::Backward => filter_before(self.state.filter()),
        };
        match next {
            Some(source) => self.filtered(source),
            None => self.unfiltered(),
        }
    }

    /// A conversion started in the view of one source.
    pub open spec fn started_filtered(self, source: CandidateSource) -> Step {
        let step = self.started(LearningLookup::Use, false);
        if step.0.state is Conversion {
            step.0.filtered(source)
        } else {
            step
        }
    }

    /// The learning history without a suggestion.
    pub open spec fn forgotten(self, reading: Seq<char>, surface: Seq<char>) -> EngineView {
        EngineView {
            learning: match self.learning {
                Some(history) => Some(history.filter(lexicon::not_suggests(reading, surface))),
                None => None,
            },
            ..self
        }
    }

    /// Whether the learning history holds a suggestion.
    pub open spec fn remembers(self, reading: Seq<char>, surface: Seq<char>) -> bool {
        match self.learning {
            Some(history) => exists|i: int|
                0 <= i < history.len() && lexicon::suggests(reading, surface)(
                    #[trigger] history[i],
                ),
            None => false,
        }
    }

    /// What the readings of all entries begin with that can give a row of the
    /// view of `filter`: what the history was looked up for.
    pub open spec fn removal_prefix(
        self,
        reading: Seq<char>,
        filter: Option<CandidateSource>,
    ) -> Seq<char> {
        if filter == Some(CandidateSource::Learning) {
            self.lookup_base(reading)
        } else {
            reading
        }
    }

    /// The conversion of `reading` built anew, in the view of `filter`.
    pub open spec fn rebuilt(self, reading: Seq<char>, filter: Option<CandidateSource>) -> Step {
        let candidates = self.conversion_candidates(
            reading,
            reading,
            Seq::empty(),
            self.config.num_candidates as int,
            LearningLookup::Use,
            false,
        );
        let entered = self.asked(reading).entered(
            reading,
            self.conversion_list(candidates, reading),
        );
        match filter {
            Some(source) => entered.0.filtered(source),
            None => entered,
        }
    }

    /// The selected candidate removed from the learning history with its prefix
    /// twins, and the conversion built anew with the selection where it was.
    pub open spec fn selected_forgotten(self) -> Step {
        match self.state {
            StateView::Conversion { candidates, reading, filter, .. } => {
                let prefix = self.removal_prefix(reading, filter);
                match candidates.selected() {
                    Some(selected) => if !self.remembers(prefix, selected.text) {
                        (self, action::taken(Seq::empty()))
                    } else {
                        let left = self.forgotten(prefix, selected.text);
                        let all = left.conversion_candidates(
                            reading,
                            reading,
                            Seq::empty(),
                            self.config.num_candidates as int,
                            LearningLookup::Use,
                            false,
                        );
                        if all.len() == 0 {
                            left.asked(reading).cancelled()
                        } else {
                            let again = left.rebuilt(reading, filter);
                            let shown = again.0.state.candidates();
                            if shown is Some && shown->0.candidates.len() > 0 {
                                again.0.navigated(Navigation::Cursor(candidates.cursor as usize))
                            } else {
                                again
                            }
                        }
                    },
                    None => (self, action::taken(Seq::empty())),
                }
            },
            _ => (self, action::taken(Seq::empty())),
        }
    }
}

impl InputMethodEngine {
    /// Whether the conversion covers the whole composition.
    fn covers_all(&self) -> (all: bool)
        ensures
            all == self@.covers_all(),
    {
        self.conversion_tail.is_none() && self.confirmed_segments.len() == 0
            && self.upcoming_segments.len() == 0
    }

    /// What dictionaries and history look for when `reading` is converted.
    fn lookup_base(&self, reading: &str) -> (base: String)
        ensures
            base@ == self@.lookup_base(reading@),
    {
        if self.covers_all() {
            self.input_buf.reading()
        } else {
            reading.to_owned()
        }
    }

    /// The waiting keys by which that is narrowed.
    fn lookup_pending(&self) -> (pending: String)
        ensures
            pending@ == self@.lookup_pending(),
    {
        if self.covers_all() {
            self.romaji.buffer()
        } else {
            String::new()
        }
    }

    /// Narrow the candidates to one source. Not consumed outside a conversion.
    pub fn apply_candidate_filter(&mut self, source: CandidateSource) -> (result: EngineResult)
        requires
            old(self)@.wf(),
        ensures
            (final(self)@, result@) == old(self)@.filtered(source),
            final(self)@.wf(),
    {
        let ghost e = self@;
        let reading = match self.state.reading() {
            Some(reading) => reading,
            None => {
                return EngineResult::not_consumed();
            },
        };
        let base = self.lookup_base(reading.as_str());
        let pending = self.lookup_pending();
        let candidates: Vec<Candidate> = match source {
            CandidateSource::Learning => {
                self.lookup_learning_history(base.as_str(), pending.as_str())
            },
            CandidateSource::UserDictionary | CandidateSource::Dictionary => {
                let words = self.search_dictionaries(
                    base.as_str(),
                    pending.as_str(),
                    usize::MAX,
                    usize::MAX,
                    MIN_PREDICTIVE_PREFIX_CHARS,
                    Some(source),
                );
                into_candidates(words, reading.as_str())
            },
            CandidateSource::Model => {
                let num_candidates = self.config.num_candidates;
                let texts = self.model_candidates(reading.as_str(), num_candidates);
                into_candidates(plain_candidates(texts, CandidateSource::Model), reading.as_str())
            },
            _ => Vec::new(),
        };
        assert(text::views(candidates@) =~= e.source_candidates(reading@, source));
        let list = self.settle_candidates(candidates);
        self.enter_filtered_state(reading.as_str(), list, Some(source))
    }

    /// Show the candidates of all sources again.
    fn clear_candidate_filter(&mut self) -> (result: EngineResult)
        requires
            old(self)@.wf(),
        ensures
            (final(self)@, result@) == old(self)@.unfiltered(),
            final(self)@.wf(),
    {
        let reading = match self.state.reading() {
            Some(reading) => reading,
            None => {
                return EngineResult::not_consumed();
            },
        };
        let candidates = if self.covers_all() {
            let base = self.input_buf.reading();
            let pending = self.romaji.buffer();
            let num_candidates = self.config.num_candidates;
            self.build_conversion_candidates(
                reading.as_str(),
                base.as_str(),
                pending.as_str(),
                num_candidates,
                LearningLookup::Use,
            )
        } else {
            self.build_segment_conversion_candidates(reading.as_str())
        };
        let list = self.to_conversion_candidate_list(candidates, reading.as_str());
        self.enter_conversion_state(reading.as_str(), list)
    }

    /// Go to the view of the next source. Not consumed outside a conversion.
    pub fn cycle_candidate_filter(&mut self, direction: FilterDirection) -> (result: EngineResult)
        requires
            old(self)@.wf(),
        ensures
            (final(self)@, result@) == old(self)@.cycled(direction),
            final(self)@.wf(),
    {
        let filter = self.state.filter();
        let next = match direction {
            FilterDirection::Forward => match filter {
                None => Some(CandidateSource::Learning),
                Some(CandidateSource::Learning) => Some(CandidateSource::UserDictionary),
                Some(CandidateSource::UserDictionary) => Some(CandidateSource::Model),
                Some(CandidateSource::Model) => Some(CandidateSource::Dictionary),
                _ => None,
            },
            FilterDirection::Backward => match filter {
                None => Some(CandidateSource::Dictionary),
                Some(CandidateSource::Dictionary) => Some(CandidateSource::Model),
                Some(CandidateSource::Model) => Some(CandidateSource::UserDictionary),
                Some(CandidateSource::UserDictionary) => Some(CandidateSource::Learning),
                _ => None,
            },
        };
        match next {
            Some(source) => self.apply_candidate_filter(source),
            None => self.clear_candidate_filter(),
        }
    }

    /// Start a conversion in the view of one source.
    pub fn start_conversion_with_filter(&mut self, source: CandidateSource) -> (result:
        EngineResult)
        requires
            old(self)@.wf(),
        ensures
            (final(self)@, result@) == old(self)@.started_filtered(source),
            final(self)@.wf(),
    {
        let result = self.start_conversion(LearningLookup::Use);
        let converting = match self.state {
            InputState::Conversion { .. } => true,
            _ => false,
        };
        if converting {
            self.apply_candidate_filter(source)
        } else {
            result
        }
    }

    /// Whether the selected candidate can be removed from the learning
    /// history. False when nothing is selected, so the delete chord stays
    /// inert outside the case it is meant for.
    pub fn selected_is_deletable(&self) -> (deletable: bool)
        ensures
            deletable == self@.state.selected_is_deletable(),
    {
        self.state.selected_is_deletable()
    }

    /// Delete the selected learning candidate and its prefix twins from the
    /// history, then rebuild the conversion in place — dedup hid any other
    /// source's copy of the surface, and only a rebuild brings it back.
    /// The caller guards deletability (`selected_is_deletable`).
    pub fn delete_selected_candidate_from_history(&mut self) -> (result: EngineResult)
        requires
            old(self)@.wf(),
        ensures
            (final(self)@, result@) == old(self)@.selected_forgotten(),
            final(self)@.wf(),
    {
        let ghost e = self@;
        let (surface, prev_cursor) = match self.state.candidates() {
            Some(list) => match list.selected() {
                Some(selected) => (selected.text.clone(), list.cursor()),
                None => {
                    return EngineResult::consumed();
                },
            },
            None => {
                return EngineResult::consumed();
            },
        };
        let reading = match self.state.reading() {
            Some(reading) => reading,
            None => {
                return EngineResult::consumed();
            },
        };
        let prev_filter = self.state.filter();
        // Remove by the typed reading: every entry surfacing this row has
        // it as a prefix, so the row and its twins clear together. The view of
        // the history narrows by the waiting keys, so there the typed reading
        // ends before them.
        let prefix = if prev_filter == Some(CandidateSource::Learning) {
            self.lookup_base(reading.as_str())
        } else {
            reading.clone()
        };
        assert(prefix@ == e.removal_prefix(reading@, prev_filter));
        let removed = match self.learning.take() {
            Some(cache) => {
                let mut cache = cache;
                let removed = cache.remove_suggestion(prefix.as_str(), surface.as_str());
                self.learning = Some(cache);
                removed
            },
            None => false,
        };
        assert(self@ =~= e.forgotten(prefix@, surface@));
        if !removed {
            proof {
                lemma_nothing_to_forget(e, prefix@, surface@);
            }
            return EngineResult::consumed();
        }
        // Keep the filter and cursor so consecutive deletes stay in the
        // narrowed view and chew through the list top-down.
        let num_candidates = self.config.num_candidates;
        let no_pending = String::new();
        assert(no_pending@ =~= Seq::<char>::empty());
        let candidates = self.build_conversion_candidates(
            reading.as_str(),
            reading.as_str(),
            no_pending.as_str(),
            num_candidates,
            LearningLookup::Use,
        );
        if candidates.len() == 0 {
            return self.cancel_conversion();
        }
        let list = self.to_conversion_candidate_list(candidates, reading.as_str());
        let mut result = self.enter_conversion_state(reading.as_str(), list);
        if let Some(source) = prev_filter {
            result = self.apply_candidate_filter(source);
        }
        assert((self@, result@) == e.forgotten(prefix@, surface@).rebuilt(reading@, prev_filter));
        let any = match self.state.candidates() {
            Some(list) => !list.is_empty(),
            None => false,
        };
        if any {
            return self.navigate_candidate(Navigation::Cursor(prev_cursor));
        }
        result
    }
}

/// Where there is nothing to forget, forgetting changes nothing.
proof fn lemma_nothing_to_forget(e: EngineView, reading: Seq<char>, surface: Seq<char>)
    requires
        !e.remembers(reading, surface),
    ensures
        e.forgotten(reading, surface) == e,
{
    match e.learning {
        Some(history) => {
            assert forall|i: int| 0 <= i < history.len() implies lexicon::not_suggests(
                reading,
                surface,
            )(#[trigger] history[i]) by {
                assert(!lexicon::suggests(reading, surface)(history[i]));
            }
            text::lemma_filter_all(history, lexicon::not_suggests(reading, surface));
        },
        None => {},
    }
}

} // verus!
