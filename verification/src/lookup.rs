//! Where candidates come from: the dictionaries, the learning history, the
//! model, the rewriters and the calendar, and the list that mixes them.

use vstd::prelude::*;
use vstd::string::StrSliceExecFns;

use crate::candidate;
use crate::candidate::{
    any_has_text, date_insert_index, into_candidates, push_new_up_to, width_annotation,
    AnnotatedCandidate, AnnotatedView, Candidate, CandidateBuilder, CandidateSource, CandidateView,
    DEFAULT_PAGE_SIZE,
};
use crate::engine::{EngineView, InputMethodEngine};
use crate::kana;
use crate::kana::hiragana_to_katakana;
use crate::lexicon;
use crate::lexicon::{Dictionary, Entry, EntryView, TailConstraint, TailView};
use crate::outside::{OutsideView, RewriteOutput, RewriteView};
use crate::romaji;
use crate::state::{InputMode, LearningLookup};
use crate::text;
use crate::text::same_text;

verus! {

/// Maximum number of learning candidates to show
pub const MAX_LEARNING_CANDIDATES: usize = 3;

/// Max predictive (prefix-extending) dictionary candidates in the
/// composing suggestion list. The conversion list is uncapped — the full
/// ranked set goes into the paged candidate window.
pub const MAX_PREDICTIVE_SUGGESTIONS: usize = 3;

/// Min typed characters before predictive dictionary lookup kicks in — a
/// single key would flood the list from a large dictionary
pub const MIN_PREDICTIVE_PREFIX_CHARS: usize = 2;

/// How the unresolved romaji tail `pending` constrains a predictive lookup.
pub open spec fn tail_of(pending: Seq<char>) -> TailView {
    if pending.len() == 0 {
        TailView::Unconstrained
    } else if romaji::expansions(pending).len() == 0 {
        TailView::Dead
    } else {
        TailView::Narrow(romaji::expansions(pending))
    }
}

/// A dictionary, if the search is for its source or for all.
pub open spec fn searched(
    dict: Option<Seq<EntryView>>,
    source: CandidateSource,
    only: Option<CandidateSource>,
) -> Seq<EntryView> {
    if only is Some && only != Some(source) {
        Seq::empty()
    } else {
        match dict {
            Some(entries) => entries,
            None => Seq::empty(),
        }
    }
}

/// The words of a dictionary for a reading.
pub open spec fn exact_words(
    entries: Seq<EntryView>,
    source: CandidateSource,
    reading: Seq<char>,
) -> Seq<AnnotatedView> {
    let surfaces = lexicon::surfaces_of(entries, reading);
    Seq::new(surfaces.len(), |i: int| candidate::plain(surfaces[i], source))
}

/// A word under a reading of its own.
pub open spec fn word_of(entry: EntryView, source: CandidateSource) -> AnnotatedView {
    AnnotatedView {
        text: entry.surface,
        source,
        reading: Some(entry.reading),
        description: None,
    }
}

/// Words under readings of their own.
pub open spec fn words_of(entries: Seq<EntryView>, source: CandidateSource) -> Seq<AnnotatedView> {
    Seq::new(entries.len(), |i: int| word_of(entries[i], source))
}

/// The first `budget` words of a dictionary whose readings go on from `reading`.
pub open spec fn predicted_words(
    entries: Seq<EntryView>,
    source: CandidateSource,
    reading: Seq<char>,
    tail: TailView,
    budget: int,
) -> Seq<AnnotatedView> {
    words_of(text::at_most(entries.filter(lexicon::continues(reading, tail)), budget), source)
}

/// The exact part of a dictionary search: words for the reading, the user's
/// first, and none while a romaji tail waits.
pub open spec fn exact_part(
    user: Seq<EntryView>,
    system: Seq<EntryView>,
    reading: Seq<char>,
    pending: Seq<char>,
    limit: int,
) -> Seq<AnnotatedView> {
    if pending.len() > 0 {
        Seq::empty()
    } else {
        candidate::add_new_up_to(
            candidate::add_new_up_to(
                Seq::empty(),
                exact_words(user, CandidateSource::UserDictionary, reading),
                limit,
            ),
            exact_words(system, CandidateSource::Dictionary, reading),
            limit,
        )
    }
}

/// The smaller of two numbers.
pub open spec fn smaller(a: int, b: int) -> int {
    if a <= b {
        a
    } else {
        b
    }
}

/// Candidates with the predicted words of one dictionary added: at most `budget`
/// more, and no more than `limit` in all.
pub open spec fn with_predicted(
    candidates: Seq<AnnotatedView>,
    entries: Seq<EntryView>,
    source: CandidateSource,
    reading: Seq<char>,
    tail: TailView,
    limit: int,
    budget: int,
) -> Seq<AnnotatedView> {
    candidate::add_new_up_to(
        candidates,
        predicted_words(entries, source, reading, tail, budget),
        smaller(limit, candidates.len() + budget),
    )
}

/// Dictionary candidates for a reading: exact matches, then predictive ones,
/// the user's words first in each.
pub open spec fn dictionary_words(
    user: Seq<EntryView>,
    system: Seq<EntryView>,
    reading: Seq<char>,
    pending: Seq<char>,
    limit: int,
    predictive_limit: int,
    min_prefix_chars: int,
) -> Seq<AnnotatedView> {
    let exact = exact_part(user, system, reading, pending, limit);
    let tail = tail_of(pending);
    if reading.len() < min_prefix_chars || tail is Dead {
        exact
    } else {
        let first = with_predicted(
            exact,
            user,
            CandidateSource::UserDictionary,
            reading,
            tail,
            limit,
            predictive_limit,
        );
        with_predicted(
            first,
            system,
            CandidateSource::Dictionary,
            reading,
            tail,
            limit,
            predictive_limit - (first.len() - exact.len()),
        )
    }
}

/// The words of a history for a reading, exact ones first, then those whose
/// readings go on as the romaji tail lets them; each word once, at most `max`.
pub open spec fn learned_words(
    history: Seq<EntryView>,
    reading: Seq<char>,
    pending: Seq<char>,
    max: int,
) -> Seq<AnnotatedView> {
    let exact = if pending.len() > 0 {
        Seq::empty()
    } else {
        history.filter(lexicon::reads(reading))
    };
    let longer = history.filter(lexicon::continues(reading, tail_of(pending)));
    candidate::add_new_up_to(
        Seq::empty(),
        words_of(exact + longer, CandidateSource::Learning),
        max,
    )
}

/// The candidates of the learning history for a reading.
pub open spec fn learned(
    history: Option<Seq<EntryView>>,
    reading: Seq<char>,
    pending: Seq<char>,
    max: int,
) -> Seq<CandidateView> {
    match history {
        Some(history) => candidate::window_candidates(
            learned_words(history, reading, pending, max),
            reading,
        ),
        None => Seq::empty(),
    }
}

/// A word of the history for exactly the reading.
pub open spec fn learned_candidate(surface: Seq<char>, reading: Seq<char>) -> CandidateView {
    CandidateView {
        text: surface,
        reading: Some(reading),
        source: Some(CandidateSource::Learning),
        description: None,
    }
}

/// The candidates of the learning history for exactly the reading.
pub open spec fn learned_exact(
    history: Option<Seq<EntryView>>,
    reading: Seq<char>,
) -> Seq<CandidateView> {
    match history {
        Some(history) => {
            let surfaces = text::at_most(
                lexicon::surfaces_of(history, reading),
                MAX_LEARNING_CANDIDATES as int,
            );
            Seq::new(surfaces.len(), |i: int| learned_candidate(surfaces[i], reading))
        },
        None => Seq::empty(),
    }
}

/// A candidate of the history in the mixed list: its reading is given only where
/// it is not the reading under conversion.
pub open spec fn as_learned(one: CandidateView, reading: Seq<char>) -> AnnotatedView {
    AnnotatedView {
        text: one.text,
        source: CandidateSource::Learning,
        reading: if one.reading == Some(reading) {
            None
        } else {
            one.reading
        },
        description: None,
    }
}

/// Candidates of the history in the mixed list.
pub open spec fn all_as_learned(
    learned: Seq<CandidateView>,
    reading: Seq<char>,
) -> Seq<AnnotatedView> {
    Seq::new(learned.len(), |i: int| as_learned(learned[i], reading))
}

/// Texts of one source in the mixed list.
pub open spec fn all_plain(texts: Seq<Seq<char>>, source: CandidateSource) -> Seq<AnnotatedView> {
    Seq::new(texts.len(), |i: int| candidate::plain(texts[i], source))
}

/// Rewritten texts in the mixed list.
pub open spec fn all_rewritten(
    outputs: Seq<RewriteView>,
    source: CandidateSource,
) -> Seq<AnnotatedView> {
    Seq::new(
        outputs.len(),
        |i: int|
            AnnotatedView {
                text: outputs[i].text,
                source,
                reading: None,
                description: outputs[i].description,
            },
    )
}

/// Whether a candidate is of the user dictionary.
pub open spec fn of_user() -> spec_fn(AnnotatedView) -> bool {
    |one: AnnotatedView| one.source == CandidateSource::UserDictionary
}

/// Whether a candidate is not of the user dictionary.
pub open spec fn not_of_user() -> spec_fn(AnnotatedView) -> bool {
    |one: AnnotatedView| one.source != CandidateSource::UserDictionary
}

/// A candidate with a description: its own; else, for a fallback, the name of
/// the symbol; else the label of its script.
pub open spec fn described(one: AnnotatedView, outside: OutsideView) -> AnnotatedView {
    if one.description is Some {
        one
    } else if one.source == CandidateSource::Fallback && outside.symbol_name(one.text) is Some {
        AnnotatedView { description: outside.symbol_name(one.text), ..one }
    } else {
        AnnotatedView { description: candidate::script_label(one.text), ..one }
    }
}

/// Candidates with descriptions.
pub open spec fn all_described(
    candidates: Seq<AnnotatedView>,
    outside: OutsideView,
) -> Seq<AnnotatedView> {
    Seq::new(candidates.len(), |i: int| described(candidates[i], outside))
}

/// Whether a rewritten text is new to candidates.
pub open spec fn new_to(candidates: Seq<AnnotatedView>) -> spec_fn(RewriteView) -> bool {
    |output: RewriteView| !candidate::has_text(candidates, output.text)
}

/// Candidates with the dates that are new inserted after the first of the model.
pub open spec fn with_dates(
    candidates: Seq<AnnotatedView>,
    dates: Seq<RewriteView>,
) -> Seq<AnnotatedView> {
    let at = candidate::date_position(candidates);
    candidates.take(at) + all_rewritten(dates.filter(new_to(candidates)), CandidateSource::Date)
        + candidates.skip(at)
}

impl EngineView {
    /// Dictionary candidates for a reading, of one source or of all.
    pub open spec fn dictionary_candidates(
        self,
        reading: Seq<char>,
        pending: Seq<char>,
        limit: int,
        predictive_limit: int,
        min_prefix_chars: int,
        only: Option<CandidateSource>,
    ) -> Seq<AnnotatedView> {
        dictionary_words(
            searched(self.user, CandidateSource::UserDictionary, only),
            searched(self.system, CandidateSource::Dictionary, only),
            reading,
            pending,
            limit,
            predictive_limit,
            min_prefix_chars,
        )
    }

    /// What the rewriters made of a reading: in emoji mode, the emoji rewriter
    /// alone.
    pub open spec fn rewriter_variants(self, reading: Seq<char>) -> Seq<RewriteView> {
        if self.mode == InputMode::Emoji {
            self.outside.emoji(reading, self.chunk_breaks)
        } else {
            self.outside.rewrites(reading, self.chunk_breaks)
        }
    }

    /// The engine once the model was needed for a reading.
    pub open spec fn asked(self, reading: Seq<char>) -> EngineView {
        if self.outside.answer(reading, self.chunk_breaks) is Some || self.requested.contains(reading) {
            self
        } else {
            EngineView { requested: self.requested.push(reading), ..self }
        }
    }

    /// The conversions of the model for a reading.
    pub open spec fn model_texts(self, reading: Seq<char>, num: int) -> Seq<Seq<char>> {
        text::at_most(self.outside.model(reading, self.chunk_breaks), num)
    }

    /// The learned candidates at the head of the mixed list.
    pub open spec fn learned_part(
        self,
        reading: Seq<char>,
        learning: LearningLookup,
        exact_only: bool,
    ) -> Seq<AnnotatedView> {
        if learning != LearningLookup::Use {
            Seq::empty()
        } else if exact_only {
            all_as_learned(learned_exact(self.learning, reading), reading)
        } else {
            all_as_learned(
                learned(self.learning, reading, Seq::empty(), MAX_LEARNING_CANDIDATES as int),
                reading,
            )
        }
    }

    /// The candidates of the model; where there are none and nothing else came
    /// before, the reading itself, except in emoji mode.
    pub open spec fn model_part(
        self,
        reading: Seq<char>,
        num: int,
        nothing_before: bool,
    ) -> Seq<AnnotatedView> {
        let texts = self.model_texts(reading, num);
        if texts.len() > 0 {
            all_plain(texts, CandidateSource::Model)
        } else if nothing_before && self.mode != InputMode::Emoji {
            seq![candidate::plain(reading, CandidateSource::Fallback)]
        } else {
            Seq::empty()
        }
    }

    /// The reading in hiragana and in katakana; nothing in emoji mode.
    pub open spec fn kana_part(self, reading: Seq<char>) -> Seq<AnnotatedView> {
        if self.mode == InputMode::Emoji {
            Seq::empty()
        } else {
            seq![
                candidate::plain(reading, CandidateSource::Fallback),
                candidate::plain(kana::katakana_text(reading), CandidateSource::Fallback),
            ]
        }
    }

    /// The dictionary words of the mixed list.
    pub open spec fn mixed_words(
        self,
        base: Seq<char>,
        pending: Seq<char>,
        exact_only: bool,
    ) -> Seq<AnnotatedView> {
        self.dictionary_candidates(
            base,
            pending,
            usize::MAX as int,
            if exact_only {
                0
            } else {
                usize::MAX as int
            },
            MIN_PREDICTIVE_PREFIX_CHARS as int,
            None,
        )
    }

    /// The words of the user dictionary in the mixed list.
    pub open spec fn user_part(
        self,
        base: Seq<char>,
        pending: Seq<char>,
        exact_only: bool,
    ) -> Seq<AnnotatedView> {
        self.mixed_words(base, pending, exact_only).filter(of_user())
    }

    /// The words of the system dictionary in the mixed list.
    pub open spec fn system_part(
        self,
        base: Seq<char>,
        pending: Seq<char>,
        exact_only: bool,
    ) -> Seq<AnnotatedView> {
        self.mixed_words(base, pending, exact_only).filter(not_of_user())
    }

    /// What the rewriters offer for the mixed list.
    pub open spec fn rewriter_part(self, reading: Seq<char>) -> Seq<AnnotatedView> {
        all_rewritten(self.rewriter_variants(reading), CandidateSource::Rewriter)
    }

    /// The head of the mixed list: learning and user dictionary.
    pub open spec fn mixed_top(
        self,
        reading: Seq<char>,
        base: Seq<char>,
        pending: Seq<char>,
        learning: LearningLookup,
        exact_only: bool,
    ) -> Seq<AnnotatedView> {
        candidate::add_all_new(
            self.learned_part(reading, learning, exact_only),
            self.user_part(base, pending, exact_only),
        )
    }

    /// The mixed list down to the model.
    pub open spec fn mixed_to_model(
        self,
        reading: Seq<char>,
        base: Seq<char>,
        pending: Seq<char>,
        num: int,
        learning: LearningLookup,
        exact_only: bool,
    ) -> Seq<AnnotatedView> {
        let top = self.mixed_top(reading, base, pending, learning, exact_only);
        candidate::add_all_new(top, self.model_part(reading, num, top.len() == 0))
    }

    /// The mixed list down to the system dictionary.
    pub open spec fn mixed_to_system(
        self,
        reading: Seq<char>,
        base: Seq<char>,
        pending: Seq<char>,
        num: int,
        learning: LearningLookup,
        exact_only: bool,
    ) -> Seq<AnnotatedView> {
        candidate::add_all_new(
            self.mixed_to_model(reading, base, pending, num, learning, exact_only),
            self.system_part(base, pending, exact_only),
        )
    }

    /// The mixed list down to the kana.
    pub open spec fn mixed_to_kana(
        self,
        reading: Seq<char>,
        base: Seq<char>,
        pending: Seq<char>,
        num: int,
        learning: LearningLookup,
        exact_only: bool,
    ) -> Seq<AnnotatedView> {
        candidate::add_all_new(
            self.mixed_to_system(reading, base, pending, num, learning, exact_only),
            self.kana_part(reading),
        )
    }

    /// The mixed list in priority order, without descriptions and dates:
    /// learning, user dictionary, model, system dictionary, kana, rewriters.
    pub open spec fn mixed(
        self,
        reading: Seq<char>,
        base: Seq<char>,
        pending: Seq<char>,
        num: int,
        learning: LearningLookup,
        exact_only: bool,
    ) -> Seq<AnnotatedView> {
        candidate::add_all_new(
            self.mixed_to_kana(reading, base, pending, num, learning, exact_only),
            self.rewriter_part(reading),
        )
    }

    /// Candidates with the dates that the reading stands for, if dates are
    /// converted.
    pub open spec fn dated(
        self,
        reading: Seq<char>,
        candidates: Seq<AnnotatedView>,
    ) -> Seq<AnnotatedView> {
        if self.config.converts_dates() {
            with_dates(candidates, self.outside.dates(reading))
        } else {
            candidates
        }
    }

    /// The conversion candidates for a reading.
    pub open spec fn conversion_candidates(
        self,
        reading: Seq<char>,
        base: Seq<char>,
        pending: Seq<char>,
        num: int,
        learning: LearningLookup,
        exact_only: bool,
    ) -> Seq<AnnotatedView> {
        self.dated(
            reading,
            all_described(
                self.mixed(reading, base, pending, num, learning, exact_only),
                self.outside,
            ),
        )
    }

    /// The conversion candidates for a part of the composition: nothing that
    /// goes beyond the reading.
    pub open spec fn segment_candidates(self, reading: Seq<char>) -> Seq<AnnotatedView> {
        self.conversion_candidates(
            reading,
            reading,
            Seq::empty(),
            self.config.num_candidates as int,
            LearningLookup::Use,
            true,
        )
    }

    /// Whether `surface` is a calendar date that `reading` stands for today.
    pub open spec fn is_date_surface(self, reading: Seq<char>, surface: Seq<char>) -> bool {
        self.config.converts_dates() && exists|i: int|
            0 <= i < self.outside.dates(reading).len() && (#[trigger] self.outside.dates(
                reading,
            )[i]).text == surface
    }

    /// The engine once a selection was committed: it is in the history, unless
    /// it is an emoji or a date, or there is no history.
    pub open spec fn recorded(self, reading: Seq<char>, surface: Seq<char>) -> EngineView {
        if self.mode == InputMode::Emoji || self.is_date_surface(reading, surface) {
            self
        } else {
            match self.learning {
                Some(history) => EngineView {
                    learning: Some(lexicon::recorded(history, EntryView { reading, surface })),
                    ..self
                },
                None => self,
            }
        }
    }
}

/// The most that adding `budget` may reach, and no more than `limit`.
fn reach(len: usize, budget: usize, limit: usize) -> (most: usize)
    ensures
        most == smaller(limit as int, len + budget),
{
    if len <= limit && budget <= limit - len {
        len + budget
    } else {
        limit
    }
}

/// The words of a dictionary for a reading.
fn exact_candidates(
    dict: &Option<Dictionary>,
    source: CandidateSource,
    wanted: bool,
    reading: &str,
) -> (words: Vec<AnnotatedCandidate>)
    ensures
        text::views(words@) == exact_words(
            if wanted {
                searched(text::opt_view(*dict), source, None)
            } else {
                Seq::empty()
            },
            source,
            reading@,
        ),
{
    let mut words: Vec<AnnotatedCandidate> = Vec::new();
    if wanted {
        match dict {
            Some(dict) => {
                let surfaces = dict.exact_match_search(reading);
                for i in 0..surfaces.len()
                    invariant
                        words@.len() == i,
                        forall|j: int|
                            0 <= j < i ==> (#[trigger] words@[j])@ == candidate::plain(
                                surfaces@[j]@,
                                source,
                            ),
                {
                    words.push(AnnotatedCandidate::new(surfaces[i].clone(), source));
                }
                assert(text::views(words@) =~= exact_words(dict@, source, reading@));
                return words;
            },
            None => {},
        }
    }
    assert(text::views(words@) =~= exact_words(Seq::empty(), source, reading@)) by {
        reveal(Seq::filter);
    }
    words
}

/// Words under readings of their own, as candidates.
fn entry_candidates(entries: &Vec<Entry>, source: CandidateSource) -> (words: Vec<
    AnnotatedCandidate,
>)
    ensures
        text::views(words@) == words_of(text::views(entries@), source),
{
    let mut words: Vec<AnnotatedCandidate> = Vec::new();
    for i in 0..entries.len()
        invariant
            words@.len() == i,
            forall|j: int| 0 <= j < i ==> (#[trigger] words@[j])@ == word_of(entries@[j]@, source),
    {
        let word = AnnotatedCandidate::new(entries[i].surface.clone(), source).with_reading(
            Some(entries[i].reading.clone()),
        );
        words.push(word);
    }
    assert(text::views(words@) =~= words_of(text::views(entries@), source));
    words
}

/// Add the predicted words of one dictionary.
fn push_predicted(
    candidates: &mut Vec<AnnotatedCandidate>,
    dict: &Option<Dictionary>,
    source: CandidateSource,
    wanted: bool,
    reading: &str,
    tail: &TailConstraint,
    limit: usize,
    budget: usize,
)
    ensures
        text::views(final(candidates)@) == with_predicted(
            text::views(old(candidates)@),
            if wanted {
                searched(text::opt_view(*dict), source, None)
            } else {
                Seq::empty()
            },
            source,
            reading@,
            tail@,
            limit as int,
            budget as int,
        ),
        old(candidates)@.len() <= final(candidates)@.len() <= old(candidates)@.len() + budget,
{
    let found = match dict {
        Some(dict) => if wanted {
            dict.predictive_search(reading, tail, budget)
        } else {
            Vec::new()
        },
        None => Vec::new(),
    };
    let ghost entries = if wanted {
        searched(text::opt_view(*dict), source, None)
    } else {
        Seq::empty()
    };
    assert(text::views(found@) =~= text::at_most(
        entries.filter(lexicon::continues(reading@, tail@)),
        budget as int,
    )) by {
        reveal(Seq::filter);
    }
    let most = reach(candidates.len(), budget, limit);
    push_new_up_to(candidates, entry_candidates(&found, source), most);
}

impl InputMethodEngine {
    /// Classify the unresolved romaji tail for predictive lookup.
    pub fn tail_constraint(&self, pending: &str) -> (tail: TailConstraint)
        ensures
            tail@ == tail_of(pending@),
    {
        if pending.is_empty() {
            return TailConstraint::Unconstrained;
        }
        let kana = self.romaji.pending_expansions(pending);
        if kana.len() == 0 {
            TailConstraint::Dead
        } else {
            TailConstraint::Narrow(kana)
        }
    }

    /// Dictionary candidates for a reading: user dict first, then system,
    /// exact matches then predictive (prefix-extending) ones, deduped.
    ///
    /// `pending` narrows the predictive lookup to readings the romaji tail
    /// can still become; `predictive_limit` caps those results. `only`
    /// restricts search and dedup to one dictionary, so shared surfaces stay
    /// visible per view.
    pub fn search_dictionaries(
        &self,
        reading: &str,
        pending: &str,
        limit: usize,
        predictive_limit: usize,
        min_prefix_chars: usize,
        only: Option<CandidateSource>,
    ) -> (words: Vec<AnnotatedCandidate>)
        ensures
            text::views(words@) == self@.dictionary_candidates(
                reading@,
                pending@,
                limit as int,
                predictive_limit as int,
                min_prefix_chars as int,
                only,
            ),
    {
        let want_user = match only {
            Some(source) => source == CandidateSource::UserDictionary,
            None => true,
        };
        let want_system = match only {
            Some(source) => source == CandidateSource::Dictionary,
            None => true,
        };
        let ghost user = searched(self@.user, CandidateSource::UserDictionary, only);
        let ghost system = searched(self@.system, CandidateSource::Dictionary, only);
        let mut words: Vec<AnnotatedCandidate> = Vec::new();
        assert(text::views(words@) =~= Seq::<AnnotatedView>::empty());
        if pending.is_empty() {
            let of_user = exact_candidates(
                &self.dicts.user,
                CandidateSource::UserDictionary,
                want_user,
                reading,
            );
            push_new_up_to(&mut words, of_user, limit);
            let of_system = exact_candidates(
                &self.dicts.system,
                CandidateSource::Dictionary,
                want_system,
                reading,
            );
            push_new_up_to(&mut words, of_system, limit);
        }
        assert(text::views(words@) == exact_part(user, system, reading@, pending@, limit as int));
        let tail = self.tail_constraint(pending);
        let dead = match &tail {
            TailConstraint::Dead => true,
            _ => false,
        };
        if reading.unicode_len() >= min_prefix_chars && !dead {
            let exact = words.len();
            push_predicted(
                &mut words,
                &self.dicts.user,
                CandidateSource::UserDictionary,
                want_user,
                reading,
                &tail,
                limit,
                predictive_limit,
            );
            let left = predictive_limit - (words.len() - exact);
            push_predicted(
                &mut words,
                &self.dicts.system,
                CandidateSource::Dictionary,
                want_system,
                reading,
                &tail,
                limit,
                left,
            );
        }
        words
    }

    /// Learning candidates for exactly the reading, at most
    /// `MAX_LEARNING_CANDIDATES`.
    pub fn lookup_learning_candidates_exact(&self, reading: &str) -> (found: Vec<Candidate>)
        ensures
            text::views(found@) == learned_exact(self@.learning, reading@),
    {
        let mut found: Vec<Candidate> = Vec::new();
        match &self.learning {
            Some(cache) => {
                let surfaces = cache.lookup(reading);
                let n = if surfaces.len() < MAX_LEARNING_CANDIDATES {
                    surfaces.len()
                } else {
                    MAX_LEARNING_CANDIDATES
                };
                for i in 0..n
                    invariant
                        n <= surfaces@.len(),
                        found@.len() == i,
                        forall|j: int|
                            0 <= j < i ==> (#[trigger] found@[j])@ == learned_candidate(
                                surfaces@[j]@,
                                reading@,
                            ),
                {
                    found.push(
                        Candidate {
                            text: surfaces[i].clone(),
                            reading: Some(reading.to_owned()),
                            source: Some(CandidateSource::Learning),
                            description: None,
                        },
                    );
                }
            },
            None => {},
        }
        assert(text::views(found@) =~= learned_exact(self@.learning, reading@));
        found
    }

    /// Look up learning cache candidates for a reading (exact + prefix match,
    /// max 3).
    pub fn lookup_learning_candidates(&self, reading: &str) -> (found: Vec<Candidate>)
        ensures
            text::views(found@) == learned(
                self@.learning,
                reading@,
                Seq::empty(),
                MAX_LEARNING_CANDIDATES as int,
            ),
    {
        proof {
            reveal_strlit("");
            assert(""@ =~= Seq::<char>::empty());
        }
        self.lookup_learning(reading, "", MAX_LEARNING_CANDIDATES)
    }

    /// Full learning history for `reading` (exact + prefix, uncapped),
    /// narrowed by the unresolved romaji tail like the dictionary lookup —
    /// an exact hit on the base must not swallow the typed tail.
    pub fn lookup_learning_history(&self, reading: &str, pending: &str) -> (found: Vec<Candidate>)
        ensures
            text::views(found@) == learned(
                self@.learning,
                reading@,
                pending@,
                usize::MAX as int,
            ),
    {
        self.lookup_learning(reading, pending, usize::MAX)
    }

    /// Learning history for `reading`: exact matches only while no romaji tail
    /// is pending, then prefix matches narrowed by the tail; each word once, at
    /// most `max`.
    fn lookup_learning(&self, reading: &str, pending: &str, max: usize) -> (found: Vec<Candidate>)
        ensures
            text::views(found@) == learned(self@.learning, reading@, pending@, max as int),
    {
        match &self.learning {
            Some(cache) => {
                let ghost history = cache@;
                let tail = self.tail_constraint(pending);
                let mut entries: Vec<Entry> = Vec::new();
                let ghost exact = if pending@.len() > 0 {
                    Seq::empty()
                } else {
                    history.filter(lexicon::reads(reading@))
                };
                if pending.is_empty() {
                    let surfaces = cache.lookup(reading);
                    for i in 0..surfaces.len()
                        invariant
                            entries@.len() == i,
                            text::views(surfaces@) == lexicon::surfaces_of(history, reading@),
                            forall|j: int|
                                0 <= j < i ==> (#[trigger] entries@[j])@ == (EntryView {
                                    reading: reading@,
                                    surface: surfaces@[j]@,
                                }),
                    {
                        entries.push(
                            Entry { reading: reading.to_owned(), surface: surfaces[i].clone() },
                        );
                    }
                    assert(text::views(surfaces@).len() == exact.len());
                    assert forall|j: int| 0 <= j < entries@.len() implies (
                    #[trigger] entries@[j])@ == exact[j] by {
                        assert(exact.contains(exact[j]));
                        text::lemma_filter_contains(history, lexicon::reads(reading@), exact[j]);
                        assert(text::views(surfaces@)[j] == exact[j].surface);
                    }
                }
                assert(text::views(entries@) =~= exact);
                let mut longer = cache.prefix_lookup(reading, &tail);
                let ghost more = text::views(longer@);
                entries.append(&mut longer);
                assert(text::views(entries@) =~= exact + more);
                let mut words: Vec<AnnotatedCandidate> = Vec::new();
                assert(text::views(words@) =~= Seq::<AnnotatedView>::empty());
                push_new_up_to(
                    &mut words,
                    entry_candidates(&entries, CandidateSource::Learning),
                    max,
                );
                into_candidates(words, reading)
            },
            None => {
                let found: Vec<Candidate> = Vec::new();
                assert(text::views(found@) =~= Seq::<CandidateView>::empty());
                found
            },
        }
    }

    /// Dictionary candidates for the composing suggestion list (one page).
    pub fn lookup_dict_candidates(&self, reading: &str) -> (found: Vec<Candidate>)
        ensures
            text::views(found@) == candidate::window_candidates(
                self@.dictionary_candidates(
                    reading@,
                    self@.pending,
                    DEFAULT_PAGE_SIZE as int,
                    MAX_PREDICTIVE_SUGGESTIONS as int,
                    MIN_PREDICTIVE_PREFIX_CHARS as int,
                    None,
                ),
                reading@,
            ),
    {
        let pending = self.romaji.buffer();
        let words = self.search_dictionaries(
            reading,
            pending.as_str(),
            DEFAULT_PAGE_SIZE,
            MAX_PREDICTIVE_SUGGESTIONS,
            MIN_PREDICTIVE_PREFIX_CHARS,
            None,
        );
        into_candidates(words, reading)
    }

    /// Rewriter variants for `reading`, as text and description.
    ///
    /// In emoji mode only the emoji rewriter runs: `:smile` is a query, and
    /// another rewriter's width variant would head the picker and be what
    /// Enter commits.
    pub fn rewriter_variants(&self, reading: &str) -> (outputs: Vec<RewriteOutput>)
        ensures
            text::views(outputs@) == self@.rewriter_variants(reading@),
    {
        if self.input_mode == InputMode::Emoji {
            return self.outside.emoji(reading, &self.chunk_breaks);
        }
        self.outside.rewrites(reading, &self.chunk_breaks)
    }

    /// Build rule-based rewriter variants for the reading itself, for the
    /// auto-suggest path.
    pub fn lookup_rewriter_variants(&self, reading: &str) -> (found: Vec<Candidate>)
        ensures
            text::views(found@) == candidate::window_candidates(
                all_rewritten(self@.rewriter_variants(reading@), CandidateSource::Rewriter),
                reading@,
            ),
    {
        let outputs = self.rewriter_variants(reading);
        into_candidates(output_candidates(outputs, CandidateSource::Rewriter), reading)
    }

    /// The conversions of the model for a reading. A reading for which nothing
    /// was answered is put on the list of requests.
    pub fn model_candidates(&mut self, reading: &str, num_candidates: usize) -> (texts: Vec<
        String,
    >)
        ensures
            final(self)@ == old(self)@.asked(reading@),
            text::views(texts@) == old(self)@.model_texts(reading@, num_candidates as int),
    {
        let texts = self.outside.model(reading, &self.chunk_breaks, num_candidates);
        let answered = match self.outside.answer(reading, &self.chunk_breaks) {
            Some(_) => true,
            None => false,
        };
        if !answered {
            let ghost all = self@.requested;
            let n = self.requested.len();
            for i in 0..n
                invariant
                    n == self.requested@.len(),
                    self@ == old(self)@,
                    all == self@.requested,
                    old(self)@.outside.answer(reading@, old(self)@.chunk_breaks) is None,
                    text::views(texts@) == old(self)@.model_texts(
                        reading@,
                        num_candidates as int,
                    ),
                    forall|j: int| 0 <= j < i ==> #[trigger] all[j] != reading@,
            {
                if same_text(self.requested[i].as_str(), reading) {
                    assert(all[i as int] == reading@);
                    return texts;
                }
                assert(all[i as int] != reading@);
            }
            self.requested.push(reading.to_owned());
            assert(self@.requested =~= all.push(reading@));
        }
        texts
    }

    /// Build the mixed candidate list, deduped in priority order:
    /// Learning → User Dictionary → Model → System Dictionary → Fallback.
    ///
    /// `base`/`pending` split the reading for the dictionary lookup (the
    /// unresolved romaji tail narrows prediction).
    pub fn build_conversion_candidates(
        &mut self,
        reading: &str,
        base: &str,
        pending: &str,
        num_candidates: usize,
        learning: LearningLookup,
    ) -> (candidates: Vec<AnnotatedCandidate>)
        ensures
            final(self)@ == old(self)@.asked(reading@),
            text::views(candidates@) == old(self)@.conversion_candidates(
                reading@,
                base@,
                pending@,
                num_candidates as int,
                learning,
                false,
            ),
    {
        self.build_conversion_candidates_impl(
            reading,
            base,
            pending,
            num_candidates,
            learning,
            false,
        )
    }

    /// Build the candidate list for a part of the composition: nothing in it
    /// goes beyond the reading.
    pub fn build_segment_conversion_candidates(&mut self, reading: &str) -> (candidates: Vec<
        AnnotatedCandidate,
    >)
        ensures
            final(self)@ == old(self)@.asked(reading@),
            text::views(candidates@) == old(self)@.segment_candidates(reading@),
    {
        proof {
            reveal_strlit("");
            assert(""@ =~= Seq::<char>::empty());
        }
        let num_candidates = self.config.num_candidates;
        self.build_conversion_candidates_impl(
            reading,
            reading,
            "",
            num_candidates,
            LearningLookup::Use,
            true,
        )
    }

    fn build_conversion_candidates_impl(
        &mut self,
        reading: &str,
        base: &str,
        pending: &str,
        num_candidates: usize,
        learning: LearningLookup,
        exact_only: bool,
    ) -> (candidates: Vec<AnnotatedCandidate>)
        ensures
            final(self)@ == old(self)@.asked(reading@),
            text::views(candidates@) == old(self)@.conversion_candidates(
                reading@,
                base@,
                pending@,
                num_candidates as int,
                learning,
                exact_only,
            ),
    {
        let ghost e = self@;
        // No answer (the model is still loading, or loading failed) just means
        // no model candidates: symbol-only and early keystrokes still get
        // dictionary/rewriter/fallback candidates.
        let texts = self.model_candidates(reading, num_candidates);
        let mut builder = CandidateBuilder::new();

        // 1. Learning cache candidates (highest priority).
        //    Force-inserted so they win against duplicate text from later sources.
        //    Skipped when the caller asks for a learning-free conversion (Tab key).
        if learning == LearningLookup::Use {
            let learned = if exact_only {
                self.lookup_learning_candidates_exact(reading)
            } else {
                self.lookup_learning_candidates(reading)
            };
            push_learned(&mut builder, learned, reading);
        }
        assert(builder@ =~= e.learned_part(reading@, learning, exact_only));

        // 2. User dictionary candidates (the system dictionary follows the
        //    model, so the two are split here).
        let words = self.search_dictionaries(
            base,
            pending,
            usize::MAX,
            if exact_only {
                0
            } else {
                usize::MAX
            },
            MIN_PREDICTIVE_PREFIX_CHARS,
            None,
        );
        let (of_user, of_system) = split_words(words);
        builder.push_all(of_user);

        // 3. Model inference results. No literal fallback in emoji mode: the
        //    query must not outrank the emoji of the rewriter step below.
        let ghost top = builder@;
        if texts.len() == 0 {
            if builder.is_empty() && self.input_mode != InputMode::Emoji {
                builder.push(
                    AnnotatedCandidate::new(reading.to_owned(), CandidateSource::Fallback),
                );
            }
        } else {
            builder.push_all(plain_candidates(texts, CandidateSource::Model));
        }
        proof {
            lemma_add_few(top, candidate::plain(reading@, CandidateSource::Fallback));
            assert(builder@ == candidate::add_all_new(
                top,
                e.model_part(reading@, num_candidates as int, top.len() == 0),
            ));
        }

        // 4. System dictionary candidates
        builder.push_all(of_system);

        // 5. Hiragana/katakana fallback. Emoji mode shows rewriter (emoji)
        //    candidates only; Enter in Composing still commits the literal query.
        let ghost before_kana = builder@;
        if self.input_mode != InputMode::Emoji {
            builder.push(AnnotatedCandidate::new(reading.to_owned(), CandidateSource::Fallback));
            builder.push(
                AnnotatedCandidate::new(hiragana_to_katakana(reading), CandidateSource::Fallback),
            );
        }
        proof {
            lemma_add_two(
                before_kana,
                candidate::plain(reading@, CandidateSource::Fallback),
                candidate::plain(kana::katakana_text(reading@), CandidateSource::Fallback),
            );
            assert(builder@ == candidate::add_all_new(before_kana, e.kana_part(reading@)));
        }

        // 6. Rewriters run on the typed reading only; running them on other
        //    sources' candidates would emit variants nobody asked for.
        let outputs = self.rewriter_variants(reading);
        builder.push_all(output_candidates(outputs, CandidateSource::Rewriter));
        assert(builder@ == e.mixed(
            reading@,
            base@,
            pending@,
            num_candidates as int,
            learning,
            exact_only,
        ));

        // 7. Back-fill descriptions. Symbol names are Fallback-only, while width
        //    annotations apply to any pure-kana candidate that still has none.
        let candidates = self.describe_all(builder.into_candidates());
        self.insert_date_candidates(reading, candidates)
    }

    /// Give a description to every candidate that can have one.
    fn describe_all(&self, candidates: Vec<AnnotatedCandidate>) -> (result: Vec<
        AnnotatedCandidate,
    >)
        ensures
            text::views(result@) == all_described(text::views(candidates@), self@.outside),
    {
        let mut result: Vec<AnnotatedCandidate> = Vec::new();
        for one in it: candidates
            invariant
                it.seq() == candidates@,
                result@.len() == it.index(),
                forall|j: int|
                    0 <= j < it.index() ==> (#[trigger] result@[j])@ == described(
                        candidates@[j]@,
                        self@.outside,
                    ),
        {
            let described = if one.description.is_some() {
                one
            } else {
                let symbol = if one.source == CandidateSource::Fallback {
                    self.outside.symbol_name(one.text.as_str())
                } else {
                    None
                };
                let description = match symbol {
                    Some(name) => Some(name),
                    None => match width_annotation(one.text.as_str()) {
                        Some(label) => Some(label.to_owned()),
                        None => None,
                    },
                };
                one.with_description(description)
            };
            result.push(described);
        }
        assert(text::views(result@) =~= all_described(text::views(candidates@), self@.outside));
        result
    }

    /// Insert date-conversion candidates (きょう / あした / … → calendar date)
    /// right after the top model candidate so they surface on the first page
    /// instead of the rewriter tail. No-op when date conversion is disabled,
    /// no format is configured, or the reading is not a date reading.
    fn insert_date_candidates(
        &self,
        reading: &str,
        candidates: Vec<AnnotatedCandidate>,
    ) -> (result: Vec<AnnotatedCandidate>)
        ensures
            text::views(result@) == self@.dated(reading@, text::views(candidates@)),
    {
        if !self.config.date_conversion || self.config.date_formats.len() == 0 {
            return candidates;
        }
        let dates = self.outside.dates(reading);
        insert_dates(candidates, dates)
    }

    /// Whether `surface` is a calendar date that `reading` stands for today
    /// (across all configured formats). Always false when date conversion is
    /// disabled or no format is configured.
    pub fn is_date_surface(&self, reading: &str, surface: &str) -> (is_date: bool)
        ensures
            is_date == self@.is_date_surface(reading@, surface@),
    {
        if !self.config.date_conversion || self.config.date_formats.len() == 0 {
            return false;
        }
        let outputs = self.outside.dates(reading);
        let ghost dates = self@.outside.dates(reading@);
        for i in 0..outputs.len()
            invariant
                text::views(outputs@) == dates,
                dates == self@.outside.dates(reading@),
                self@.config.converts_dates(),
                forall|j: int| 0 <= j < i ==> (#[trigger] dates[j]).text != surface@,
        {
            assert(dates[i as int] == outputs@[i as int]@);
            if same_text(outputs[i].text.as_str(), surface) {
                assert(self@.outside.dates(reading@)[i as int].text == surface@);
                return true;
            }
        }
        false
    }

    /// Record a conversion selection in the learning cache.
    ///
    /// Emoji queries and date conversions are excluded: emoji readings do not
    /// belong in the kana-keyed cache, while date surfaces become stale when
    /// the day changes.
    pub fn record_learning(&mut self, reading: &str, surface: &str)
        ensures
            final(self)@ == old(self)@.recorded(reading@, surface@),
    {
        if self.input_mode == InputMode::Emoji || self.is_date_surface(reading, surface) {
            return;
        }
        if let Some(cache) = self.learning.take() {
            let mut cache = cache;
            cache.record(reading, surface);
            self.learning = Some(cache);
        }
    }
}

/// One candidate offered is one candidate added, none is none.
proof fn lemma_add_few(candidates: Seq<AnnotatedView>, one: AnnotatedView)
    ensures
        candidate::add_all_new(candidates, seq![one]) == candidate::add_new(candidates, one),
        candidate::add_all_new(candidates, Seq::empty()) == candidates,
{
    assert(seq![one].drop_last() =~= Seq::<AnnotatedView>::empty());
    reveal_with_fuel(candidate::add_all_new, 2);
}

/// Two candidates offered are added one after the other.
proof fn lemma_add_two(candidates: Seq<AnnotatedView>, first: AnnotatedView, second: AnnotatedView)
    ensures
        candidate::add_all_new(candidates, seq![first, second]) == candidate::add_new(
            candidate::add_new(candidates, first),
            second,
        ),
        candidate::add_all_new(candidates, Seq::empty()) == candidates,
{
    assert(seq![first, second].drop_last() =~= seq![first]);
    lemma_add_few(candidates, first);
}

/// Force learned candidates into a list under construction.
fn push_learned(builder: &mut CandidateBuilder, learned: Vec<Candidate>, reading: &str)
    ensures
        final(builder)@ == old(builder)@ + all_as_learned(text::views(learned@), reading@),
{
    let ghost start = builder@;
    let ghost all = all_as_learned(text::views(learned@), reading@);
    assert(start + all.take(0) =~= start);
    for one in it: learned
        invariant
            it.seq() == learned@,
            all == all_as_learned(text::views(learned@), reading@),
            builder@ == start + all.take(it.index()),
    {
        // An exact match has the reading under conversion: no need to say so.
        let own = match one.reading {
            Some(own) => if same_text(own.as_str(), reading) {
                None
            } else {
                Some(own)
            },
            None => None,
        };
        builder.push_force(
            AnnotatedCandidate::new(one.text, CandidateSource::Learning).with_reading(own),
        );
        assert(builder@ =~= start + all.take(it.index() + 1));
    }
    assert(all.take(all.len() as int) =~= all);
}

/// Words of the user dictionary, and all others, each in order.
fn split_words(words: Vec<AnnotatedCandidate>) -> (parts: (
    Vec<AnnotatedCandidate>,
    Vec<AnnotatedCandidate>,
))
    ensures
        text::views(parts.0@) == text::views(words@).filter(of_user()),
        text::views(parts.1@) == text::views(words@).filter(not_of_user()),
{
    let mut users: Vec<AnnotatedCandidate> = Vec::new();
    let mut others: Vec<AnnotatedCandidate> = Vec::new();
    let ghost all = text::views(words@);
    proof {
        text::lemma_filter_ends(all, of_user());
        text::lemma_filter_ends(all, not_of_user());
        assert(text::views(users@) =~= all.take(0).filter(of_user()));
        assert(text::views(others@) =~= all.take(0).filter(not_of_user()));
    }
    for word in it: words
        invariant
            it.seq() == words@,
            all == text::views(words@),
            text::views(users@) == all.take(it.index()).filter(of_user()),
            text::views(others@) == all.take(it.index()).filter(not_of_user()),
    {
        let ghost before_user = text::views(users@);
        let ghost before_others = text::views(others@);
        proof {
            text::lemma_filter_step(all, of_user(), it.index());
            text::lemma_filter_step(all, not_of_user(), it.index());
        }
        if word.source == CandidateSource::UserDictionary {
            users.push(word);
            assert(text::views(users@) =~= before_user.push(word@));
        } else {
            others.push(word);
            assert(text::views(others@) =~= before_others.push(word@));
        }
    }
    proof {
        text::lemma_filter_ends(all, of_user());
    }
    (users, others)
}

/// Texts of one source as candidates.
pub(crate) fn plain_candidates(texts: Vec<String>, source: CandidateSource) -> (candidates: Vec<
    AnnotatedCandidate,
>)
    ensures
        text::views(candidates@) == all_plain(text::views(texts@), source),
{
    let mut candidates: Vec<AnnotatedCandidate> = Vec::new();
    for text in it: texts
        invariant
            it.seq() == texts@,
            candidates@.len() == it.index(),
            forall|j: int|
                0 <= j < it.index() ==> (#[trigger] candidates@[j])@ == candidate::plain(
                    texts@[j]@,
                    source,
                ),
    {
        candidates.push(AnnotatedCandidate::new(text, source));
    }
    assert(text::views(candidates@) =~= all_plain(text::views(texts@), source));
    candidates
}

/// Rewritten texts as candidates.
fn output_candidates(outputs: Vec<RewriteOutput>, source: CandidateSource) -> (candidates: Vec<
    AnnotatedCandidate,
>)
    ensures
        text::views(candidates@) == all_rewritten(text::views(outputs@), source),
{
    let mut candidates: Vec<AnnotatedCandidate> = Vec::new();
    let ghost all = all_rewritten(text::views(outputs@), source);
    for output in it: outputs
        invariant
            it.seq() == outputs@,
            all == all_rewritten(text::views(outputs@), source),
            candidates@.len() == it.index(),
            forall|j: int| 0 <= j < it.index() ==> (#[trigger] candidates@[j])@ == all[j],
    {
        candidates.push(
            AnnotatedCandidate::new(output.text, source).with_description(output.description),
        );
    }
    assert(text::views(candidates@) =~= all);
    candidates
}

/// Insert the dates that are new after the first candidate of the model.
pub fn insert_dates(
    candidates: Vec<AnnotatedCandidate>,
    dates: Vec<RewriteOutput>,
) -> (result: Vec<AnnotatedCandidate>)
    ensures
        text::views(result@) == with_dates(text::views(candidates@), text::views(dates@)),
{
    let ghost old_list = text::views(candidates@);
    let ghost all = text::views(dates@);
    let ghost p = new_to(old_list);
    let mut fresh: Vec<RewriteOutput> = Vec::new();
    proof {
        text::lemma_filter_ends(all, p);
        assert(text::views(fresh@) =~= all.take(0).filter(p));
    }
    for date in it: dates
        invariant
            it.seq() == dates@,
            all == text::views(dates@),
            old_list == text::views(candidates@),
            p == new_to(old_list),
            text::views(fresh@) == all.take(it.index()).filter(p),
    {
        let ghost before = text::views(fresh@);
        proof {
            text::lemma_filter_step(all, p, it.index());
        }
        if !any_has_text(&candidates, date.text.as_str()) {
            fresh.push(date);
            assert(text::views(fresh@) =~= before.push(date@));
        }
    }
    proof {
        text::lemma_filter_ends(all, p);
    }
    let at = date_insert_index(&candidates);
    let mut result = candidates;
    let mut rest = result.split_off(at);
    let mut inserted = output_candidates(fresh, CandidateSource::Date);
    result.append(&mut inserted);
    result.append(&mut rest);
    assert(text::views(result@) =~= with_dates(old_list, all));
    result
}

} // verus!
