//! Conversion candidates, and the list that the candidate window shows.

use vstd::prelude::*;

use crate::kana;
use crate::kana::{is_pure_full_katakana, is_pure_half_katakana, is_pure_hiragana};
use crate::text;
use crate::text::{copy_opt, same_text};

verus! {

/// Where a candidate comes from.
#[derive(Clone, Copy, PartialEq, Eq, Structural, Debug)]
pub enum CandidateSource {
    Learning,
    UserDictionary,
    Model,
    Dictionary,
    Fallback,
    Rewriter,
    Date,
}

/// A candidate of the candidate window.
#[derive(Debug)]
pub struct Candidate {
    pub text: String,
    pub reading: Option<String>,
    pub source: Option<CandidateSource>,
    pub description: Option<String>,
}

/// A candidate as texts.
#[verifier::ext_equal]
pub struct CandidateView {
    pub text: Seq<char>,
    pub reading: Option<Seq<char>>,
    pub source: Option<CandidateSource>,
    pub description: Option<Seq<char>>,
}

impl View for Candidate {
    type V = CandidateView;

    open spec fn view(&self) -> CandidateView {
        CandidateView {
            text: self.text@,
            reading: text::opt_view(self.reading),
            source: self.source,
            description: text::opt_view(self.description),
        }
    }
}

impl Clone for Candidate {
    fn clone(&self) -> (copy: Self)
        ensures
            copy@ == self@,
    {
        Candidate {
            text: self.text.clone(),
            reading: copy_opt(&self.reading),
            source: self.source,
            description: copy_opt(&self.description),
        }
    }
}

impl Candidate {
    /// Whether the candidate can be removed from the learning history: it came
    /// from there.
    pub fn is_deletable(&self) -> (deletable: bool)
        ensures
            deletable == (self@.source == Some(CandidateSource::Learning)),
    {
        match self.source {
            Some(CandidateSource::Learning) => true,
            _ => false,
        }
    }
}

/// A candidate on its way into a list: its source is known, and its reading is
/// given only where it is not the reading under conversion.
#[derive(Debug)]
pub struct AnnotatedCandidate {
    pub text: String,
    pub source: CandidateSource,
    pub reading: Option<String>,
    pub description: Option<String>,
}

/// An annotated candidate as texts.
#[verifier::ext_equal]
pub struct AnnotatedView {
    pub text: Seq<char>,
    pub source: CandidateSource,
    pub reading: Option<Seq<char>>,
    pub description: Option<Seq<char>>,
}

/// A candidate with a text and a source alone.
pub open spec fn plain(text: Seq<char>, source: CandidateSource) -> AnnotatedView {
    AnnotatedView { text, source, reading: None, description: None }
}

impl AnnotatedView {
    /// The candidate for the window, when `reading` was converted.
    pub open spec fn candidate(self, reading: Seq<char>) -> CandidateView {
        CandidateView {
            text: self.text,
            reading: Some(
                match self.reading {
                    Some(own) => own,
                    None => reading,
                },
            ),
            source: Some(self.source),
            description: self.description,
        }
    }
}

impl View for AnnotatedCandidate {
    type V = AnnotatedView;

    open spec fn view(&self) -> AnnotatedView {
        AnnotatedView {
            text: self.text@,
            source: self.source,
            reading: text::opt_view(self.reading),
            description: text::opt_view(self.description),
        }
    }
}

impl AnnotatedCandidate {
    /// A candidate with a text and a source.
    pub fn new(text: String, source: CandidateSource) -> (candidate: Self)
        ensures
            candidate@ == plain(text@, source),
    {
        AnnotatedCandidate { text, source, reading: None, description: None }
    }

    /// The same candidate with a reading of its own.
    pub fn with_reading(self, reading: Option<String>) -> (candidate: Self)
        ensures
            candidate@ == (AnnotatedView { reading: text::opt_view(reading), ..self@ }),
    {
        AnnotatedCandidate {
            text: self.text,
            source: self.source,
            reading,
            description: self.description,
        }
    }

    /// The same candidate with a description.
    pub fn with_description(self, description: Option<String>) -> (candidate: Self)
        ensures
            candidate@ == (AnnotatedView { description: text::opt_view(description), ..self@ }),
    {
        AnnotatedCandidate {
            text: self.text,
            source: self.source,
            reading: self.reading,
            description,
        }
    }

    /// The candidate for the window, when `reading` was converted.
    pub fn into_candidate(self, reading: &str) -> (candidate: Candidate)
        ensures
            candidate@ == self@.candidate(reading@),
    {
        let own = match self.reading {
            Some(own) => own,
            None => reading.to_owned(),
        };
        Candidate {
            text: self.text,
            reading: Some(own),
            source: Some(self.source),
            description: self.description,
        }
    }
}

/// The candidates for the window, when `reading` was converted.
pub open spec fn window_candidates(
    candidates: Seq<AnnotatedView>,
    reading: Seq<char>,
) -> Seq<CandidateView> {
    Seq::new(candidates.len(), |i: int| candidates[i].candidate(reading))
}

/// The candidates for the window, when `reading` was converted.
pub fn into_candidates(candidates: Vec<AnnotatedCandidate>, reading: &str) -> (shown: Vec<
    Candidate,
>)
    ensures
        text::views(shown@) == window_candidates(text::views(candidates@), reading@),
{
    let mut shown: Vec<Candidate> = Vec::new();
    for candidate in it: candidates
        invariant
            it.seq() == candidates@,
            shown@.len() == it.index(),
            forall|j: int|
                0 <= j < it.index() ==> (#[trigger] shown@[j])@ == candidates@[j]@.candidate(
                    reading@,
                ),
    {
        shown.push(candidate.into_candidate(reading));
    }
    assert(text::views(shown@) =~= window_candidates(text::views(candidates@), reading@));
    shown
}

/// Whether a candidate has a given text.
pub open spec fn with_text(text: Seq<char>) -> spec_fn(CandidateView) -> bool {
    |candidate: CandidateView| candidate.text == text
}

/// Whether one of the candidates has a given text.
pub open spec fn has_text(candidates: Seq<AnnotatedView>, text: Seq<char>) -> bool {
    exists|i: int| 0 <= i < candidates.len() && (#[trigger] candidates[i]).text == text
}

/// Whether one of the candidates has a given text.
pub fn any_has_text(candidates: &Vec<AnnotatedCandidate>, text: &str) -> (found: bool)
    ensures
        found == has_text(text::views(candidates@), text@),
{
    let ghost seen = text::views(candidates@);
    for i in 0..candidates.len()
        invariant
            seen == text::views(candidates@),
            forall|j: int| 0 <= j < i ==> (#[trigger] seen[j]).text != text@,
    {
        if same_text(candidates[i].text.as_str(), text) {
            assert(seen[i as int].text == text@);
            return true;
        }
    }
    false
}

/// Whether a candidate comes from the model.
pub open spec fn from_model() -> spec_fn(AnnotatedView) -> bool {
    |candidate: AnnotatedView| candidate.source == CandidateSource::Model
}

/// Where date candidates go: right after the first candidate of the model, or
/// after the top candidate where there is none of the model.
pub open spec fn date_position(candidates: Seq<AnnotatedView>) -> int {
    match text::find_first(candidates, from_model()) {
        Some(i) => i + 1,
        None => if candidates.len() == 0 {
            0
        } else {
            1
        },
    }
}

/// Index at which date candidates are inserted: right after the first model
/// candidate so they land on the first page rather than in the rewriter tail.
/// Falls back to just after the top candidate when no model candidate exists.
pub fn date_insert_index(candidates: &Vec<AnnotatedCandidate>) -> (at: usize)
    ensures
        at == date_position(text::views(candidates@)),
        at <= candidates@.len(),
{
    let ghost seen = text::views(candidates@);
    for i in 0..candidates.len()
        invariant
            seen == text::views(candidates@),
            forall|j: int| 0 <= j < i ==> !from_model()(#[trigger] seen[j]),
    {
        if candidates[i].source == CandidateSource::Model {
            proof {
                assert(from_model()(seen[i as int]));
                text::lemma_find_first_is(seen, from_model(), i as int);
            }
            return i + 1;
        }
        assert(!from_model()(seen[i as int]));
    }
    proof {
        text::lemma_find_first_none(seen, from_model());
    }
    if candidates.len() == 0 {
        0
    } else {
        1
    }
}

/// The label of a text of one kana script.
pub open spec fn script_label(text: Seq<char>) -> Option<Seq<char>> {
    if kana::pure_hiragana(text) {
        Some("[全]ひらがな"@)
    } else if kana::pure_full_katakana(text) {
        Some("[全]カタカナ"@)
    } else if kana::pure_half_katakana(text) {
        Some("[半]カタカナ"@)
    } else {
        None
    }
}

/// Mozc-style width/script annotation for a pure-kana candidate, or `None`
/// if the text mixes scripts or contains kanji/punctuation. Used to label
/// `あ` / `ア` / `ｱ` candidates in the conversion list.
pub fn width_annotation(text: &str) -> (label: Option<&'static str>)
    ensures
        match label {
            Some(label) => script_label(text@) == Some(label@),
            None => script_label(text@) is None,
        },
{
    if is_pure_hiragana(text) {
        Some("[全]ひらがな")
    } else if is_pure_full_katakana(text) {
        Some("[全]カタカナ")
    } else if is_pure_half_katakana(text) {
        Some("[半]カタカナ")
    } else {
        None
    }
}

/// Candidates with one more at the end, unless its text is already there.
pub open spec fn add_new(candidates: Seq<AnnotatedView>, one: AnnotatedView) -> Seq<AnnotatedView> {
    if has_text(candidates, one.text) {
        candidates
    } else {
        candidates.push(one)
    }
}

/// Candidates with more added in order, each only if its text is not there yet.
pub open spec fn add_all_new(
    candidates: Seq<AnnotatedView>,
    more: Seq<AnnotatedView>,
) -> Seq<AnnotatedView>
    decreases more.len(),
{
    if more.len() == 0 {
        candidates
    } else {
        add_new(add_all_new(candidates, more.drop_last()), more.last())
    }
}

/// No two candidates have the same text.
pub open spec fn distinct_texts(candidates: Seq<AnnotatedView>) -> bool {
    forall|i: int, j: int|
        0 <= i < j < candidates.len() ==> (#[trigger] candidates[i]).text != (
        #[trigger] candidates[j]).text
}

/// Adding only new texts keeps what is there, in place, and adds no text that is
/// there already; every text offered is there afterwards, and nothing else is.
pub proof fn lemma_add_all_new(candidates: Seq<AnnotatedView>, more: Seq<AnnotatedView>)
    ensures
        candidates.is_prefix_of(add_all_new(candidates, more)),
        forall|j: int, k: int|
            0 <= j < k < add_all_new(candidates, more).len() && candidates.len() <= k ==> (
            #[trigger] add_all_new(candidates, more)[j]).text != (#[trigger] add_all_new(
                candidates,
                more,
            )[k]).text,
        distinct_texts(candidates) ==> distinct_texts(add_all_new(candidates, more)),
        forall|i: int|
            0 <= i < more.len() ==> has_text(
                add_all_new(candidates, more),
                (#[trigger] more[i]).text,
            ),
        forall|k: int|
            candidates.len() <= k < add_all_new(candidates, more).len() ==> more.contains(
                #[trigger] add_all_new(candidates, more)[k],
            ),
    decreases more.len(),
{
    let all = add_all_new(candidates, more);
    if more.len() == 0 {
        assert(candidates =~= all.subrange(0, candidates.len() as int));
    } else {
        let init = more.drop_last();
        let fewer = add_all_new(candidates, init);
        lemma_add_all_new(candidates, init);
        assert(candidates =~= all.subrange(0, candidates.len() as int)) by {
            assert(candidates =~= fewer.subrange(0, candidates.len() as int));
        }
        assert forall|j: int, k: int|
            0 <= j < k < all.len() && candidates.len() <= k implies (#[trigger] all[j]).text != (
        #[trigger] all[k]).text by {
            assert(fewer[j] == all[j]);
            if k < fewer.len() {
                assert(fewer[k] == all[k]);
            }
        }
        if distinct_texts(candidates) {
            assert forall|i: int, j: int| 0 <= i < j < all.len() implies (
            #[trigger] all[i]).text != (#[trigger] all[j]).text by {
                if j < candidates.len() {
                    assert(candidates[i] == all[i] && candidates[j] == all[j]);
                }
            }
        }
        assert forall|i: int| 0 <= i < more.len() implies has_text(
            all,
            (#[trigger] more[i]).text,
        ) by {
            if i < init.len() {
                assert(has_text(fewer, init[i].text));
                let k = choose|k: int| 0 <= k < fewer.len() && (#[trigger] fewer[k]).text
                    == init[i].text;
                assert(all[k] == fewer[k]);
            } else if !has_text(fewer, more.last().text) {
                assert(all[fewer.len() as int].text == more[i].text);
            }
        }
        assert forall|k: int| candidates.len() <= k < all.len() implies more.contains(
            #[trigger] all[k],
        ) by {
            if k < fewer.len() {
                assert(fewer[k] == all[k]);
                assert(init.contains(fewer[k]));
                let i = choose|i: int| 0 <= i < init.len() && init[i] == fewer[k];
                assert(more[i] == all[k]);
            } else {
                assert(more[more.len() - 1] == all[k]);
            }
        }
    }
}

/// Candidates with more added in order, each only if its text is not there yet,
/// until there are `most`.
pub open spec fn add_new_up_to(
    candidates: Seq<AnnotatedView>,
    more: Seq<AnnotatedView>,
    most: int,
) -> Seq<AnnotatedView> {
    text::at_most(
        add_all_new(candidates, more),
        if most < candidates.len() {
            candidates.len() as int
        } else {
            most
        },
    )
}

/// Add candidates in order, each only if its text is not there yet, until there
/// are `most`.
pub fn push_new_up_to(
    candidates: &mut Vec<AnnotatedCandidate>,
    more: Vec<AnnotatedCandidate>,
    most: usize,
)
    ensures
        text::views(final(candidates)@) == add_new_up_to(
            text::views(old(candidates)@),
            text::views(more@),
            most as int,
        ),
        final(candidates)@.len() >= old(candidates)@.len(),
        final(candidates)@.len() <= most || final(candidates)@.len() == old(candidates)@.len(),
{
    let ghost start = text::views(candidates@);
    let ghost offered = text::views(more@);
    let ghost bound = if most < start.len() {
        start.len() as int
    } else {
        most as int
    };
    assert(offered.take(0) =~= Seq::<AnnotatedView>::empty());
    assert(text::at_most(start, bound) =~= start);
    for candidate in it: more
        invariant
            it.seq() == more@,
            offered == text::views(more@),
            start.len() <= bound,
            bound == most || (most < start.len() && bound == start.len()),
            text::views(candidates@) == text::at_most(
                add_all_new(start, offered.take(it.index())),
                bound,
            ),
            start.len() <= candidates@.len() <= bound,
    {
        let ghost before = text::views(candidates@);
        let ghost reached = add_all_new(start, offered.take(it.index()));
        let ghost grown = add_all_new(start, offered.take(it.index() + 1));
        assert(offered.take(it.index() + 1).drop_last() =~= offered.take(it.index()));
        assert(grown == add_new(reached, candidate@));
        if candidates.len() < most {
            assert(before == reached);
            if !any_has_text(candidates, candidate.text.as_str()) {
                candidates.push(candidate);
                assert(text::views(candidates@) =~= before.push(candidate@));
            }
            assert(text::views(candidates@) =~= text::at_most(grown, bound));
        } else {
            assert(text::views(candidates@) =~= text::at_most(grown, bound));
        }
    }
    assert(offered.take(offered.len() as int) =~= offered);
}

/// Helper for building a deduplicated list of conversion candidates.
///
/// Two push paths exist: `push` dedups by text (skips duplicates), and
/// `push_force` always inserts (used for learning candidates that should
/// appear at the top even if a later source re-emits the same text).
pub struct CandidateBuilder {
    pub candidates: Vec<AnnotatedCandidate>,
}

impl View for CandidateBuilder {
    type V = Seq<AnnotatedView>;

    open spec fn view(&self) -> Seq<AnnotatedView> {
        text::views(self.candidates@)
    }
}

impl CandidateBuilder {
    /// A builder without candidates.
    pub fn new() -> (builder: Self)
        ensures
            builder@ == Seq::<AnnotatedView>::empty(),
    {
        let builder = CandidateBuilder { candidates: Vec::new() };
        assert(builder@ =~= Seq::<AnnotatedView>::empty());
        builder
    }

    /// Push a candidate if its text hasn't been seen yet.
    pub fn push(&mut self, candidate: AnnotatedCandidate)
        ensures
            final(self)@ == add_new(old(self)@, candidate@),
    {
        if !any_has_text(&self.candidates, candidate.text.as_str()) {
            self.candidates.push(candidate);
            assert(self@ =~= old(self)@.push(candidate@));
        }
    }

    /// Push a candidate unconditionally, so later dedup'd inserts of its text
    /// skip it. Use only for sources that should win over duplicates from
    /// later steps (e.g. learning cache).
    pub fn push_force(&mut self, candidate: AnnotatedCandidate)
        ensures
            final(self)@ == old(self)@.push(candidate@),
    {
        self.candidates.push(candidate);
        assert(self@ =~= old(self)@.push(candidate@));
    }

    /// Push candidates in order, each if its text hasn't been seen yet.
    pub fn push_all(&mut self, more: Vec<AnnotatedCandidate>)
        ensures
            final(self)@ == add_all_new(old(self)@, text::views(more@)),
    {
        let ghost start = self@;
        let ghost offered = text::views(more@);
        assert(offered.take(0) =~= Seq::<AnnotatedView>::empty());
        for candidate in it: more
            invariant
                it.seq() == more@,
                offered == text::views(more@),
                self@ == add_all_new(start, offered.take(it.index())),
        {
            self.push(candidate);
            assert(offered.take(it.index() + 1).drop_last() =~= offered.take(it.index()));
        }
        assert(offered.take(offered.len() as int) =~= offered);
    }

    /// Whether there is no candidate yet.
    pub fn is_empty(&self) -> (empty: bool)
        ensures
            empty == (self@.len() == 0),
    {
        self.candidates.len() == 0
    }

    /// The candidates, in order.
    pub fn into_candidates(self) -> (candidates: Vec<AnnotatedCandidate>)
        ensures
            text::views(candidates@) == self@,
    {
        self.candidates
    }
}

/// How many candidates a page of the window shows.
pub const DEFAULT_PAGE_SIZE: usize = 9;

/// The candidates of the window, with one of them selected.
#[derive(Debug)]
pub struct CandidateList {
    pub candidates: Vec<Candidate>,
    pub cursor: usize,
}

/// A candidate list as a sequence and the position of the selected candidate.
#[verifier::ext_equal]
pub struct ListView {
    pub candidates: Seq<CandidateView>,
    pub cursor: int,
}

/// A list with its first candidate selected.
pub open spec fn fresh_list(candidates: Seq<CandidateView>) -> ListView {
    ListView { candidates, cursor: 0 }
}

impl ListView {
    /// The cursor stands on a candidate, or at the start of an empty list.
    pub open spec fn wf(self) -> bool {
        0 <= self.cursor && (self.cursor < self.candidates.len() || self.cursor == 0)
    }

    /// The selected candidate.
    pub open spec fn selected(self) -> Option<CandidateView> {
        if self.cursor < self.candidates.len() {
            Some(self.candidates[self.cursor])
        } else {
            None
        }
    }

    /// The text of the selected candidate, or `other` where there is none.
    pub open spec fn selected_text_or(self, other: Seq<char>) -> Seq<char> {
        match self.selected() {
            Some(candidate) => candidate.text,
            None => other,
        }
    }

    /// The reading of the selected candidate.
    pub open spec fn selected_reading(self) -> Option<Seq<char>> {
        match self.selected() {
            Some(candidate) => candidate.reading,
            None => None,
        }
    }

    /// The list with the candidate at `index` selected; unchanged where there
    /// is none.
    pub open spec fn select(self, index: int) -> ListView {
        if 0 <= index < self.candidates.len() {
            ListView { cursor: index, ..self }
        } else {
            self
        }
    }

    /// The list with the first candidate of a given text selected; unchanged
    /// where none has it.
    pub open spec fn select_text(self, text: Seq<char>) -> ListView {
        match text::find_first(self.candidates, with_text(text)) {
            Some(i) => ListView { cursor: i, ..self },
            None => self,
        }
    }

    /// Where the page of the selected candidate starts.
    pub open spec fn page_start(self) -> int {
        self.cursor - self.cursor % (DEFAULT_PAGE_SIZE as int)
    }

    /// The number of the page of the selected candidate, from 1.
    pub open spec fn page(self) -> int {
        self.cursor / (DEFAULT_PAGE_SIZE as int) + 1
    }

    /// The number of pages; an empty list has one.
    pub open spec fn pages(self) -> int {
        if self.candidates.len() == 0 {
            1
        } else {
            (self.candidates.len() - 1) / (DEFAULT_PAGE_SIZE as int) + 1
        }
    }

    /// The list with the next candidate selected, the first after the last.
    pub open spec fn next(self) -> ListView {
        if self.cursor + 1 < self.candidates.len() {
            ListView { cursor: self.cursor + 1, ..self }
        } else {
            ListView { cursor: 0, ..self }
        }
    }

    /// The list with the previous candidate selected, the last before the first.
    pub open spec fn prev(self) -> ListView {
        if self.candidates.len() == 0 {
            self
        } else if self.cursor == 0 {
            ListView { cursor: self.candidates.len() - 1, ..self }
        } else {
            ListView { cursor: self.cursor - 1, ..self }
        }
    }

    /// The list with the first candidate of the next page selected; unchanged on
    /// the last page.
    pub open spec fn next_page(self) -> ListView {
        if self.page_start() + DEFAULT_PAGE_SIZE < self.candidates.len() {
            ListView { cursor: self.page_start() + DEFAULT_PAGE_SIZE, ..self }
        } else {
            self
        }
    }

    /// The list with the first candidate of the previous page selected; unchanged
    /// on the first page.
    pub open spec fn prev_page(self) -> ListView {
        if self.page_start() >= DEFAULT_PAGE_SIZE {
            ListView { cursor: self.page_start() - DEFAULT_PAGE_SIZE, ..self }
        } else {
            self
        }
    }

    /// The list with the cursor at `cursor`, or on the last candidate where the
    /// list is shorter.
    pub open spec fn clamp(self, cursor: int) -> ListView {
        if cursor < self.candidates.len() {
            ListView { cursor, ..self }
        } else if self.candidates.len() == 0 {
            ListView { cursor: 0, ..self }
        } else {
            ListView { cursor: self.candidates.len() - 1, ..self }
        }
    }
}

impl View for CandidateList {
    type V = ListView;

    open spec fn view(&self) -> ListView {
        ListView { candidates: text::views(self.candidates@), cursor: self.cursor as int }
    }
}

impl Clone for CandidateList {
    fn clone(&self) -> (copy: Self)
        ensures
            copy@ == self@,
    {
        let mut candidates: Vec<Candidate> = Vec::new();
        for i in 0..self.candidates.len()
            invariant
                candidates@.len() == i,
                forall|j: int|
                    0 <= j < i ==> (#[trigger] candidates@[j])@ == self.candidates@[j]@,
        {
            candidates.push(self.candidates[i].clone());
        }
        let copy = CandidateList { candidates, cursor: self.cursor };
        assert(copy@ =~= self@);
        copy
    }
}

impl CandidateList {
    /// A list with its first candidate selected.
    pub fn new(candidates: Vec<Candidate>) -> (list: Self)
        ensures
            list@ == fresh_list(text::views(candidates@)),
    {
        CandidateList { candidates, cursor: 0 }
    }

    /// The candidates, in order.
    pub fn candidates(&self) -> (candidates: &Vec<Candidate>)
        ensures
            text::views(candidates@) == self@.candidates,
    {
        &self.candidates
    }

    /// Whether there is no candidate.
    pub fn is_empty(&self) -> (empty: bool)
        ensures
            empty == (self@.candidates.len() == 0),
    {
        self.candidates.len() == 0
    }

    /// The position of the selected candidate.
    pub fn cursor(&self) -> (cursor: usize)
        ensures
            cursor == self@.cursor,
    {
        self.cursor
    }

    /// The selected candidate.
    pub fn selected(&self) -> (candidate: Option<&Candidate>)
        ensures
            match candidate {
                Some(candidate) => self@.selected() == Some(candidate@),
                None => self@.selected() is None,
            },
    {
        if self.cursor < self.candidates.len() {
            Some(&self.candidates[self.cursor])
        } else {
            None
        }
    }

    /// The text of the selected candidate, or `other` where there is none.
    pub fn selected_text_or(&self, other: &str) -> (text: String)
        ensures
            text@ == self@.selected_text_or(other@),
    {
        match self.selected() {
            Some(candidate) => candidate.text.clone(),
            None => other.to_owned(),
        }
    }

    /// The reading of the selected candidate.
    pub fn selected_reading(&self) -> (reading: Option<String>)
        ensures
            text::opt_view(reading) == self@.selected_reading(),
    {
        match self.selected() {
            Some(candidate) => copy_opt(&candidate.reading),
            None => None,
        }
    }

    /// Select the candidate at `index`; false where there is none.
    pub fn select(&mut self, index: usize) -> (found: bool)
        ensures
            final(self)@ == old(self)@.select(index as int),
            found == (index < old(self)@.candidates.len()),
    {
        if index < self.candidates.len() {
            self.cursor = index;
            true
        } else {
            false
        }
    }

    /// Select the first candidate with a given text; false where none has it.
    pub fn select_text(&mut self, text: &str) -> (found: bool)
        ensures
            final(self)@ == old(self)@.select_text(text@),
            found == text::find_first(old(self)@.candidates, with_text(text@)) is Some,
    {
        let ghost seen = self@.candidates;
        let n = self.candidates.len();
        for i in 0..n
            invariant
                n == self.candidates@.len(),
                self@ == old(self)@,
                seen == self@.candidates,
                forall|j: int| 0 <= j < i ==> !with_text(text@)(#[trigger] seen[j]),
        {
            if same_text(self.candidates[i].text.as_str(), text) {
                proof {
                    assert(with_text(text@)(seen[i as int]));
                    text::lemma_find_first_is(seen, with_text(text@), i as int);
                }
                self.cursor = i;
                return true;
            }
            assert(!with_text(text@)(seen[i as int]));
        }
        proof {
            text::lemma_find_first_none(seen, with_text(text@));
        }
        false
    }

    /// Put the cursor at `cursor`, or on the last candidate where the list is
    /// shorter.
    pub fn set_cursor(&mut self, cursor: usize)
        ensures
            final(self)@ == old(self)@.clamp(cursor as int),
    {
        if cursor < self.candidates.len() {
            self.cursor = cursor;
        } else if self.candidates.len() == 0 {
            self.cursor = 0;
        } else {
            self.cursor = self.candidates.len() - 1;
        }
    }

    /// Select the next candidate, the first after the last; false where that is
    /// the same one.
    pub fn move_next(&mut self) -> (moved: bool)
        requires
            old(self)@.wf(),
        ensures
            final(self)@ == old(self)@.next(),
            moved == (final(self)@.cursor != old(self)@.cursor),
    {
        let before = self.cursor;
        if self.candidates.len() > 0 && before < self.candidates.len() - 1 {
            self.cursor = before + 1;
        } else {
            self.cursor = 0;
        }
        self.cursor != before
    }

    /// Select the previous candidate, the last before the first; false where that
    /// is the same one.
    pub fn move_prev(&mut self) -> (moved: bool)
        requires
            old(self)@.wf(),
        ensures
            final(self)@ == old(self)@.prev(),
            moved == (final(self)@.cursor != old(self)@.cursor),
    {
        let before = self.cursor;
        if self.candidates.len() == 0 {
            return false;
        }
        if before == 0 {
            self.cursor = self.candidates.len() - 1;
        } else {
            self.cursor = before - 1;
        }
        self.cursor != before
    }

    /// Select the first candidate of the next page; false on the last page.
    pub fn next_page(&mut self) -> (moved: bool)
        requires
            old(self)@.wf(),
        ensures
            final(self)@ == old(self)@.next_page(),
            moved == (final(self)@.cursor != old(self)@.cursor),
    {
        let start = self.cursor - self.cursor % DEFAULT_PAGE_SIZE;
        if self.candidates.len() > start && self.candidates.len() - start > DEFAULT_PAGE_SIZE {
            self.cursor = start + DEFAULT_PAGE_SIZE;
            true
        } else {
            false
        }
    }

    /// Select the first candidate of the previous page; false on the first page.
    pub fn prev_page(&mut self) -> (moved: bool)
        requires
            old(self)@.wf(),
        ensures
            final(self)@ == old(self)@.prev_page(),
            moved == (final(self)@.cursor != old(self)@.cursor),
    {
        let start = self.cursor - self.cursor % DEFAULT_PAGE_SIZE;
        if start >= DEFAULT_PAGE_SIZE {
            self.cursor = start - DEFAULT_PAGE_SIZE;
            true
        } else {
            false
        }
    }

    /// The number of the page of the selected candidate, from 1.
    pub fn page(&self) -> (page: usize)
        requires
            self@.wf(),
        ensures
            page == self@.page(),
    {
        self.cursor / DEFAULT_PAGE_SIZE + 1
    }

    /// The number of pages; an empty list has one.
    pub fn pages(&self) -> (pages: usize)
        ensures
            pages == self@.pages(),
    {
        if self.candidates.len() == 0 {
            1
        } else {
            (self.candidates.len() - 1) / DEFAULT_PAGE_SIZE + 1
        }
    }
}

/// Going to the next candidate and back selects the candidate that was selected.
pub proof fn law_next_then_prev(list: ListView)
    requires
        list.wf(),
    ensures
        list.next().prev() == list,
        list.prev().next() == list,
{
}

/// Every way to move the selection leaves it on a candidate, and leaves the
/// candidates as they are.
pub proof fn law_navigation_stays_in_list(list: ListView, index: int, text: Seq<char>)
    requires
        list.wf(),
        0 <= index,
    ensures
        list.next().wf() && list.next().candidates == list.candidates,
        list.prev().wf() && list.prev().candidates == list.candidates,
        list.next_page().wf() && list.next_page().candidates == list.candidates,
        list.prev_page().wf() && list.prev_page().candidates == list.candidates,
        list.select(index).wf() && list.select(index).candidates == list.candidates,
        list.clamp(index).wf() && list.clamp(index).candidates == list.candidates,
        list.select_text(text).wf() && list.select_text(text).candidates == list.candidates,
{
    text::lemma_find_first(list.candidates, with_text(text));
}

} // verus!
