//! Candidates in the configured width.

use vstd::prelude::*;

use crate::candidate;
use crate::candidate::{
    into_candidates, AnnotatedCandidate, AnnotatedView, Candidate, CandidateList, CandidateView,
    ListView,
};
use crate::engine::{EngineView, InputMethodEngine};
use crate::kana;
use crate::kana::{to_fullwidth, to_halfwidth};
use crate::state::CharWidth;
use crate::text;

verus! {

/// A text in a given width.
pub open spec fn in_width(text: Seq<char>, width: CharWidth) -> Seq<char> {
    match width {
        CharWidth::AsIs => text,
        CharWidth::Half => kana::halfwidth_text(text),
        CharWidth::Full => kana::fullwidth_text(text),
    }
}

/// Candidates with their texts in a given width.
pub open spec fn all_in_width(candidates: Seq<CandidateView>, width: CharWidth) -> Seq<
    CandidateView,
> {
    Seq::new(
        candidates.len(),
        |i: int| CandidateView { text: in_width(candidates[i].text, width), ..candidates[i] },
    )
}

impl EngineView {
    /// The list that shows candidates in the configured width.
    pub open spec fn list_of(self, candidates: Seq<CandidateView>) -> ListView {
        candidate::fresh_list(all_in_width(candidates, self.config.width))
    }

    /// The list that shows the candidates for a reading.
    pub open spec fn conversion_list(
        self,
        candidates: Seq<AnnotatedView>,
        reading: Seq<char>,
    ) -> ListView {
        self.list_of(candidate::window_candidates(candidates, reading))
    }
}

impl InputMethodEngine {
    /// The list that shows candidates in the configured width.
    pub fn settle_candidates(&self, candidates: Vec<Candidate>) -> (list: CandidateList)
        ensures
            list@ == self@.list_of(text::views(candidates@)),
    {
        let mut settled: Vec<Candidate> = Vec::new();
        let ghost all = all_in_width(text::views(candidates@), self@.config.width);
        for one in it: candidates
            invariant
                it.seq() == candidates@,
                all == all_in_width(text::views(candidates@), self@.config.width),
                settled@.len() == it.index(),
                forall|j: int| 0 <= j < it.index() ==> (#[trigger] settled@[j])@ == all[j],
        {
            let text = match self.config.width {
                CharWidth::AsIs => one.text,
                CharWidth::Half => to_halfwidth(one.text.as_str()),
                CharWidth::Full => to_fullwidth(one.text.as_str()),
            };
            settled.push(
                Candidate {
                    text,
                    reading: one.reading,
                    source: one.source,
                    description: one.description,
                },
            );
        }
        assert(text::views(settled@) =~= all);
        CandidateList::new(settled)
    }

    /// Map builder output to the public `CandidateList` shown in the
    /// conversion window, settled at the configured width.
    pub fn to_conversion_candidate_list(
        &self,
        candidates: Vec<AnnotatedCandidate>,
        reading: &str,
    ) -> (list: CandidateList)
        ensures
            list@ == self@.conversion_list(text::views(candidates@), reading@),
            list@.wf(),
    {
        self.settle_candidates(into_candidates(candidates, reading))
    }
}

} // verus!
