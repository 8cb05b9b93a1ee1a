//! The parts of a conversion: moving from one to the next, and moving their
//! borders.

use vstd::prelude::*;
use vstd::string::StrSliceExecFns;

use crate::action;
use crate::action::EngineResult;
use crate::candidate;
use crate::conversion;
use crate::conversion::prefer;
use crate::engine::{EngineView, InputMethodEngine, Step};
use crate::state;
use crate::state::{ConvertedSegment, PieceView, StateView};
use crate::text;
use crate::text::{append, skip_chars, take_chars};

verus! {

impl EngineView {
    /// A part of the composition converted, with a preferred text selected.
    pub open spec fn segment_entered(
        self,
        reading: Seq<char>,
        preselect: Option<Seq<char>>,
    ) -> Step {
        if reading.len() == 0 {
            (self, action::taken(Seq::empty()))
        } else {
            match preselect {
                Some(preferred) => self.asked(reading).entered(
                    reading,
                    self.conversion_list(
                        conversion::with_preferred(self.segment_candidates(reading), preferred),
                        reading,
                    ).select_text(preferred),
                ),
                None => self.asked(reading).entered(
                    reading,
                    self.conversion_list(self.segment_candidates(reading), reading),
                ),
            }
        }
    }

    /// The part under conversion as the selection leaves it.
    pub open spec fn selected_piece(self) -> Option<PieceView> {
        match self.state {
            StateView::Conversion { candidates, reading, .. } => Some(
                PieceView {
                    text: candidates.selected_text_or(reading),
                    reading: match candidates.selected_reading() {
                        Some(own) => own,
                        None => reading,
                    },
                },
            ),
            _ => None,
        }
    }

    /// The tail, empty where there is none.
    pub open spec fn tail_text(self) -> Seq<char> {
        match self.tail {
            Some(tail) => tail,
            None => Seq::empty(),
        }
    }

    /// The selection confirmed, and the next part converted.
    pub open spec fn advanced(self) -> Step {
        if self.upcoming.len() == 0 && self.tail_text().len() == 0 {
            (self, action::taken(Seq::empty()))
        } else {
            match self.selected_piece() {
                None => (self, action::left_alone()),
                Some(piece) => if self.upcoming.len() > 0 {
                    EngineView {
                        confirmed: self.confirmed.push(piece),
                        upcoming: self.upcoming.drop_first(),
                        ..self
                    }.segment_entered(self.upcoming[0].reading, Some(self.upcoming[0].text))
                } else {
                    EngineView {
                        confirmed: self.confirmed.push(piece),
                        tail: None,
                        ..self
                    }.segment_entered(self.tail_text(), None)
                },
            }
        }
    }

    /// The part before converted again, and the selection kept for later.
    pub open spec fn returned(self) -> Step {
        if self.confirmed.len() == 0 {
            (self, action::taken(Seq::empty()))
        } else {
            EngineView {
                confirmed: self.confirmed.drop_last(),
                upcoming: match self.selected_piece() {
                    Some(piece) => self.upcoming.insert(0, piece),
                    None => self.upcoming,
                },
                ..self
            }.segment_entered(self.confirmed.last().reading, Some(self.confirmed.last().text))
        }
    }

    /// The parts after the conversion turned back into the tail.
    pub open spec fn dissolved(self) -> EngineView {
        if self.upcoming.len() == 0 {
            self
        } else {
            EngineView {
                upcoming: Seq::empty(),
                tail: Some(
                    text::concat(state::piece_readings(self.upcoming)) + self.tail_text(),
                ),
                ..self
            }
        }
    }

    /// The reading under conversion, empty where there is none.
    pub open spec fn reading_text(self) -> Seq<char> {
        match self.state.reading() {
            Some(reading) => reading,
            None => Seq::empty(),
        }
    }

    /// The last character of the reading moved to the tail.
    pub open spec fn shrunk(self) -> Step {
        let reading = self.reading_text();
        if reading.len() <= 1 {
            (self, action::taken(Seq::empty()))
        } else {
            EngineView {
                tail: Some(seq![reading.last()] + self.dissolved().tail_text()),
                ..self.dissolved()
            }.segment_entered(reading.drop_last(), None)
        }
    }

    /// The first character of the tail moved to the reading.
    pub open spec fn expanded(self) -> Step {
        let tail = self.dissolved().tail_text();
        if tail.len() == 0 {
            (self.dissolved(), action::taken(Seq::empty()))
        } else {
            EngineView {
                tail: if tail.len() > 1 {
                    Some(tail.drop_first())
                } else {
                    None
                },
                ..self.dissolved()
            }.segment_entered(self.reading_text().push(tail[0]), None)
        }
    }
}

/// The readings of converted parts, joined.
fn joined_readings(pieces: &Vec<ConvertedSegment>) -> (joined: String)
    ensures
        joined@ == text::concat(state::piece_readings(text::views(pieces@))),
{
    let mut joined = String::new();
    let ghost all = state::piece_readings(text::views(pieces@));
    assert(all.take(0) =~= Seq::<Seq<char>>::empty());
    for i in 0..pieces.len()
        invariant
            all == state::piece_readings(text::views(pieces@)),
            joined@ == text::concat(all.take(i as int)),
    {
        append(&mut joined, pieces[i].reading.as_str());
        assert(all.take(i + 1).drop_last() =~= all.take(i as int));
    }
    assert(all.take(all.len() as int) =~= all);
    joined
}

impl InputMethodEngine {
    /// Convert a part of the composition, with a preferred text selected.
    pub fn convert_segment_reading(&mut self, reading: &str, preselect: Option<&str>) -> (result:
        EngineResult)
        requires
            old(self)@.wf(),
        ensures
            (final(self)@, result@) == old(self)@.segment_entered(
                reading@,
                match preselect {
                    Some(preferred) => Some(preferred@),
                    None => None,
                },
            ),
            final(self)@.wf(),
    {
        if reading.is_empty() {
            return EngineResult::consumed();
        }
        let mut candidates = self.build_segment_conversion_candidates(reading);
        match preselect {
            Some(preferred) => {
                prefer(&mut candidates, preferred);
                let mut list = self.to_conversion_candidate_list(candidates, reading);
                proof {
                    candidate::law_navigation_stays_in_list(list@, 0, preferred@);
                }
                list.select_text(preferred);
                self.enter_conversion_state(reading, list)
            },
            None => {
                let list = self.to_conversion_candidate_list(candidates, reading);
                self.enter_conversion_state(reading, list)
            },
        }
    }

    /// The part under conversion as the selection leaves it.
    fn selected_piece(&self) -> (piece: Option<ConvertedSegment>)
        ensures
            text::opt_view(piece) == self@.selected_piece(),
    {
        match self.selected_conversion_info() {
            Some((text, own)) => {
                let reading = match own {
                    Some(own) => own,
                    None => match self.state.reading() {
                        Some(reading) => reading,
                        None => String::new(),
                    },
                };
                Some(ConvertedSegment { text, reading })
            },
            None => None,
        }
    }

    /// Confirm the selection, and convert the next part.
    pub fn advance_to_next_segment(&mut self) -> (result: EngineResult)
        requires
            old(self)@.wf(),
        ensures
            (final(self)@, result@) == old(self)@.advanced(),
            final(self)@.wf(),
    {
        let ghost e = self@;
        let has_upcoming = self.upcoming_segments.len() > 0;
        let has_tail = match &self.conversion_tail {
            Some(tail) => !tail.as_str().is_empty(),
            None => false,
        };
        if !has_upcoming && !has_tail {
            return EngineResult::consumed();
        }
        let piece = match self.selected_piece() {
            Some(piece) => piece,
            None => {
                return EngineResult::not_consumed();
            },
        };
        self.confirmed_segments.push(piece);
        assert(self@.confirmed =~= e.confirmed.push(piece@));
        if has_upcoming {
            let next = self.upcoming_segments.remove(0);
            assert(self@.upcoming =~= e.upcoming.drop_first());
            self.convert_segment_reading(next.reading.as_str(), Some(next.text.as_str()))
        } else {
            let tail = match self.conversion_tail.take() {
                Some(tail) => tail,
                None => String::new(),
            };
            self.convert_segment_reading(tail.as_str(), None)
        }
    }

    /// Keep the selection for later, and convert the part before again.
    pub fn return_to_prev_segment(&mut self) -> (result: EngineResult)
        requires
            old(self)@.wf(),
        ensures
            (final(self)@, result@) == old(self)@.returned(),
            final(self)@.wf(),
    {
        let ghost e = self@;
        let previous = match self.confirmed_segments.pop() {
            Some(previous) => previous,
            None => {
                return EngineResult::consumed();
            },
        };
        assert(self@.confirmed =~= e.confirmed.drop_last());
        if let Some(piece) = self.selected_piece() {
            self.upcoming_segments.insert(0, piece);
            assert(self@.upcoming =~= e.upcoming.insert(0, piece@));
        }
        self.convert_segment_reading(previous.reading.as_str(), Some(previous.text.as_str()))
    }

    /// Turn the parts after the conversion back into the tail.
    fn dissolve_upcoming_into_tail(&mut self)
        ensures
            final(self)@ == old(self)@.dissolved(),
            old(self)@.wf() ==> final(self)@.wf(),
    {
        if self.upcoming_segments.len() == 0 {
            return;
        }
        let mut reading = joined_readings(&self.upcoming_segments);
        if let Some(tail) = &self.conversion_tail {
            append(&mut reading, tail.as_str());
        }
        assert(reading@ =~= text::concat(state::piece_readings(old(self)@.upcoming))
            + old(self)@.tail_text());
        self.upcoming_segments.clear();
        self.conversion_tail = Some(reading);
        assert(self@ =~= old(self)@.dissolved());
    }

    /// Move the last character of the reading to the tail.
    pub fn shrink_conversion_range(&mut self) -> (result: EngineResult)
        requires
            old(self)@.wf(),
        ensures
            (final(self)@, result@) == old(self)@.shrunk(),
            final(self)@.wf(),
    {
        let ghost e = self@;
        let reading = match self.state.reading() {
            Some(reading) => reading,
            None => String::new(),
        };
        assert(reading@ =~= e.reading_text());
        let count = reading.as_str().unicode_len();
        if count <= 1 {
            return EngineResult::consumed();
        }
        self.dissolve_upcoming_into_tail();
        let shortened = take_chars(reading.as_str(), count - 1);
        let mut moved = skip_chars(reading.as_str(), count - 1);
        assert(shortened@ =~= reading@.drop_last());
        assert(moved@ =~= seq![reading@.last()]);
        if let Some(tail) = &self.conversion_tail {
            append(&mut moved, tail.as_str());
        }
        assert(moved@ =~= seq![reading@.last()] + e.dissolved().tail_text());
        self.conversion_tail = Some(moved);
        self.convert_segment_reading(shortened.as_str(), None)
    }

    /// Move the first character of the tail to the reading.
    pub fn expand_conversion_range(&mut self) -> (result: EngineResult)
        requires
            old(self)@.wf(),
        ensures
            (final(self)@, result@) == old(self)@.expanded(),
            final(self)@.wf(),
    {
        let ghost e = self@;
        self.dissolve_upcoming_into_tail();
        let tail = match &self.conversion_tail {
            Some(tail) => tail.clone(),
            None => String::new(),
        };
        assert(tail@ =~= e.dissolved().tail_text());
        if tail.as_str().is_empty() {
            return EngineResult::consumed();
        }
        let first = take_chars(tail.as_str(), 1);
        let remaining = skip_chars(tail.as_str(), 1);
        assert(remaining@ =~= tail@.drop_first());
        let mut reading = match self.state.reading() {
            Some(reading) => reading,
            None => String::new(),
        };
        assert(reading@ =~= e.reading_text());
        append(&mut reading, first.as_str());
        assert(reading@ =~= e.reading_text().push(tail@[0]));
        self.conversion_tail = if remaining.as_str().is_empty() {
            None
        } else {
            Some(remaining)
        };
        self.convert_segment_reading(reading.as_str(), None)
    }
}

} // verus!
