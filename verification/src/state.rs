//! The states of the engine.

use vstd::prelude::*;

use crate::candidate::{CandidateList, CandidateSource, ListView};
use crate::preedit::{Preedit, PreeditView};
use crate::text;

verus! {

/// What typed keys become.
#[derive(Clone, Copy, PartialEq, Eq, Structural, Debug)]
pub enum InputMode {
    Hiragana,
    Katakana,
    Alphabet,
    Emoji,
}

/// Whether a conversion looks at the learning history.
#[derive(Clone, Copy, PartialEq, Eq, Structural, Debug)]
pub enum LearningLookup {
    Use,
    Skip,
}

/// The way round the source filters.
#[derive(Clone, Copy, PartialEq, Eq, Structural, Debug)]
pub enum FilterDirection {
    Forward,
    Backward,
}

/// The width in which candidates are shown.
#[derive(Clone, Copy, PartialEq, Eq, Structural, Debug)]
pub enum CharWidth {
    AsIs,
    Half,
    Full,
}

/// A part of the composition that has been converted.
#[derive(Debug)]
pub struct ConvertedSegment {
    pub text: String,
    pub reading: String,
}

/// A converted part as texts.
#[verifier::ext_equal]
pub struct PieceView {
    pub text: Seq<char>,
    pub reading: Seq<char>,
}

impl View for ConvertedSegment {
    type V = PieceView;

    open spec fn view(&self) -> PieceView {
        PieceView { text: self.text@, reading: self.reading@ }
    }
}

impl Clone for ConvertedSegment {
    fn clone(&self) -> (copy: Self)
        ensures
            copy@ == self@,
    {
        ConvertedSegment { text: self.text.clone(), reading: self.reading.clone() }
    }
}

/// The texts of converted parts, in order.
pub open spec fn piece_texts(pieces: Seq<PieceView>) -> Seq<Seq<char>> {
    Seq::new(pieces.len(), |i: int| pieces[i].text)
}

/// The readings of converted parts, in order.
pub open spec fn piece_readings(pieces: Seq<PieceView>) -> Seq<Seq<char>> {
    Seq::new(pieces.len(), |i: int| pieces[i].reading)
}

/// Where the engine stands.
#[derive(Clone, Debug)]
pub enum InputState {
    /// Nothing is under composition.
    Empty,
    /// Text is typed and edited.
    Composing { preedit: Preedit },
    /// A reading is converted, and its candidates are shown.
    Conversion {
        preedit: Preedit,
        candidates: CandidateList,
        reading: String,
        filter: Option<CandidateSource>,
    },
}

/// The state as texts.
#[verifier::ext_equal]
pub enum StateView {
    Empty,
    Composing { preedit: PreeditView },
    Conversion {
        preedit: PreeditView,
        candidates: ListView,
        reading: Seq<char>,
        filter: Option<CandidateSource>,
    },
}

impl StateView {
    /// The source to which the candidates are narrowed.
    pub open spec fn filter(self) -> Option<CandidateSource> {
        match self {
            StateView::Conversion { filter, .. } => filter,
            _ => None,
        }
    }

    /// The candidates shown.
    pub open spec fn candidates(self) -> Option<ListView> {
        match self {
            StateView::Conversion { candidates, .. } => Some(candidates),
            _ => None,
        }
    }

    /// The reading under conversion.
    pub open spec fn reading(self) -> Option<Seq<char>> {
        match self {
            StateView::Conversion { reading, .. } => Some(reading),
            _ => None,
        }
    }

    /// The text and the reading of the selected candidate. An empty list stands
    /// for the raw reading.
    pub open spec fn selection(self) -> Option<(Seq<char>, Option<Seq<char>>)> {
        match self {
            StateView::Conversion { candidates, reading, .. } => Some(
                (candidates.selected_text_or(reading), candidates.selected_reading()),
            ),
            _ => None,
        }
    }

    /// The selected candidate came from the learning history.
    pub open spec fn selected_is_deletable(self) -> bool {
        match self {
            StateView::Conversion { candidates, .. } => match candidates.selected() {
                Some(candidate) => candidate.source == Some(CandidateSource::Learning),
                None => false,
            },
            _ => false,
        }
    }

    /// The selection, if there is a list, stands in the list.
    pub open spec fn wf(self) -> bool {
        match self {
            StateView::Conversion { candidates, .. } => candidates.wf(),
            _ => true,
        }
    }
}

impl View for InputState {
    type V = StateView;

    open spec fn view(&self) -> StateView {
        match *self {
            InputState::Empty => StateView::Empty,
            InputState::Composing { preedit } => StateView::Composing { preedit: preedit@ },
            InputState::Conversion { preedit, candidates, reading, filter } => {
                StateView::Conversion {
                    preedit: preedit@,
                    candidates: candidates@,
                    reading: reading@,
                    filter,
                }
            },
        }
    }
}

impl InputState {
    /// The preedit, if there is one.
    pub fn preedit(&self) -> (preedit: Option<&Preedit>)
        ensures
            match self@ {
                StateView::Empty => preedit is None,
                StateView::Composing { preedit: shown } => preedit is Some && preedit->0@ == shown,
                StateView::Conversion { preedit: shown, .. } => preedit is Some && preedit->0@
                    == shown,
            },
    {
        match self {
            InputState::Empty => None,
            InputState::Composing { preedit } => Some(preedit),
            InputState::Conversion { preedit, .. } => Some(preedit),
        }
    }

    /// The source to which the candidates are narrowed.
    pub fn filter(&self) -> (filter: Option<CandidateSource>)
        ensures
            filter == self@.filter(),
    {
        match self {
            InputState::Conversion { filter, .. } => *filter,
            _ => None,
        }
    }

    /// The candidates shown.
    pub fn candidates(&self) -> (candidates: Option<&CandidateList>)
        ensures
            match candidates {
                Some(candidates) => self@.candidates() == Some(candidates@),
                None => self@.candidates() is None,
            },
    {
        match self {
            InputState::Conversion { candidates, .. } => Some(candidates),
            _ => None,
        }
    }

    /// The reading under conversion.
    pub fn reading(&self) -> (reading: Option<String>)
        ensures
            text::opt_view(reading) == self@.reading(),
    {
        match self {
            InputState::Conversion { reading, .. } => Some(reading.clone()),
            _ => None,
        }
    }

    /// The text and the reading of the selected candidate. An empty list stands
    /// for the raw reading.
    pub fn selection(&self) -> (selection: Option<(String, Option<String>)>)
        ensures
            match selection {
                Some((text, reading)) => self@.selection() == Some(
                    (text@, text::opt_view(reading)),
                ),
                None => self@.selection() is None,
            },
    {
        match self {
            InputState::Conversion { candidates, reading, .. } => {
                Some((candidates.selected_text_or(reading.as_str()), candidates.selected_reading()))
            },
            _ => None,
        }
    }

    /// Whether the selected candidate came from the learning history.
    pub fn selected_is_deletable(&self) -> (deletable: bool)
        ensures
            deletable == self@.selected_is_deletable(),
    {
        match self {
            InputState::Conversion { candidates, .. } => match candidates.selected() {
                Some(candidate) => candidate.is_deletable(),
                None => false,
            },
            _ => false,
        }
    }
}

} // verus!
