//! The preedit: the text under composition, as the application shows it.

use vstd::prelude::*;
use vstd::string::StringExecFns;

use crate::text;

verus! {

/// A run of preedit text with one look: highlighted, or else underlined.
#[derive(Clone, Debug)]
pub struct PreeditSegment {
    pub text: String,
    pub highlighted: bool,
}

/// A preedit segment as text.
#[verifier::ext_equal]
pub struct SegmentView {
    pub text: Seq<char>,
    pub highlighted: bool,
}

/// An underlined segment.
pub open spec fn underlined(text: Seq<char>) -> SegmentView {
    SegmentView { text, highlighted: false }
}

/// A highlighted segment.
pub open spec fn highlighted(text: Seq<char>) -> SegmentView {
    SegmentView { text, highlighted: true }
}

impl View for PreeditSegment {
    type V = SegmentView;

    open spec fn view(&self) -> SegmentView {
        SegmentView { text: self.text@, highlighted: self.highlighted }
    }
}

impl PreeditSegment {
    /// An underlined segment.
    pub fn underlined(text: &str) -> (segment: Self)
        ensures
            segment@ == underlined(text@),
    {
        PreeditSegment { text: text.to_owned(), highlighted: false }
    }

    /// A highlighted segment.
    pub fn highlighted(text: &str) -> (segment: Self)
        ensures
            segment@ == highlighted(text@),
    {
        PreeditSegment { text: text.to_owned(), highlighted: true }
    }
}

/// The text under composition in segments, with the caret (in characters).
#[derive(Debug)]
pub struct Preedit {
    pub segments: Vec<PreeditSegment>,
    pub caret: usize,
}

/// A preedit as segments and the position of the caret.
#[verifier::ext_equal]
pub struct PreeditView {
    pub segments: Seq<SegmentView>,
    pub caret: int,
}

/// The texts of segments, joined.
pub open spec fn segments_text(segments: Seq<SegmentView>) -> Seq<char> {
    text::concat(Seq::new(segments.len(), |i: int| segments[i].text))
}

/// A preedit without text.
pub open spec fn no_preedit() -> PreeditView {
    PreeditView { segments: Seq::empty(), caret: 0 }
}

impl PreeditView {
    /// The text of all segments.
    pub open spec fn text(self) -> Seq<char> {
        segments_text(self.segments)
    }
}

impl View for Preedit {
    type V = PreeditView;

    open spec fn view(&self) -> PreeditView {
        PreeditView { segments: text::views(self.segments@), caret: self.caret as int }
    }
}

impl Clone for Preedit {
    fn clone(&self) -> (copy: Self)
        ensures
            copy@ == self@,
    {
        let mut segments: Vec<PreeditSegment> = Vec::new();
        for i in 0..self.segments.len()
            invariant
                segments@.len() == i,
                forall|j: int| 0 <= j < i ==> (#[trigger] segments@[j])@ == self.segments@[j]@,
        {
            let segment = &self.segments[i];
            segments.push(
                PreeditSegment { text: segment.text.clone(), highlighted: segment.highlighted },
            );
        }
        let copy = Preedit { segments, caret: self.caret };
        assert(copy@ =~= self@);
        copy
    }
}

impl Preedit {
    /// A preedit without text.
    pub fn new() -> (preedit: Self)
        ensures
            preedit@ == no_preedit(),
    {
        let preedit = Preedit { segments: Vec::new(), caret: 0 };
        assert(preedit@ =~= no_preedit());
        preedit
    }

    /// A preedit of these segments.
    pub fn from_segments(segments: Vec<PreeditSegment>, caret: usize) -> (preedit: Self)
        ensures
            preedit@ == (PreeditView { segments: text::views(segments@), caret: caret as int }),
    {
        Preedit { segments, caret }
    }

    /// The text of all segments.
    pub fn text(&self) -> (text: String)
        ensures
            text@ == self@.text(),
    {
        let mut text = String::new();
        let ghost texts = Seq::new(self@.segments.len(), |i: int| self@.segments[i].text);
        assert(texts.take(0) =~= Seq::<Seq<char>>::empty());
        for i in 0..self.segments.len()
            invariant
                texts == Seq::new(self@.segments.len(), |i: int| self@.segments[i].text),
                text@ == text::concat(texts.take(i as int)),
        {
            text.append(self.segments[i].text.as_str());
            assert(texts.take(i + 1).drop_last() =~= texts.take(i as int));
        }
        assert(texts.take(texts.len() as int) =~= texts);
        text
    }

    /// Where the caret stands, in characters.
    pub fn caret(&self) -> (caret: usize)
        ensures
            caret == self@.caret,
    {
        self.caret
    }
}

} // verus!
