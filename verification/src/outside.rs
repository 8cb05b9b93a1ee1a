//! What the conversion model, the rewriters and the calendar answered. The
//! application asks them and stores the answers here; the engine only reads.

use vstd::prelude::*;

use crate::text;
use crate::text::{copy_opt, same_text};

verus! {

/// A text that a rewriter made of a reading, with its description.
#[derive(Clone, Debug)]
pub struct RewriteOutput {
    pub text: String,
    pub description: Option<String>,
}

/// A rewritten text and its description, as texts.
#[verifier::ext_equal]
pub struct RewriteView {
    pub text: Seq<char>,
    pub description: Option<Seq<char>>,
}

impl View for RewriteOutput {
    type V = RewriteView;

    open spec fn view(&self) -> RewriteView {
        RewriteView { text: self.text@, description: text::opt_view(self.description) }
    }
}

/// Rewritten texts copied.
pub fn copy_outputs(outputs: &Vec<RewriteOutput>) -> (copy: Vec<RewriteOutput>)
    ensures
        text::views(copy@) == text::views(outputs@),
{
    let mut copy: Vec<RewriteOutput> = Vec::new();
    for i in 0..outputs.len()
        invariant
            copy@.len() == i,
            forall|j: int| 0 <= j < i ==> (#[trigger] copy@[j])@ == outputs@[j]@,
    {
        let output = &outputs[i];
        copy.push(
            RewriteOutput {
                text: output.text.clone(),
                description: copy_opt(&output.description),
            },
        );
    }
    assert(text::views(copy@) =~= text::views(outputs@));
    copy
}

/// The answers for one reading, split for the model at the given positions.
#[derive(Clone, Debug)]
pub struct ReadingAnswer {
    pub reading: String,
    pub chunk_breaks: Vec<usize>,
    /// The conversions that the model found, the best first.
    pub model: Vec<String>,
    /// What all rewriters made of the reading.
    pub rewrites: Vec<RewriteOutput>,
    /// What the emoji rewriter made of the reading.
    pub emoji: Vec<RewriteOutput>,
}

/// The answers for one reading, as texts.
#[verifier::ext_equal]
pub struct ReadingView {
    pub reading: Seq<char>,
    pub chunk_breaks: Seq<usize>,
    pub model: Seq<Seq<char>>,
    pub rewrites: Seq<RewriteView>,
    pub emoji: Seq<RewriteView>,
}

impl View for ReadingAnswer {
    type V = ReadingView;

    open spec fn view(&self) -> ReadingView {
        ReadingView {
            reading: self.reading@,
            chunk_breaks: self.chunk_breaks@,
            model: text::views(self.model@),
            rewrites: text::views(self.rewrites@),
            emoji: text::views(self.emoji@),
        }
    }
}

/// The calendar dates that a reading stands for today.
#[derive(Clone, Debug)]
pub struct DateAnswer {
    pub reading: String,
    pub dates: Vec<RewriteOutput>,
}

/// The dates for a reading, as texts.
#[verifier::ext_equal]
pub struct DateView {
    pub reading: Seq<char>,
    pub dates: Seq<RewriteView>,
}

impl View for DateAnswer {
    type V = DateView;

    open spec fn view(&self) -> DateView {
        DateView { reading: self.reading@, dates: text::views(self.dates@) }
    }
}

/// The name of a symbol.
#[derive(Clone, Debug)]
pub struct SymbolName {
    pub symbol: String,
    pub name: String,
}

/// A symbol and its name, as texts.
#[verifier::ext_equal]
pub struct SymbolView {
    pub symbol: Seq<char>,
    pub name: Seq<char>,
}

impl View for SymbolName {
    type V = SymbolView;

    open spec fn view(&self) -> SymbolView {
        SymbolView { symbol: self.symbol@, name: self.name@ }
    }
}

/// All answers that were given.
#[derive(Clone, Debug)]
pub struct OutsideAnswers {
    pub readings: Vec<ReadingAnswer>,
    pub dates: Vec<DateAnswer>,
    pub symbols: Vec<SymbolName>,
}

/// All answers, as texts.
#[verifier::ext_equal]
pub struct OutsideView {
    pub readings: Seq<ReadingView>,
    pub dates: Seq<DateView>,
    pub symbols: Seq<SymbolView>,
}

impl View for OutsideAnswers {
    type V = OutsideView;

    open spec fn view(&self) -> OutsideView {
        OutsideView {
            readings: text::views(self.readings@),
            dates: text::views(self.dates@),
            symbols: text::views(self.symbols@),
        }
    }
}

/// Whether an answer is for `reading`, split at `breaks`.
pub open spec fn answers(reading: Seq<char>, breaks: Seq<usize>) -> spec_fn(
    ReadingView,
) -> bool {
    |answer: ReadingView| answer.reading == reading && answer.chunk_breaks == breaks
}

/// Whether dates are those of `reading`.
pub open spec fn dates_of(reading: Seq<char>) -> spec_fn(DateView) -> bool {
    |answer: DateView| answer.reading == reading
}

/// Whether a name is that of `symbol`.
pub open spec fn names(symbol: Seq<char>) -> spec_fn(SymbolView) -> bool {
    |name: SymbolView| name.symbol == symbol
}

impl OutsideView {
    /// The answer for a reading, if one was given.
    pub open spec fn answer(self, reading: Seq<char>, breaks: Seq<usize>) -> Option<ReadingView> {
        match text::find_first(self.readings, answers(reading, breaks)) {
            Some(i) => Some(self.readings[i]),
            None => None,
        }
    }

    /// The conversions of the model for a reading; none where nothing was
    /// answered.
    pub open spec fn model(self, reading: Seq<char>, breaks: Seq<usize>) -> Seq<Seq<char>> {
        match self.answer(reading, breaks) {
            Some(answer) => answer.model,
            None => Seq::empty(),
        }
    }

    /// What all rewriters made of a reading; nothing where nothing was answered.
    pub open spec fn rewrites(self, reading: Seq<char>, breaks: Seq<usize>) -> Seq<RewriteView> {
        match self.answer(reading, breaks) {
            Some(answer) => answer.rewrites,
            None => Seq::empty(),
        }
    }

    /// What the emoji rewriter made of a reading; nothing where nothing was
    /// answered.
    pub open spec fn emoji(self, reading: Seq<char>, breaks: Seq<usize>) -> Seq<RewriteView> {
        match self.answer(reading, breaks) {
            Some(answer) => answer.emoji,
            None => Seq::empty(),
        }
    }

    /// The dates that a reading stands for; none where it is no date reading.
    pub open spec fn dates(self, reading: Seq<char>) -> Seq<RewriteView> {
        match text::find_first(self.dates, dates_of(reading)) {
            Some(i) => self.dates[i].dates,
            None => Seq::empty(),
        }
    }

    /// The name of a symbol, if it has one.
    pub open spec fn symbol_name(self, symbol: Seq<char>) -> Option<Seq<char>> {
        match text::find_first(self.symbols, names(symbol)) {
            Some(i) => Some(self.symbols[i].name),
            None => None,
        }
    }
}

/// Whether two lists of positions are the same.
fn same_breaks(a: &Vec<usize>, b: &Vec<usize>) -> (same: bool)
    ensures
        same == (a@ == b@),
{
    if a.len() != b.len() {
        return false;
    }
    for i in 0..a.len()
        invariant
            a@.len() == b@.len(),
            forall|j: int| 0 <= j < i ==> a@[j] == b@[j],
    {
        if a[i] != b[i] {
            return false;
        }
    }
    assert(a@ =~= b@);
    true
}

impl OutsideAnswers {
    /// No answers yet.
    pub fn new() -> (outside: Self)
        ensures
            outside@ == (OutsideView {
                readings: Seq::empty(),
                dates: Seq::empty(),
                symbols: Seq::empty(),
            }),
    {
        let outside = OutsideAnswers {
            readings: Vec::new(),
            dates: Vec::new(),
            symbols: Vec::new(),
        };
        assert(outside@ =~= (OutsideView {
            readings: Seq::empty(),
            dates: Seq::empty(),
            symbols: Seq::empty(),
        }));
        outside
    }

    /// The answer for a reading, if one was given.
    pub fn answer(&self, reading: &str, breaks: &Vec<usize>) -> (answer: Option<&ReadingAnswer>)
        ensures
            match answer {
                Some(answer) => self@.answer(reading@, breaks@) == Some(answer@),
                None => self@.answer(reading@, breaks@) is None,
            },
    {
        let ghost all = self@.readings;
        let ghost p = answers(reading@, breaks@);
        for i in 0..self.readings.len()
            invariant
                all == self@.readings,
                p == answers(reading@, breaks@),
                forall|j: int| 0 <= j < i ==> !p(#[trigger] all[j]),
        {
            if same_text(self.readings[i].reading.as_str(), reading) && same_breaks(
                &self.readings[i].chunk_breaks,
                breaks,
            ) {
                proof {
                    assert(p(all[i as int]));
                    text::lemma_find_first_is(all, p, i as int);
                }
                return Some(&self.readings[i]);
            }
            assert(!p(all[i as int]));
        }
        proof {
            text::lemma_find_first_none(all, p);
        }
        None
    }

    /// The conversions of the model for a reading, at most `limit` of them.
    pub fn model(&self, reading: &str, breaks: &Vec<usize>, limit: usize) -> (texts: Vec<String>)
        ensures
            text::views(texts@) == text::at_most(self@.model(reading@, breaks@), limit as int),
    {
        let mut texts: Vec<String> = Vec::new();
        match self.answer(reading, breaks) {
            Some(answer) => {
                let ghost all = text::views(answer.model@);
                let mut i: usize = 0;
                while i < answer.model.len() && i < limit
                    invariant
                        i <= answer.model@.len(),
                        i <= limit,
                        all == text::views(answer.model@),
                        text::views(texts@) == all.take(i as int),
                    decreases answer.model@.len() - i,
                {
                    let ghost before = text::views(texts@);
                    texts.push(answer.model[i].clone());
                    assert(text::views(texts@) =~= before.push(all[i as int]));
                    i = i + 1;
                    assert(text::views(texts@) =~= all.take(i as int));
                }
                assert(text::views(texts@) =~= text::at_most(all, limit as int));
            },
            None => {
                assert(text::views(texts@) =~= text::at_most(
                    self@.model(reading@, breaks@),
                    limit as int,
                ));
            },
        }
        texts
    }

    /// What all rewriters made of a reading.
    pub fn rewrites(&self, reading: &str, breaks: &Vec<usize>) -> (outputs: Vec<RewriteOutput>)
        ensures
            text::views(outputs@) == self@.rewrites(reading@, breaks@),
    {
        match self.answer(reading, breaks) {
            Some(answer) => copy_outputs(&answer.rewrites),
            None => {
                let outputs: Vec<RewriteOutput> = Vec::new();
                assert(text::views(outputs@) =~= Seq::<RewriteView>::empty());
                outputs
            },
        }
    }

    /// What the emoji rewriter made of a reading.
    pub fn emoji(&self, reading: &str, breaks: &Vec<usize>) -> (outputs: Vec<RewriteOutput>)
        ensures
            text::views(outputs@) == self@.emoji(reading@, breaks@),
    {
        match self.answer(reading, breaks) {
            Some(answer) => copy_outputs(&answer.emoji),
            None => {
                let outputs: Vec<RewriteOutput> = Vec::new();
                assert(text::views(outputs@) =~= Seq::<RewriteView>::empty());
                outputs
            },
        }
    }

    /// The dates that a reading stands for.
    pub fn dates(&self, reading: &str) -> (outputs: Vec<RewriteOutput>)
        ensures
            text::views(outputs@) == self@.dates(reading@),
    {
        let ghost all = self@.dates;
        let ghost p = dates_of(reading@);
        for i in 0..self.dates.len()
            invariant
                all == self@.dates,
                p == dates_of(reading@),
                forall|j: int| 0 <= j < i ==> !p(#[trigger] all[j]),
        {
            if same_text(self.dates[i].reading.as_str(), reading) {
                proof {
                    assert(p(all[i as int]));
                    text::lemma_find_first_is(all, p, i as int);
                }
                return copy_outputs(&self.dates[i].dates);
            }
            assert(!p(all[i as int]));
        }
        proof {
            text::lemma_find_first_none(all, p);
        }
        let outputs: Vec<RewriteOutput> = Vec::new();
        assert(text::views(outputs@) =~= Seq::<RewriteView>::empty());
        outputs
    }

    /// The name of a symbol, if it has one.
    pub fn symbol_name(&self, symbol: &str) -> (name: Option<String>)
        ensures
            text::opt_view(name) == self@.symbol_name(symbol@),
    {
        let ghost all = self@.symbols;
        let ghost p = names(symbol@);
        for i in 0..self.symbols.len()
            invariant
                all == self@.symbols,
                p == names(symbol@),
                forall|j: int| 0 <= j < i ==> !p(#[trigger] all[j]),
        {
            if same_text(self.symbols[i].symbol.as_str(), symbol) {
                proof {
                    assert(p(all[i as int]));
                    text::lemma_find_first_is(all, p, i as int);
                }
                return Some(self.symbols[i].name.clone());
            }
            assert(!p(all[i as int]));
        }
        proof {
            text::lemma_find_first_none(all, p);
        }
        None
    }
}

} // verus!
