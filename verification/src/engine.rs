//! The engine: its parts, what they are as mathematical values, and the steps
//! that the handling of all keys shares.

use vstd::prelude::*;
use vstd::string::StrSliceExecFns;

use crate::action;
use crate::action::{ActionView, EngineAction, EngineResult, ResultView};
use crate::buffer;
use crate::buffer::{BufferView, InputBuffer};
use crate::candidate::{CandidateList, CandidateSource, ListView};
use crate::kana;
use crate::kana::hiragana_to_katakana;
use crate::lexicon::{Dictionary, EntryView, LearningCache};
use crate::outside::{OutsideAnswers, OutsideView};
use crate::preedit;
use crate::preedit::{Preedit, PreeditSegment, PreeditView};
use crate::romaji;
use crate::romaji::RomajiConverter;
use crate::state::{CharWidth, ConvertedSegment, InputMode, InputState, PieceView, StateView};
use crate::text;
use crate::text::{append, decimal, text_of};

verus! {

/// What the user configured.
#[derive(Clone, Debug)]
pub struct EngineConfig {
    /// How many conversions to ask of the model.
    pub num_candidates: usize,
    /// Whether date readings are converted to calendar dates.
    pub date_conversion: bool,
    /// The formats of calendar dates.
    pub date_formats: Vec<String>,
    /// The width in which candidates are shown.
    pub width: CharWidth,
}

/// The configuration as texts.
#[verifier::ext_equal]
pub struct ConfigView {
    pub num_candidates: usize,
    pub date_conversion: bool,
    pub date_formats: Seq<Seq<char>>,
    pub width: CharWidth,
}

impl ConfigView {
    /// Whether there is anything to convert date readings to.
    pub open spec fn converts_dates(self) -> bool {
        self.date_conversion && self.date_formats.len() > 0
    }
}

impl View for EngineConfig {
    type V = ConfigView;

    open spec fn view(&self) -> ConfigView {
        ConfigView {
            num_candidates: self.num_candidates,
            date_conversion: self.date_conversion,
            date_formats: text::views(self.date_formats@),
            width: self.width,
        }
    }
}

/// How long the last key took.
#[derive(Clone, Copy, PartialEq, Eq, Structural, Debug)]
pub struct Metrics {
    pub conversion_ms: u64,
    pub process_key_ms: u64,
}

/// The text of the live conversion, and whether it is shown in place of the
/// kana.
#[derive(Clone, Debug)]
pub struct LiveConversion {
    pub text: String,
    pub shown: bool,
}

/// The live conversion as a text.
#[verifier::ext_equal]
pub struct LiveView {
    pub text: Seq<char>,
    pub shown: bool,
}

impl View for LiveConversion {
    type V = LiveView;

    open spec fn view(&self) -> LiveView {
        LiveView { text: self.text@, shown: self.shown }
    }
}

/// The user dictionary and the system dictionary.
#[derive(Clone, Debug)]
pub struct Dictionaries {
    pub user: Option<Dictionary>,
    pub system: Option<Dictionary>,
}

/// The input method engine.
#[derive(Clone, Debug)]
pub struct InputMethodEngine {
    pub state: InputState,
    pub input_mode: InputMode,
    pub input_buf: InputBuffer,
    pub romaji: RomajiConverter,
    pub live: LiveConversion,
    /// What follows the reading under conversion, not converted yet.
    pub conversion_tail: Option<String>,
    /// The parts converted before the reading under conversion.
    pub confirmed_segments: Vec<ConvertedSegment>,
    /// The parts converted after the reading under conversion.
    pub upcoming_segments: Vec<ConvertedSegment>,
    /// The positions at which the user split the text for the model.
    pub chunk_breaks: Vec<usize>,
    /// Whether suggestions are left out while composing.
    pub suppress_suggest: bool,
    pub config: EngineConfig,
    pub dicts: Dictionaries,
    pub learning: Option<LearningCache>,
    pub outside: OutsideAnswers,
    /// The readings for which the model was needed and nothing was answered.
    pub requested: Vec<String>,
    pub metrics: Metrics,
}

/// The engine as a mathematical value.
#[verifier::ext_equal]
pub struct EngineView {
    pub state: StateView,
    pub mode: InputMode,
    pub buffer: BufferView,
    pub pending: Seq<char>,
    pub live: LiveView,
    pub tail: Option<Seq<char>>,
    pub confirmed: Seq<PieceView>,
    pub upcoming: Seq<PieceView>,
    pub chunk_breaks: Seq<usize>,
    pub suppress_suggest: bool,
    pub config: ConfigView,
    pub user: Option<Seq<EntryView>>,
    pub system: Option<Seq<EntryView>>,
    pub learning: Option<Seq<EntryView>>,
    pub outside: OutsideView,
    pub requested: Seq<Seq<char>>,
    pub metrics: Metrics,
}

/// An engine after a key, and the outcome of the key.
pub type Step = (EngineView, ResultView);

impl View for InputMethodEngine {
    type V = EngineView;

    open spec fn view(&self) -> EngineView {
        EngineView {
            state: self.state@,
            mode: self.input_mode,
            buffer: self.input_buf@,
            pending: self.romaji@,
            live: self.live@,
            tail: text::opt_view(self.conversion_tail),
            confirmed: text::views(self.confirmed_segments@),
            upcoming: text::views(self.upcoming_segments@),
            chunk_breaks: self.chunk_breaks@,
            suppress_suggest: self.suppress_suggest,
            config: self.config@,
            user: text::opt_view(self.dicts.user),
            system: text::opt_view(self.dicts.system),
            learning: text::opt_view(self.learning),
            outside: self.outside@,
            requested: text::views(self.requested@),
            metrics: self.metrics,
        }
    }
}

/// The sign of a mode.
pub open spec fn mode_label(mode: InputMode) -> Seq<char> {
    match mode {
        InputMode::Hiragana => "あ"@,
        InputMode::Katakana => "ア"@,
        InputMode::Alphabet => "A"@,
        InputMode::Emoji => ":"@,
    }
}

/// The heading of a list narrowed to one source.
pub open spec fn filter_label(filter: Option<CandidateSource>) -> Seq<char> {
    match filter {
        Some(CandidateSource::Learning) => "[学習] "@,
        Some(CandidateSource::UserDictionary) => "[ユーザー辞書] "@,
        Some(CandidateSource::Model) => "[モデル] "@,
        Some(CandidateSource::Dictionary) => "[辞書] "@,
        _ => ""@,
    }
}

/// The auxiliary text of a conversion: the active filter, the reading, and the
/// page.
pub open spec fn conversion_aux(
    filter: Option<CandidateSource>,
    reading: Seq<char>,
    list: ListView,
) -> Seq<char> {
    filter_label(filter) + reading + " "@ + text::decimal_text(list.page() as nat) + "/"@
        + text::decimal_text(list.pages() as nat)
}

/// A text as a mode shows it: in katakana mode hiragana shows as katakana.
pub open spec fn in_mode(text: Seq<char>, mode: InputMode) -> Seq<char> {
    if mode == InputMode::Katakana {
        kana::katakana_text(text)
    } else {
        text
    }
}

impl EngineView {
    /// The composition is in order: the buffer is, and keys wait only while they
    /// can still become kana.
    pub open spec fn ready(self) -> bool {
        &&& self.buffer.wf()
        &&& self.pending.len() > 0 ==> romaji::is_open(self.pending)
    }

    /// The composition and the selection are in order, and an engine at rest
    /// holds no text.
    pub open spec fn wf(self) -> bool {
        &&& self.ready()
        &&& self.state.wf()
        &&& self.state is Empty ==> self.is_blank()
    }

    /// Nothing is under composition.
    pub open spec fn is_blank(self) -> bool {
        self.buffer.text.len() == 0 && self.pending.len() == 0
    }

    /// The kana that the waiting keys become when nothing more is typed.
    pub open spec fn settled_kana(self) -> Seq<char> {
        romaji::kana_of(romaji::settled_groups(self.pending))
    }

    /// The text with the waiting keys resolved where the caret is.
    pub open spec fn settled_reading(self) -> Seq<char> {
        self.buffer.text.take(self.buffer.cursor) + self.settled_kana() + self.buffer.text.skip(
            self.buffer.cursor,
        )
    }

    /// The caret in the settled reading: after the resolved keys.
    pub open spec fn settled_cursor(self) -> int {
        self.buffer.cursor + self.settled_kana().len()
    }

    /// All keys typed for the composition, in the order of the text.
    pub open spec fn raw_text(self) -> Seq<char> {
        self.buffer.raw_before() + self.pending + self.buffer.raw_after()
    }

    /// The text of the live conversion with the waiting keys, while it is shown.
    pub open spec fn live_text_with_pending(self) -> Seq<char> {
        if self.live.shown {
            self.live.text + self.pending
        } else {
            Seq::empty()
        }
    }

    /// What is shown while composing.
    pub open spec fn composing_preedit(self) -> PreeditView {
        if self.live.shown {
            PreeditView {
                segments: seq![preedit::underlined(self.live_text_with_pending())],
                caret: self.live_text_with_pending().len() as int,
            }
        } else {
            let before = in_mode(self.buffer.text.take(self.buffer.cursor), self.mode)
                + self.pending;
            let after = in_mode(self.buffer.text.skip(self.buffer.cursor), self.mode);
            PreeditView {
                segments: seq![preedit::underlined(before + after)],
                caret: before.len() as int,
            }
        }
    }

    /// The engine composing.
    pub open spec fn composing(self) -> EngineView {
        EngineView { state: StateView::Composing { preedit: self.composing_preedit() }, ..self }
    }

    /// The engine with the waiting keys resolved into the text.
    pub open spec fn flushed(self) -> EngineView {
        EngineView {
            buffer: self.buffer.insert_all(romaji::settled_groups(self.pending)),
            pending: Seq::empty(),
            ..self
        }
    }

    /// The engine without any composition. A mode for one composition ends with
    /// it.
    pub open spec fn ended(self) -> EngineView {
        EngineView {
            state: StateView::Empty,
            mode: match self.mode {
                InputMode::Alphabet => InputMode::Hiragana,
                InputMode::Emoji => InputMode::Hiragana,
                mode => mode,
            },
            buffer: buffer::empty_buffer(),
            pending: Seq::empty(),
            live: LiveView { text: Seq::empty(), shown: false },
            tail: None,
            confirmed: Seq::empty(),
            upcoming: Seq::empty(),
            chunk_breaks: Seq::empty(),
            ..self
        }
    }

    /// What the application does when the composition is gone.
    pub open spec fn cleared_actions() -> Seq<ActionView> {
        seq![
            ActionView::UpdatePreedit(preedit::no_preedit()),
            ActionView::HideCandidates,
            ActionView::HideAuxText,
        ]
    }

    /// The composition ended, with `text` handed to the application.
    pub open spec fn committed(self, text: Seq<char>) -> Step {
        (
            self.ended(),
            action::taken(
                seq![
                    ActionView::HideCandidates,
                    ActionView::HideAuxText,
                    ActionView::Commit(text),
                ],
            ),
        )
    }
}

/// What a new engine is.
pub open spec fn new_engine() -> EngineView {
    EngineView {
        state: StateView::Empty,
        mode: InputMode::Hiragana,
        buffer: buffer::empty_buffer(),
        pending: Seq::empty(),
        live: LiveView { text: Seq::empty(), shown: false },
        tail: None,
        confirmed: Seq::empty(),
        upcoming: Seq::empty(),
        chunk_breaks: Seq::empty(),
        suppress_suggest: false,
        config: ConfigView {
            num_candidates: 9,
            date_conversion: false,
            date_formats: Seq::empty(),
            width: CharWidth::AsIs,
        },
        user: None,
        system: None,
        learning: None,
        outside: OutsideView {
            readings: Seq::empty(),
            dates: Seq::empty(),
            symbols: Seq::empty(),
        },
        requested: Seq::empty(),
        metrics: Metrics { conversion_ms: 0, process_key_ms: 0 },
    }
}

/// A text as a mode shows it.
fn show_in_mode(text: String, mode: InputMode) -> (shown: String)
    ensures
        shown@ == in_mode(text@, mode),
{
    if mode == InputMode::Katakana {
        hiragana_to_katakana(text.as_str())
    } else {
        text
    }
}

impl InputMethodEngine {
    /// An engine at rest, without dictionaries or a learning history.
    pub fn new() -> (engine: Self)
        ensures
            engine@ == new_engine(),
            engine@.wf(),
    {
        let engine = InputMethodEngine {
            state: InputState::Empty,
            input_mode: InputMode::Hiragana,
            input_buf: InputBuffer::new(),
            romaji: RomajiConverter::new(),
            live: LiveConversion { text: String::new(), shown: false },
            conversion_tail: None,
            confirmed_segments: Vec::new(),
            upcoming_segments: Vec::new(),
            chunk_breaks: Vec::new(),
            suppress_suggest: false,
            config: EngineConfig {
                num_candidates: 9,
                date_conversion: false,
                date_formats: Vec::new(),
                width: CharWidth::AsIs,
            },
            dicts: Dictionaries { user: None, system: None },
            learning: None,
            outside: OutsideAnswers::new(),
            requested: Vec::new(),
            metrics: Metrics { conversion_ms: 0, process_key_ms: 0 },
        };
        assert(engine@ =~= new_engine());
        engine
    }

    /// Where the engine stands.
    pub fn state(&self) -> (state: &InputState)
        ensures
            state@ == self@.state,
    {
        &self.state
    }

    /// What is shown of the composition, if there is one.
    pub fn preedit(&self) -> (preedit: Option<&Preedit>)
        ensures
            match self@.state {
                StateView::Empty => preedit is None,
                StateView::Composing { preedit: shown } => preedit is Some && preedit->0@ == shown,
                StateView::Conversion { preedit: shown, .. } => preedit is Some && preedit->0@
                    == shown,
            },
    {
        self.state.preedit()
    }

    /// The text with the waiting keys resolved where the caret is.
    pub fn settled_reading(&self) -> (reading: String)
        requires
            self@.ready(),
        ensures
            reading@ == self@.settled_reading(),
    {
        let mut reading = text_of(&self.input_buf.text, 0, self.input_buf.cursor_pos);
        append(&mut reading, self.romaji.settled_kana().as_str());
        let after = text_of(
            &self.input_buf.text,
            self.input_buf.cursor_pos,
            self.input_buf.text.len(),
        );
        append(&mut reading, after.as_str());
        assert(reading@ =~= self@.settled_reading());
        reading
    }

    /// The caret in the settled reading.
    pub fn settled_cursor(&self) -> (cursor: usize)
        requires
            self@.ready(),
        ensures
            cursor == self@.settled_cursor(),
    {
        let mut before = text_of(&self.input_buf.text, 0, self.input_buf.cursor_pos);
        append(&mut before, self.romaji.settled_kana().as_str());
        before.as_str().unicode_len()
    }

    /// All keys typed for the composition, in the order of the text.
    pub fn raw_text(&self) -> (keys: String)
        requires
            self@.ready(),
        ensures
            keys@ == self@.raw_text(),
    {
        self.input_buf.raw_text(self.romaji.buffer().as_str())
    }

    /// The text of the live conversion with the waiting keys, while it is shown.
    pub fn live_text_with_pending(&self) -> (text: String)
        ensures
            text@ == self@.live_text_with_pending(),
    {
        if self.live.shown {
            let mut text = self.live.text.clone();
            append(&mut text, self.romaji.buffer().as_str());
            text
        } else {
            String::new()
        }
    }

    /// What is shown while composing.
    fn composing_preedit(&self) -> (shown: Preedit)
        requires
            self@.ready(),
        ensures
            shown@ == self@.composing_preedit(),
    {
        let mut segments: Vec<PreeditSegment> = Vec::new();
        if self.live.shown {
            let text = self.live_text_with_pending();
            segments.push(PreeditSegment::underlined(text.as_str()));
            let shown = Preedit::from_segments(segments, text.as_str().unicode_len());
            assert(shown@ =~= self@.composing_preedit());
            return shown;
        }
        let head = text_of(&self.input_buf.text, 0, self.input_buf.cursor_pos);
        let rest = text_of(
            &self.input_buf.text,
            self.input_buf.cursor_pos,
            self.input_buf.text.len(),
        );
        assert(head@ =~= self@.buffer.text.take(self@.buffer.cursor));
        assert(rest@ =~= self@.buffer.text.skip(self@.buffer.cursor));
        let mut text = show_in_mode(head, self.input_mode);
        append(&mut text, self.romaji.buffer().as_str());
        let caret = text.as_str().unicode_len();
        append(&mut text, show_in_mode(rest, self.input_mode).as_str());
        segments.push(PreeditSegment::underlined(text.as_str()));
        let shown = Preedit::from_segments(segments, caret);
        assert(shown@ =~= self@.composing_preedit());
        shown
    }

    /// Go to composing, and give what is shown there.
    pub fn set_composing_state(&mut self) -> (shown: Preedit)
        requires
            old(self)@.ready(),
        ensures
            final(self)@ == old(self)@.composing(),
            final(self)@.wf(),
            shown@ == old(self)@.composing_preedit(),
    {
        let shown = self.composing_preedit();
        self.state = InputState::Composing { preedit: shown.clone() };
        shown
    }

    /// The auxiliary text while composing: the sign of the mode.
    pub fn format_aux_composing(&self) -> (aux: String)
        ensures
            aux@ == mode_label(self@.mode),
    {
        match self.input_mode {
            InputMode::Hiragana => "あ".to_owned(),
            InputMode::Katakana => "ア".to_owned(),
            InputMode::Alphabet => "A".to_owned(),
            InputMode::Emoji => ":".to_owned(),
        }
    }

    /// The auxiliary text of a conversion.
    pub fn format_aux_conversion_with_page(&self, reading: &str, list: &CandidateList) -> (aux:
        String)
        requires
            list@.wf(),
        ensures
            aux@ == conversion_aux(self@.state.filter(), reading@, list@),
    {
        let mut aux = match self.state.filter() {
            Some(CandidateSource::Learning) => "[学習] ".to_owned(),
            Some(CandidateSource::UserDictionary) => "[ユーザー辞書] ".to_owned(),
            Some(CandidateSource::Model) => "[モデル] ".to_owned(),
            Some(CandidateSource::Dictionary) => "[辞書] ".to_owned(),
            _ => "".to_owned(),
        };
        append(&mut aux, reading);
        append(&mut aux, " ");
        append(&mut aux, decimal(list.page()).as_str());
        append(&mut aux, "/");
        append(&mut aux, decimal(list.pages()).as_str());
        aux
    }

    /// Resolve the waiting keys into the text.
    pub fn flush_romaji_to_composed(&mut self)
        requires
            old(self)@.ready(),
        ensures
            final(self)@ == old(self)@.flushed(),
            final(self)@.ready(),
    {
        let groups = self.romaji.settle();
        self.input_buf.insert_groups(&groups);
        self.romaji.reset();
    }

    /// End the composition.
    pub fn end_composition(&mut self)
        ensures
            final(self)@ == old(self)@.ended(),
            final(self)@.wf(),
    {
        self.state = InputState::Empty;
        self.input_mode = match self.input_mode {
            InputMode::Alphabet => InputMode::Hiragana,
            InputMode::Emoji => InputMode::Hiragana,
            mode => mode,
        };
        self.input_buf.clear();
        self.romaji.reset();
        self.live = LiveConversion { text: String::new(), shown: false };
        self.conversion_tail = None;
        self.confirmed_segments.clear();
        self.upcoming_segments.clear();
        self.chunk_breaks.clear();
        assert(self@ =~= old(self)@.ended());
    }

    /// End the composition, and hand `text` to the application.
    pub fn commit_text(&mut self, text: String) -> (result: EngineResult)
        ensures
            (final(self)@, result@) == old(self)@.committed(text@),
            final(self)@.wf(),
    {
        self.end_composition();
        let result = EngineResult::consumed().with_action(EngineAction::HideCandidates).with_action(
            EngineAction::HideAuxText,
        ).with_action(EngineAction::Commit(text));
        assert(result@ =~= old(self)@.committed(text@).1);
        result
    }
}

} // verus!
