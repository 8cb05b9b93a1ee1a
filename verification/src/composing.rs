//! Typing and editing a composition.

use vstd::prelude::*;

use crate::action;
use crate::action::EngineResult;
use crate::engine;
use crate::engine::{EngineView, InputMethodEngine, Step};
use crate::kana;
use crate::kana::{hiragana_to_katakana, to_fullwidth, to_half_katakana};
use crate::key::{KeyEvent, Keysym};
use crate::romaji;
use crate::romaji::KanaGroup;
use crate::state::{InputMode, InputState, LearningLookup};
use crate::text::{append, char_text};

verus! {

impl EngineView {
    /// The engine with a character put in at the caret as it is, after what the
    /// waiting keys became.
    pub open spec fn inserted(self, c: char, raw: char) -> EngineView {
        EngineView {
            buffer: self.flushed().buffer.insert(seq![c], seq![raw]),
            ..self.flushed()
        }
    }

    /// The engine with a key typed as romaji.
    pub open spec fn romaji_typed(self, key: char) -> EngineView {
        EngineView {
            buffer: self.buffer.insert_all(romaji::fed_groups(self.pending.push(key))),
            pending: romaji::fed_rest(self.pending.push(key)),
            ..self
        }
    }

    /// A character typed. An upper-case letter goes to alphabet mode, where
    /// characters stand for themselves.
    pub open spec fn typed(self, c: char) -> Step {
        if self.mode == InputMode::Alphabet || self.mode == InputMode::Emoji {
            self.inserted(c, c).refreshed()
        } else if 'A' <= c <= 'Z' {
            EngineView { mode: InputMode::Alphabet, ..self.inserted(c, c) }.refreshed()
        } else {
            self.romaji_typed(c).refreshed()
        }
    }

    /// A full-width space put in, for which the space key was typed.
    pub open spec fn wide_space_typed(self) -> Step {
        self.inserted('\u{3000}', ' ').refreshed()
    }

    /// Hiragana turned to katakana and back. The waiting keys are resolved
    /// first.
    pub open spec fn katakana_toggled(self) -> Step {
        EngineView {
            mode: if self.mode == InputMode::Katakana {
                InputMode::Hiragana
            } else {
                InputMode::Katakana
            },
            ..self.flushed()
        }.refreshed()
    }

    /// The composition in the form that a function key asks for.
    pub open spec fn kana_form(self, keysym: Keysym) -> Seq<char> {
        match keysym {
            Keysym::F6 => self.settled_reading(),
            Keysym::F7 | Keysym::MUHENKAN => kana::katakana_text(self.settled_reading()),
            Keysym::F8 => kana::half_katakana_text(self.settled_reading()),
            Keysym::F9 => kana::fullwidth_text(self.raw_text()),
            _ => self.raw_text(),
        }
    }

    /// The composition as Enter commits it: the live conversion while it is
    /// shown, and else the text as the mode shows it.
    pub open spec fn composed_text(self) -> Seq<char> {
        if self.live.shown {
            self.live.text + self.settled_kana()
        } else {
            engine::in_mode(self.settled_reading(), self.mode)
        }
    }

    /// The text split for the model at the caret.
    pub open spec fn chunk_broken(self) -> Step {
        if self.chunk_breaks.contains(self.buffer.cursor as usize) {
            self.refreshed()
        } else {
            EngineView {
                chunk_breaks: self.chunk_breaks.push(self.buffer.cursor as usize),
                ..self
            }.refreshed()
        }
    }

    /// The engine in another mode. The waiting keys are resolved first.
    pub open spec fn in_input_mode(self, mode: InputMode) -> EngineView {
        let changed = EngineView { mode, ..self.flushed() };
        if self.state is Composing {
            changed.composing()
        } else {
            changed
        }
    }

    /// A key pressed while composing.
    pub open spec fn composing_key(self, key: KeyEvent, shift: bool) -> Step {
        if key.modifiers.alt_key {
            (self, action::left_alone())
        } else if key.modifiers.control_key {
            match key.keysym {
                Keysym::SPACE => self.wide_space_typed(),
                Keysym::Character(c) => if c == 'a' || c == 'A' {
                    self.caret_home()
                } else if c == 'e' || c == 'E' {
                    self.caret_end()
                } else if c == 'b' || c == 'B' {
                    self.caret_left()
                } else if c == 'f' || c == 'F' {
                    self.caret_right()
                } else if c == 'j' || c == 'J' {
                    self.chunk_broken()
                } else {
                    (self, action::taken(Seq::empty()))
                },
                _ => (self, action::taken(Seq::empty())),
            }
        } else {
            match key.keysym {
                Keysym::RETURN => self.committed(self.composed_text()),
                Keysym::ESCAPE => self.cleared(),
                Keysym::BACKSPACE => self.backspaced(),
                Keysym::DELETE => self.deleted(),
                Keysym::LEFT => self.caret_left(),
                Keysym::RIGHT => self.caret_right(),
                Keysym::HOME => self.caret_home(),
                Keysym::END => self.caret_end(),
                Keysym::SPACE => if shift {
                    self.inserted(' ', ' ').refreshed()
                } else {
                    self.started(LearningLookup::Use, false)
                },
                Keysym::DOWN => self.started(LearningLookup::Use, false),
                Keysym::TAB => self.started(LearningLookup::Skip, false),
                Keysym::F6 | Keysym::F7 | Keysym::F8 | Keysym::F9 | Keysym::F10 => {
                    self.committed(self.kana_form(key.keysym))
                },
                Keysym::MUHENKAN => self.katakana_toggled(),
                _ => match key.typed() {
                    Some(c) => self.typed(c),
                    None => (self, action::taken(Seq::empty())),
                },
            }
        }
    }

    /// A key pressed while nothing is under composition.
    pub open spec fn empty_key(self, key: KeyEvent) -> Step {
        if key.modifiers.alt_key {
            (self, action::left_alone())
        } else if key.modifiers.control_key {
            if key.keysym == Keysym::SPACE {
                self.wide_space_typed()
            } else {
                (self, action::left_alone())
            }
        } else if key.keysym == Keysym::SPACE {
            (self, action::left_alone())
        } else {
            match key.typed() {
                Some(c) => self.typed(c),
                None => (self, action::left_alone()),
            }
        }
    }
}

impl InputMethodEngine {
    /// Put a character in at the caret as it is.
    fn insert_direct(&mut self, c: char, raw: char)
        requires
            old(self)@.ready(),
        ensures
            final(self)@ == old(self)@.inserted(c, raw),
            final(self)@.ready(),
    {
        self.flush_romaji_to_composed();
        let mut kana: Vec<char> = Vec::new();
        kana.push(c);
        let group = KanaGroup { kana, raw: char_text(raw) };
        assert(group@.kana =~= seq![c]);
        self.input_buf.insert_group(&group);
        assert(self@ =~= old(self)@.inserted(c, raw));
    }

    /// Type a key as romaji.
    fn type_romaji(&mut self, key: char)
        requires
            old(self)@.ready(),
        ensures
            final(self)@ == old(self)@.romaji_typed(key),
            final(self)@.ready(),
    {
        proof {
            romaji::lemma_feeding_keeps_keys(self@.pending.push(key));
        }
        let groups = self.romaji.push(key);
        self.input_buf.insert_groups(&groups);
        assert(self@ =~= old(self)@.romaji_typed(key));
    }

    /// Type a character.
    pub fn input_char(&mut self, c: char) -> (result: EngineResult)
        requires
            old(self)@.ready(),
        ensures
            (final(self)@, result@) == old(self)@.typed(c),
            final(self)@.wf(),
    {
        if self.input_mode == InputMode::Alphabet || self.input_mode == InputMode::Emoji {
            self.insert_direct(c, c);
        } else if 'A' <= c && c <= 'Z' {
            self.insert_direct(c, c);
            self.input_mode = InputMode::Alphabet;
        } else {
            self.type_romaji(c);
        }
        self.refresh_input_state()
    }

    /// Put in a full-width space.
    pub fn input_wide_space(&mut self) -> (result: EngineResult)
        requires
            old(self)@.ready(),
        ensures
            (final(self)@, result@) == old(self)@.wide_space_typed(),
            final(self)@.wf(),
    {
        self.insert_direct('\u{3000}', ' ');
        self.refresh_input_state()
    }

    /// Turn hiragana to katakana and back.
    pub fn toggle_katakana_composing(&mut self) -> (result: EngineResult)
        requires
            old(self)@.ready(),
        ensures
            (final(self)@, result@) == old(self)@.katakana_toggled(),
            final(self)@.wf(),
    {
        self.flush_romaji_to_composed();
        self.input_mode = if self.input_mode == InputMode::Katakana {
            InputMode::Hiragana
        } else {
            InputMode::Katakana
        };
        self.refresh_input_state()
    }

    /// Commit the composition in the form that a function key asks for.
    pub fn commit_kana_form(&mut self, keysym: Keysym) -> (result: EngineResult)
        requires
            old(self)@.ready(),
        ensures
            (final(self)@, result@) == old(self)@.committed(old(self)@.kana_form(keysym)),
            final(self)@.wf(),
    {
        let text = match keysym {
            Keysym::F6 => self.settled_reading(),
            Keysym::F7 | Keysym::MUHENKAN => hiragana_to_katakana(
                self.settled_reading().as_str(),
            ),
            Keysym::F8 => to_half_katakana(self.settled_reading().as_str()),
            Keysym::F9 => to_fullwidth(self.raw_text().as_str()),
            _ => self.raw_text(),
        };
        self.commit_text(text)
    }

    /// Commit the composition as it is.
    pub fn commit_composing(&mut self) -> (result: EngineResult)
        requires
            old(self)@.ready(),
        ensures
            (final(self)@, result@) == old(self)@.committed(old(self)@.composed_text()),
            final(self)@.wf(),
    {
        let text = if self.live.shown {
            let mut text = self.live.text.clone();
            append(&mut text, self.romaji.settled_kana().as_str());
            text
        } else if self.input_mode == InputMode::Katakana {
            hiragana_to_katakana(self.settled_reading().as_str())
        } else {
            self.settled_reading()
        };
        self.commit_text(text)
    }

    /// Split the text for the model at the caret.
    pub fn insert_chunk_break(&mut self) -> (result: EngineResult)
        requires
            old(self)@.ready(),
        ensures
            (final(self)@, result@) == old(self)@.chunk_broken(),
            final(self)@.wf(),
    {
        let at = self.input_buf.cursor_pos;
        let mut known = false;
        let n = self.chunk_breaks.len();
        for i in 0..n
            invariant
                n == self.chunk_breaks@.len(),
                self@ == old(self)@,
                known == exists|j: int| 0 <= j < i && #[trigger] self.chunk_breaks@[j] == at,
        {
            if self.chunk_breaks[i] == at {
                known = true;
            }
        }
        assert(known == self@.chunk_breaks.contains(at));
        if !known {
            self.chunk_breaks.push(at);
        }
        self.refresh_input_state()
    }

    /// Go to another mode.
    pub fn set_input_mode(&mut self, mode: InputMode)
        requires
            old(self)@.wf(),
        ensures
            final(self)@ == old(self)@.in_input_mode(mode),
            final(self)@.wf(),
    {
        self.flush_romaji_to_composed();
        self.input_mode = mode;
        let composing = match self.state {
            InputState::Composing { .. } => true,
            _ => false,
        };
        if composing {
            self.set_composing_state();
        }
    }

    /// Handle a key while composing.
    pub fn process_key_composing(&mut self, key: &KeyEvent, shift_active: bool) -> (result:
        EngineResult)
        requires
            old(self)@.wf(),
        ensures
            (final(self)@, result@) == old(self)@.composing_key(*key, shift_active),
            final(self)@.wf(),
    {
        if key.modifiers.alt_key {
            return EngineResult::not_consumed();
        }
        if key.modifiers.control_key {
            return match key.keysym {
                Keysym::SPACE => self.input_wide_space(),
                Keysym::Character(c) => if c == 'a' || c == 'A' {
                    self.move_caret_home()
                } else if c == 'e' || c == 'E' {
                    self.move_caret_end()
                } else if c == 'b' || c == 'B' {
                    self.move_caret_left()
                } else if c == 'f' || c == 'F' {
                    self.move_caret_right()
                } else if c == 'j' || c == 'J' {
                    self.insert_chunk_break()
                } else {
                    EngineResult::consumed()
                },
                _ => EngineResult::consumed(),
            };
        }
        match key.keysym {
            Keysym::RETURN => self.commit_composing(),
            Keysym::ESCAPE => self.clear_composition(),
            Keysym::BACKSPACE => self.backspace_composing(),
            Keysym::DELETE => self.delete_composing(),
            Keysym::LEFT => self.move_caret_left(),
            Keysym::RIGHT => self.move_caret_right(),
            Keysym::HOME => self.move_caret_home(),
            Keysym::END => self.move_caret_end(),
            Keysym::SPACE => if shift_active {
                self.insert_direct(' ', ' ');
                self.refresh_input_state()
            } else {
                self.start_conversion(LearningLookup::Use)
            },
            Keysym::DOWN => self.start_conversion(LearningLookup::Use),
            Keysym::TAB => self.start_conversion(LearningLookup::Skip),
            Keysym::F6 | Keysym::F7 | Keysym::F8 | Keysym::F9 | Keysym::F10 => {
                self.commit_kana_form(key.keysym)
            },
            Keysym::MUHENKAN => self.toggle_katakana_composing(),
            _ => match key.to_char() {
                Some(c) => self.input_char(c),
                None => EngineResult::consumed(),
            },
        }
    }

    /// Handle a key while nothing is under composition.
    pub fn process_key_empty(&mut self, key: &KeyEvent) -> (result: EngineResult)
        requires
            old(self)@.wf(),
        ensures
            (final(self)@, result@) == old(self)@.empty_key(*key),
            final(self)@.wf(),
    {
        if key.modifiers.alt_key {
            return EngineResult::not_consumed();
        }
        if key.modifiers.control_key {
            if key.keysym == Keysym::SPACE {
                return self.input_wide_space();
            }
            return EngineResult::not_consumed();
        }
        if key.keysym == Keysym::SPACE {
            return EngineResult::not_consumed();
        }
        match key.to_char() {
            Some(c) => self.input_char(c),
            None => EngineResult::not_consumed(),
        }
    }
}

} // verus!
