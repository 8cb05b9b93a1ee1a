//! What each key does in each state.

use vstd::prelude::*;

use crate::action;
use crate::action::{EngineResult, ResultView};
use crate::engine::{EngineView, InputMethodEngine, Step};
use crate::filter;
use crate::filter::source_for_key;
use crate::key::{KeyEvent, Keysym};
use crate::navigate::Navigation;
use crate::state::{FilterDirection, InputState, LearningLookup, StateView};

verus! {

/// An edit of the composition from within a conversion.
#[derive(Clone, Copy, PartialEq, Eq, Structural, Debug)]
pub enum ComposingEdit {
    /// A key, as it works while composing, and whether shift is active.
    Key(KeyEvent, bool),
    /// A split for the model at the caret.
    ChunkBreak,
}

impl EngineView {
    /// The composition, untouched by the conversion, edited. Suggestions are
    /// left out where what is shown is thrown away.
    pub open spec fn edited_within(self, discard_render: bool, edit: ComposingEdit) -> Step {
        let composition = EngineView { suppress_suggest: discard_render, ..self.composing() };
        let step = match edit {
            ComposingEdit::Key(key, shift) => composition.composing_key(key, shift),
            ComposingEdit::ChunkBreak => composition.chunk_broken(),
        };
        (EngineView { suppress_suggest: false, ..step.0 }, step.1)
    }

    /// The composition edited by a key, and converted again in the same view if
    /// the candidates were narrowed to one source.
    pub open spec fn refined(self, key: KeyEvent, shift: bool) -> Step {
        let step = self.edited_within(
            self.state.filter() is Some,
            ComposingEdit::Key(key, shift),
        );
        match self.state.filter() {
            Some(source) => if step.0.state is Composing {
                step.0.started_filtered(source)
            } else {
                step
            },
            None => step,
        }
    }

    /// The conversion committed, and the key typed into what follows.
    pub open spec fn continued(self, key: KeyEvent, shift: bool) -> Step {
        let committed = self.commit();
        if !committed.1.consumed {
            committed
        } else {
            match committed.0.state {
                StateView::Empty => {
                    let next = committed.0.empty_key(key);
                    (
                        next.0,
                        ResultView {
                            actions: committed.1.actions + next.1.actions,
                            ..committed.1
                        },
                    )
                },
                StateView::Composing { .. } => {
                    let next = committed.0.composing_key(key, shift);
                    (
                        next.0,
                        ResultView {
                            actions: committed.1.actions + next.1.actions,
                            ..committed.1
                        },
                    )
                },
                StateView::Conversion { .. } => committed,
            }
        }
    }

    /// The text split for the model at the caret, and converted again in the
    /// same view.
    pub open spec fn rebroken(self) -> Step {
        let split = self.edited_within(true, ComposingEdit::ChunkBreak).0;
        match self.state.filter() {
            Some(source) => split.started_filtered(source),
            None => split.started(LearningLookup::Use, false),
        }
    }

    /// A chord of the control key and another key during a conversion; none for
    /// a chord that means nothing.
    pub open spec fn conversion_chord(self, key: KeyEvent, shift: bool) -> Option<Step> {
        match key.keysym {
            Keysym::Character(c) => if c == 'n' || c == 'N' {
                Some(self.navigated(Navigation::Next))
            } else if c == 'p' || c == 'P' {
                Some(self.navigated(Navigation::Prev))
            } else if c == 'r' || c == 'R' {
                Some(self.cycled(FilterDirection::Backward))
            } else if c == 't' || c == 'T' {
                Some(self.cycled(FilterDirection::Forward))
            } else if c == 'j' || c == 'J' {
                Some(self.rebroken())
            } else if c == 'a' || c == 'A' || c == 'b' || c == 'B' || c == 'e' || c == 'E' || c
                == 'f' || c == 'F' {
                Some(self.edited_within(false, ComposingEdit::Key(key, shift)))
            } else {
                match filter::key_source(key.keysym) {
                    Some(source) => Some(self.filtered(source)),
                    None => match key.keysym.digit() {
                        Some(digit) => Some(self.select_shown(digit)),
                        None => None,
                    },
                }
            },
            _ => None,
        }
    }

    /// Any key that has no place of its own during a conversion.
    pub open spec fn conversion_other(self, key: KeyEvent, shift: bool) -> Step {
        if key.modifiers.control_key {
            match self.conversion_chord(key, shift) {
                Some(step) => step,
                None => (self, action::taken(Seq::empty())),
            }
        } else if key.typed() is Some {
            if self.state.filter() is Some {
                self.refined(key, shift)
            } else {
                self.continued(key, shift)
            }
        } else {
            (self, action::taken(Seq::empty()))
        }
    }

    /// A key pressed during a conversion.
    pub open spec fn conversion_key(self, key: KeyEvent, shift: bool) -> Step {
        let shifted = shift || key.modifiers.shift_key;
        if key.modifiers.alt_key {
            (self, action::left_alone())
        } else {
            match key.keysym {
                Keysym::RETURN => self.commit(),
                Keysym::ESCAPE => self.cancelled(),
                Keysym::ISO_LEFT_TAB => self.navigated(Navigation::Prev),
                Keysym::TAB => if key.modifiers.shift_key {
                    self.navigated(Navigation::Prev)
                } else {
                    self.navigated(Navigation::Next)
                },
                Keysym::SPACE | Keysym::DOWN => self.navigated(Navigation::Next),
                Keysym::UP => self.navigated(Navigation::Prev),
                Keysym::PAGE_DOWN => self.navigated(Navigation::NextPage),
                Keysym::PAGE_UP => self.navigated(Navigation::PrevPage),
                Keysym::DELETE => if key.modifiers.control_key
                    && self.state.selected_is_deletable() {
                    self.selected_forgotten()
                } else {
                    (self, action::taken(Seq::empty()))
                },
                Keysym::BACKSPACE => if key.modifiers.control_key {
                    if self.state.selected_is_deletable() {
                        self.selected_forgotten()
                    } else {
                        (self, action::taken(Seq::empty()))
                    }
                } else if self.state.filter() is Some {
                    self.refined(key, shift)
                } else {
                    self.cancelled()
                },
                Keysym::LEFT => if shifted {
                    self.shrunk()
                } else {
                    self.returned()
                },
                Keysym::RIGHT => if shifted {
                    self.expanded()
                } else {
                    self.advanced()
                },
                Keysym::HOME | Keysym::END => self.edited_within(
                    false,
                    ComposingEdit::Key(key, shift),
                ),
                Keysym::F6
                | Keysym::F7
                | Keysym::F8
                | Keysym::F9
                | Keysym::F10
                | Keysym::MUHENKAN => self.committed(self.kana_form(key.keysym)),
                _ => self.conversion_other(key, shift),
            }
        }
    }

    /// A key pressed.
    pub open spec fn pressed(self, key: KeyEvent) -> Step {
        match self.state {
            StateView::Empty => self.empty_key(key),
            StateView::Composing { .. } => self.composing_key(key, key.modifiers.shift_key),
            StateView::Conversion { .. } => self.conversion_key(key, key.modifiers.shift_key),
        }
    }
}

impl InputMethodEngine {
    /// Handle a key.
    pub fn process_key(&mut self, key: &KeyEvent) -> (result: EngineResult)
        requires
            old(self)@.wf(),
        ensures
            (final(self)@, result@) == old(self)@.pressed(*key),
            final(self)@.wf(),
    {
        match self.state {
            InputState::Empty => self.process_key_empty(key),
            InputState::Composing { .. } => {
                self.process_key_composing(key, key.modifiers.shift_key)
            },
            InputState::Conversion { .. } => {
                self.process_key_conversion(key, key.modifiers.shift_key)
            },
        }
    }

    /// Handle a key during a conversion.
    pub fn process_key_conversion(&mut self, key: &KeyEvent, shift_active: bool) -> (result:
        EngineResult)
        requires
            old(self)@.wf(),
        ensures
            (final(self)@, result@) == old(self)@.conversion_key(*key, shift_active),
            final(self)@.wf(),
    {
        // Alt chords pass through before any binding matches: Alt+Tab must
        // navigate and Alt+Return must not commit.
        if key.modifiers.alt_key {
            return EngineResult::not_consumed();
        }
        let shifted = shift_active || key.modifiers.shift_key;
        match key.keysym {
            Keysym::RETURN => self.commit_conversion(),
            Keysym::ESCAPE => self.cancel_conversion(),
            // Tab stays next-candidate and Shift+Tab (ISO_Left_Tab on
            // X11) prev-candidate for mozc-compatible muscle memory.
            Keysym::ISO_LEFT_TAB => self.prev_candidate(),
            Keysym::TAB => if key.modifiers.shift_key {
                self.prev_candidate()
            } else {
                self.next_candidate()
            },
            Keysym::SPACE | Keysym::DOWN => self.next_candidate(),
            Keysym::UP => self.prev_candidate(),
            Keysym::PAGE_DOWN => self.next_candidate_page(),
            Keysym::PAGE_UP => self.prev_candidate_page(),
            // Ctrl+Backspace / Ctrl+Delete: delete the selected learning
            // candidate (the Mac "delete" key is Backspace). A non-learning
            // selection consumes the chord as a no-op.
            Keysym::DELETE => if key.modifiers.control_key && self.selected_is_deletable() {
                self.delete_selected_candidate_from_history()
            } else {
                EngineResult::consumed()
            },
            Keysym::BACKSPACE => if key.modifiers.control_key {
                if self.selected_is_deletable() {
                    self.delete_selected_candidate_from_history()
                } else {
                    EngineResult::consumed()
                }
            } else if self.state.filter().is_some() {
                // Inside a narrowed view Backspace shrinks the reading and
                // stays in the view, so the list re-expands as the query
                // shrinks.
                self.refine_through_composing(key, shift_active)
            } else {
                // Backspace cancels back to the composition, like Escape.
                self.cancel_conversion()
            },
            Keysym::LEFT => if shifted {
                self.shrink_conversion_range()
            } else {
                self.return_to_prev_segment()
            },
            Keysym::RIGHT => if shifted {
                self.expand_conversion_range()
            } else {
                self.advance_to_next_segment()
            },
            // Caret keys drop back to editing: the conversion (and its source
            // filter) dissolves and the raw reading gets the caret.
            Keysym::HOME | Keysym::END => self.in_composing(
                false,
                ComposingEdit::Key(*key, shift_active),
            ),
            // Muhenkan commits katakana here rather than toggling: with a
            // candidate list open there is no composition left to re-render.
            Keysym::F6
            | Keysym::F7
            | Keysym::F8
            | Keysym::F9
            | Keysym::F10
            | Keysym::MUHENKAN => self.commit_kana_form(key.keysym),
            _ => self.process_other_key(key, shift_active),
        }
    }

    /// Handle a key that has no place of its own during a conversion.
    fn process_other_key(&mut self, key: &KeyEvent, shift_active: bool) -> (result: EngineResult)
        requires
            old(self)@.wf(),
        ensures
            (final(self)@, result@) == old(self)@.conversion_other(*key, shift_active),
            final(self)@.wf(),
    {
        if key.modifiers.control_key {
            if let Keysym::Character(c) = key.keysym {
                // Ctrl+N / Ctrl+P: emacs-style candidate navigation
                if c == 'n' || c == 'N' {
                    return self.next_candidate();
                }
                if c == 'p' || c == 'P' {
                    return self.prev_candidate();
                }
                // Ctrl+R / Ctrl+T: cycle the source filter. Both keysym cases —
                // some environments fold Shift into an uppercase keysym;
                // direction must not change.
                if c == 'r' || c == 'R' {
                    return self.cycle_candidate_filter(FilterDirection::Backward);
                }
                if c == 't' || c == 'T' {
                    return self.cycle_candidate_filter(FilterDirection::Forward);
                }
                // Ctrl+J: split at the caret and rebuild, so the alternatives
                // cover only the text after the break.
                if c == 'j' || c == 'J' {
                    return self.rebreak_conversion();
                }
                // Ctrl+A/B/E/F: the same caret moves as while composing,
                // dropping back to editing like the arrow keys above.
                if c == 'a' || c == 'A' || c == 'b' || c == 'B' || c == 'e' || c == 'E' || c
                    == 'f' || c == 'F' {
                    return self.in_composing(false, ComposingEdit::Key(*key, shift_active));
                }
                // Ctrl+Y/U/I/O: jump straight to one source's view.
                if let Some(source) = source_for_key(key.keysym) {
                    return self.jump_to_source(source);
                }
                // Ctrl+1..9: select and commit that candidate. Bare digits
                // refine below like any printable character, so typing numbers
                // never conflicts with selection.
                if let Some(digit) = key.keysym.digit_value() {
                    return self.select_shown_candidate(digit);
                }
            }
            // Everything else is consumed as a no-op — leaked chords would let
            // the app act on them mid-conversion (e.g. a browser reloading on
            // Ctrl+R).
            return EngineResult::consumed();
        }
        // A printable character commits the focused candidate and starts the
        // next composition with that same key. This keeps candidate navigation
        // useful when the user continues typing without pressing Enter.
        if key.to_char().is_some() {
            if self.state.filter().is_some() {
                return self.refine_through_composing(key, shift_active);
            }
            return self.commit_conversion_and_continue(key, shift_active);
        }
        EngineResult::consumed()
    }

    /// Go straight to the view of one source.
    fn jump_to_source(&mut self, source: crate::candidate::CandidateSource) -> (result:
        EngineResult)
        requires
            old(self)@.wf(),
        ensures
            (final(self)@, result@) == old(self)@.filtered(source),
            final(self)@.wf(),
    {
        self.apply_candidate_filter(source)
    }

    /// Feed a refining keystroke (printable char, Backspace) through the
    /// composing path, then re-enter the conversion with the previous
    /// source filter if one was active. With a filter the composing render
    /// is discarded, so its suggestions are suppressed.
    pub fn refine_through_composing(&mut self, key: &KeyEvent, shift_active: bool) -> (result:
        EngineResult)
        requires
            old(self)@.wf(),
        ensures
            (final(self)@, result@) == old(self)@.refined(*key, shift_active),
            final(self)@.wf(),
    {
        let filter = self.state.filter();
        let result = self.in_composing(
            filter.is_some(),
            ComposingEdit::Key(*key, shift_active),
        );
        let composing = match self.state {
            InputState::Composing { .. } => true,
            _ => false,
        };
        if let Some(source) = filter {
            if composing {
                return self.start_conversion_with_filter(source);
            }
        }
        result
    }

    /// Commit the focused candidate, then feed the same printable key into a
    /// fresh or resumed composition so the user can continue typing without
    /// an explicit Enter.
    pub fn commit_conversion_and_continue(&mut self, key: &KeyEvent, shift_active: bool) -> (result:
        EngineResult)
        requires
            old(self)@.wf(),
        ensures
            (final(self)@, result@) == old(self)@.continued(*key, shift_active),
            final(self)@.wf(),
    {
        let result = self.commit_conversion();
        if !result.consumed {
            return result;
        }
        let next = match self.state {
            InputState::Empty => self.process_key_empty(key),
            InputState::Composing { .. } => self.process_key_composing(key, shift_active),
            InputState::Conversion { .. } => {
                return result;
            },
        };
        result.with_actions_of(next)
    }

    /// Insert a chunk break at the caret without leaving the conversion.
    /// The span is the last chunk, so breaking narrows what the model
    /// covers; the rebuilt list keeps the active source filter. The
    /// intermediate composing render is discarded, so its suggestions are
    /// suppressed.
    pub fn rebreak_conversion(&mut self) -> (result: EngineResult)
        requires
            old(self)@.wf(),
        ensures
            (final(self)@, result@) == old(self)@.rebroken(),
            final(self)@.wf(),
    {
        let filter = self.state.filter();
        self.in_composing(true, ComposingEdit::ChunkBreak);
        match filter {
            Some(source) => self.start_conversion_with_filter(source),
            None => self.start_conversion(LearningLookup::Use),
        }
    }

    /// Drop back to the untouched composition and run `edit` there. Set
    /// `discard_render` when the caller rebuilds the conversion afterwards:
    /// the composing render is thrown away, so its suggestions would be pure
    /// waste. The flag lives and dies inside this call, so no other path can
    /// inherit it.
    pub fn in_composing(&mut self, discard_render: bool, edit: ComposingEdit) -> (result: EngineResult)
        requires
            old(self)@.wf(),
        ensures
            (final(self)@, result@) == old(self)@.edited_within(discard_render, edit),
            final(self)@.wf(),
    {
        self.set_composing_state();
        self.suppress_suggest = discard_render;
        let result = match edit {
            ComposingEdit::Key(key, shift_active) => self.process_key_composing(
                &key,
                shift_active,
            ),
            ComposingEdit::ChunkBreak => self.insert_chunk_break(),
        };
        self.suppress_suggest = false;
        result
    }
}

} // verus!
