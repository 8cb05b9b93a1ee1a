//! Cursor movement and character deletion

use vstd::prelude::*;

use crate::action;
use crate::action::{ActionView, EngineAction, EngineResult};
use crate::buffer;
use crate::buffer::BufferView;
use crate::engine;
use crate::engine::{EngineView, InputMethodEngine, LiveConversion, LiveView, Step};
use crate::preedit::Preedit;
use crate::romaji;

verus! {

impl EngineView {
    /// The caret put at `position`, with the waiting keys resolved and the live
    /// conversion gone.
    pub open spec fn caret_at(self, position: int) -> EngineView {
        EngineView {
            buffer: BufferView { cursor: position, ..self.flushed().buffer },
            live: LiveView { text: Seq::empty(), shown: false },
            ..self.flushed()
        }
    }

    /// The caret moved to `position`.
    pub open spec fn caret_moved(self, position: int) -> Step {
        let moved = self.caret_at(position);
        (
            moved.composing(),
            action::taken(
                seq![
                    ActionView::UpdatePreedit(moved.composing_preedit()),
                    ActionView::HideCandidates,
                    ActionView::UpdateAuxText(engine::mode_label(self.mode)),
                ],
            ),
        )
    }

    /// The caret one to the left of where it stands once the waiting keys are
    /// resolved, at the start at most.
    pub open spec fn caret_left(self) -> Step {
        let caret = self.flushed().buffer.cursor;
        self.caret_moved(
            if caret > 0 {
                caret - 1
            } else {
                0
            },
        )
    }

    /// The caret one to the right of where it stands once the waiting keys are
    /// resolved, at the end at most.
    pub open spec fn caret_right(self) -> Step {
        let caret = self.flushed().buffer.cursor;
        let end = self.flushed().buffer.text.len() as int;
        self.caret_moved(
            if caret < end {
                caret + 1
            } else {
                end
            },
        )
    }

    /// The caret at the start.
    pub open spec fn caret_home(self) -> Step {
        self.caret_moved(0)
    }

    /// The caret at the end, after what the waiting keys became.
    pub open spec fn caret_end(self) -> Step {
        self.caret_moved(self.flushed().buffer.text.len() as int)
    }

    /// The composition gone.
    pub open spec fn cleared(self) -> Step {
        (self.ended(), action::taken(EngineView::cleared_actions()))
    }

    /// The engine after an edit: at rest if no text is left, and else composing.
    pub open spec fn edited(self) -> Step {
        if self.is_blank() {
            self.cleared()
        } else {
            self.refreshed()
        }
    }

    /// The group before the caret removed from the text.
    pub open spec fn without_group_before(self) -> EngineView {
        EngineView {
            buffer: self.buffer.cut(
                buffer::group_start(self.buffer.raws, self.buffer.cursor - 1),
                self.buffer.cursor,
            ),
            ..self
        }
    }

    /// A backspace: it takes back a waiting key, or else removes the character
    /// before the caret with the rest of its group.
    pub open spec fn backspaced(self) -> Step {
        if self.pending.len() > 0 {
            let fewer = EngineView { pending: self.pending.drop_last(), ..self };
            if fewer.is_blank() {
                fewer.cleared()
            } else {
                (
                    fewer.composing(),
                    action::taken(
                        seq![
                            ActionView::UpdatePreedit(fewer.composing_preedit()),
                            ActionView::UpdateAuxText(engine::mode_label(self.mode)),
                        ],
                    ),
                )
            }
        } else if self.buffer.cursor > 0 {
            self.without_group_before().edited()
        } else {
            (self, action::taken(Seq::empty()))
        }
    }

    /// The delete key: it removes the character at the caret, unless keys wait
    /// there.
    pub open spec fn deleted(self) -> Step {
        if self.pending.len() > 0 || self.buffer.cursor >= self.buffer.text.len() {
            (self, action::taken(Seq::empty()))
        } else {
            EngineView {
                buffer: self.buffer.cut(self.buffer.cursor, self.buffer.cursor + 1),
                ..self
            }.edited()
        }
    }
}

impl InputMethodEngine {
    /// Common helper for cursor movement: flush romaji, clear live conversion,
    /// set new position
    fn move_caret(&mut self, new_pos: usize) -> (result: EngineResult)
        requires
            old(self)@.ready(),
            new_pos <= old(self)@.flushed().buffer.text.len(),
        ensures
            (final(self)@, result@) == old(self)@.caret_moved(new_pos as int),
            final(self)@.wf(),
    {
        self.flush_romaji_to_composed();
        self.live = LiveConversion { text: String::new(), shown: false };
        self.input_buf.cursor_pos = new_pos;
        assert(self@ =~= old(self)@.caret_at(new_pos as int));
        let shown = self.set_composing_state();
        let result = EngineResult::consumed().with_action(
            EngineAction::UpdatePreedit(shown),
        ).with_action(EngineAction::HideCandidates).with_action(
            EngineAction::UpdateAuxText(self.format_aux_composing()),
        );
        assert(result@ =~= old(self)@.caret_moved(new_pos as int).1);
        result
    }

    /// Handle backspace in composing mode
    pub fn backspace_composing(&mut self) -> (result: EngineResult)
        requires
            old(self)@.wf(),
        ensures
            (final(self)@, result@) == old(self)@.backspaced(),
            final(self)@.wf(),
    {
        // If keys wait, take back one of them (not from the composed text)
        if !self.romaji.is_empty() {
            proof {
                romaji::lemma_open_prefix(self@.pending);
            }
            self.romaji.backspace();
            if self.is_blank() {
                return self.clear_composition();
            }
            let shown = self.set_composing_state();
            let result = EngineResult::consumed().with_action(
                EngineAction::UpdatePreedit(shown),
            ).with_action(EngineAction::UpdateAuxText(self.format_aux_composing()));
            assert(result@ =~= old(self)@.backspaced().1);
            return result;
        }
        if self.input_buf.cursor_pos == 0 {
            // Nothing to delete
            return EngineResult::consumed();
        }
        // A secondary char of a multi-kana group (e.g. "ゃ" from "kya") has an
        // empty raw entry. Delete back through the group to its root so that
        // F9/F10 never emit romaji for chars that no longer exist.
        self.input_buf.remove_group_before_cursor();
        self.finish_edit()
    }

    /// Move caret left within hiragana input
    pub fn move_caret_left(&mut self) -> (result: EngineResult)
        requires
            old(self)@.ready(),
        ensures
            (final(self)@, result@) == old(self)@.caret_left(),
            final(self)@.wf(),
    {
        // The waiting keys become part of the input before the caret moves.
        self.flush_romaji_to_composed();
        proof {
            lemma_flushed_once(old(self)@.flushed());
        }
        let caret = self.input_buf.cursor_pos;
        let new_pos = if caret > 0 {
            caret - 1
        } else {
            0
        };
        self.move_caret(new_pos)
    }

    /// Move caret right within hiragana input
    pub fn move_caret_right(&mut self) -> (result: EngineResult)
        requires
            old(self)@.ready(),
        ensures
            (final(self)@, result@) == old(self)@.caret_right(),
            final(self)@.wf(),
    {
        self.flush_romaji_to_composed();
        proof {
            lemma_flushed_once(old(self)@.flushed());
        }
        let caret = self.input_buf.cursor_pos;
        let total = self.input_buf.text.len();
        let new_pos = if caret < total {
            caret + 1
        } else {
            total
        };
        self.move_caret(new_pos)
    }

    /// Handle delete key in hiragana mode
    pub fn delete_composing(&mut self) -> (result: EngineResult)
        requires
            old(self)@.wf(),
        ensures
            (final(self)@, result@) == old(self)@.deleted(),
            final(self)@.wf(),
    {
        // While keys wait at the caret, don't delete from the composed text
        if !self.romaji.is_empty() {
            return EngineResult::consumed();
        }
        if !self.input_buf.remove_char_at_cursor() {
            return EngineResult::consumed();
        }
        self.finish_edit()
    }

    /// Move caret to start of input
    pub fn move_caret_home(&mut self) -> (result: EngineResult)
        requires
            old(self)@.ready(),
        ensures
            (final(self)@, result@) == old(self)@.caret_home(),
            final(self)@.wf(),
    {
        self.move_caret(0)
    }

    /// Move caret to end of input
    pub fn move_caret_end(&mut self) -> (result: EngineResult)
        requires
            old(self)@.ready(),
        ensures
            (final(self)@, result@) == old(self)@.caret_end(),
            final(self)@.wf(),
    {
        self.flush_romaji_to_composed();
        proof {
            lemma_flushed_once(old(self)@.flushed());
        }
        let total = self.input_buf.text.len();
        self.move_caret(total)
    }

    /// Whether nothing is under composition.
    pub fn is_blank(&self) -> (blank: bool)
        ensures
            blank == self@.is_blank(),
    {
        self.input_buf.is_empty() && self.romaji.is_empty()
    }

    /// End the composition, and have the application show nothing of it.
    pub fn clear_composition(&mut self) -> (result: EngineResult)
        ensures
            (final(self)@, result@) == old(self)@.cleared(),
            final(self)@.wf(),
    {
        self.end_composition();
        let result = EngineResult::consumed().with_action(
            EngineAction::UpdatePreedit(Preedit::new()),
        ).with_action(EngineAction::HideCandidates).with_action(EngineAction::HideAuxText);
        assert(result@ =~= old(self)@.cleared().1);
        result
    }

    /// Come to rest if no text is left after an edit, and else go on composing.
    pub fn finish_edit(&mut self) -> (result: EngineResult)
        requires
            old(self)@.ready(),
        ensures
            (final(self)@, result@) == old(self)@.edited(),
            final(self)@.wf(),
    {
        if self.is_blank() {
            return self.clear_composition();
        }
        self.refresh_input_state()
    }
}

/// Where no key waits, there is nothing to resolve.
proof fn lemma_flushed_once(e: EngineView)
    requires
        e.pending.len() == 0,
    ensures
        e.flushed() == e,
{
    assert(e.pending =~= Seq::<char>::empty());
    assert(e.flushed() =~= e);
}

} // verus!
