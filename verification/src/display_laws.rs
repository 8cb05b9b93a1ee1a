//! What the application is told to show.

use vstd::prelude::*;

use crate::action::ActionView;
use crate::composition_laws;
use crate::editing_laws;
use crate::engine::{EngineView, Step};
use crate::key;
use crate::key::Keysym;
use crate::part_laws;
use crate::preedit::PreeditView;
use crate::state::{InputMode, StateView};
use crate::text_laws;

verus! {

/// A step that leaves a composition tells it as it is shown, and the sign of the
/// mode.
pub open spec fn tells_composition(step: Step) -> bool {
    match step.0.state {
        StateView::Composing { preedit } => {
            &&& step.1.actions.contains(ActionView::UpdatePreedit(preedit))
            &&& step.1.actions.contains(
                ActionView::UpdateAuxText(seq![text_laws::sign(step.0.mode)]),
            )
        },
        _ => false,
    }
}

/// A step that leaves nothing under composition tells that nothing is shown: no
/// text, no candidates, no text beside them.
pub open spec fn tells_nothing_is_left(step: Step) -> bool {
    &&& step.0.state is Empty
    &&& step.1.actions.contains(
        ActionView::UpdatePreedit(PreeditView { segments: Seq::empty(), caret: 0 }),
    )
    &&& step.1.actions.contains(ActionView::HideCandidates)
    &&& step.1.actions.contains(ActionView::HideAuxText)
}

/// An edit tells the composition.
proof fn lemma_refreshed(e: EngineView)
    ensures
        tells_composition(e.refreshed()),
{
    let actions = e.refreshed().1.actions;
    text_laws::law_modes_have_signs(e.mode);
    assert(actions[0] is UpdatePreedit);
    assert(actions[2] is UpdateAuxText);
}

/// A moved caret tells the composition, and that the suggestions are gone.
proof fn lemma_caret_moved(e: EngineView, position: int)
    ensures
        tells_composition(e.caret_moved(position)),
        e.caret_moved(position).1.actions.contains(ActionView::HideCandidates),
{
    let actions = e.caret_moved(position).1.actions;
    text_laws::law_modes_have_signs(e.mode);
    assert(actions[0] is UpdatePreedit);
    assert(actions[1] is HideCandidates);
    assert(actions[2] is UpdateAuxText);
}

/// The end of a composition tells that nothing is left.
proof fn lemma_cleared(e: EngineView)
    ensures
        tells_nothing_is_left(e.cleared()),
{
    let actions = e.cleared().1.actions;
    assert(actions[0] == ActionView::UpdatePreedit(
        PreeditView { segments: Seq::empty(), caret: 0 },
    ));
    assert(actions[1] is HideCandidates);
    assert(actions[2] is HideAuxText);
}

/// Characters and full-width spaces typed tell the composition that they leave.
pub proof fn law_typing_is_told(e: EngineView, c: char)
    requires
        !(e.state is Conversion),
        key::is_printable(c),
    ensures
        tells_composition(e.pressed(composition_laws::character_key(c))),
        tells_composition(e.pressed(editing_laws::control_key(Keysym::SPACE))),
{
    lemma_refreshed(e.inserted(c, c));
    lemma_refreshed(EngineView { mode: InputMode::Alphabet, ..e.inserted(c, c) });
    lemma_refreshed(e.romaji_typed(c));
    lemma_refreshed(e.inserted('\u{3000}', ' '));
    assert(e.pressed(composition_laws::character_key(c)) == e.typed(c));
    assert(e.pressed(editing_laws::control_key(Keysym::SPACE)) == e.wide_space_typed());
}

/// The caret keys tell the composition with the caret moved, and that there are
/// no suggestions any more.
pub proof fn law_caret_is_told(e: EngineView)
    requires
        e.state is Composing,
    ensures
        tells_composition(e.pressed(composition_laws::named_key(Keysym::LEFT))),
        tells_composition(e.pressed(composition_laws::named_key(Keysym::RIGHT))),
        tells_composition(e.pressed(composition_laws::named_key(Keysym::HOME))),
        tells_composition(e.pressed(composition_laws::named_key(Keysym::END))),
        e.pressed(composition_laws::named_key(Keysym::LEFT)).1.actions.contains(ActionView::HideCandidates),
        e.pressed(composition_laws::named_key(Keysym::RIGHT)).1.actions.contains(ActionView::HideCandidates),
        e.pressed(composition_laws::named_key(Keysym::HOME)).1.actions.contains(ActionView::HideCandidates),
        e.pressed(composition_laws::named_key(Keysym::END)).1.actions.contains(ActionView::HideCandidates),
{
    let caret = e.flushed().buffer.cursor;
    let end = e.flushed().buffer.text.len() as int;
    assert(e.pressed(composition_laws::named_key(Keysym::LEFT)) == e.caret_left());
    assert(e.pressed(composition_laws::named_key(Keysym::RIGHT)) == e.caret_right());
    assert(e.pressed(composition_laws::named_key(Keysym::HOME)) == e.caret_moved(0));
    assert(e.pressed(composition_laws::named_key(Keysym::END)) == e.caret_moved(end));
    lemma_caret_moved(e, caret - 1);
    lemma_caret_moved(e, 0);
    lemma_caret_moved(e, caret + 1);
    lemma_caret_moved(e, end);
}

/// Removing characters tells the composition that is left, or that none is;
/// escape tells that none is.
pub proof fn law_removal_is_told(e: EngineView)
    requires
        e.state is Composing,
    ensures
        e.pending.len() > 0 || e.buffer.cursor > 0 ==> {
            let step = e.pressed(composition_laws::named_key(Keysym::BACKSPACE));
            tells_composition(step) || tells_nothing_is_left(step)
        },
        e.pending.len() == 0 && e.buffer.cursor < e.buffer.text.len() ==> {
            let step = e.pressed(composition_laws::named_key(Keysym::DELETE));
            tells_composition(step) || tells_nothing_is_left(step)
        },
        tells_nothing_is_left(e.pressed(composition_laws::named_key(Keysym::ESCAPE))),
{
    assert(e.pressed(composition_laws::named_key(Keysym::BACKSPACE)) == e.backspaced());
    assert(e.pressed(composition_laws::named_key(Keysym::DELETE)) == e.deleted());
    assert(e.pressed(composition_laws::named_key(Keysym::ESCAPE)) == e.cleared());
    lemma_cleared(e);
    lemma_backspace(e);
    let cut = EngineView { buffer: e.buffer.cut(e.buffer.cursor, e.buffer.cursor + 1), ..e };
    lemma_refreshed(cut);
    lemma_cleared(cut);
}

/// A backspace tells what it leaves.
proof fn lemma_backspace(e: EngineView)
    ensures
        e.pending.len() > 0 || e.buffer.cursor > 0 ==> tells_composition(e.backspaced())
            || tells_nothing_is_left(e.backspaced()),
{
    let fewer = EngineView { pending: e.pending.drop_last(), ..e };
    lemma_cleared(fewer);
    lemma_cleared(e.without_group_before());
    lemma_refreshed(e.without_group_before());
    text_laws::law_modes_have_signs(e.mode);
    if e.pending.len() > 0 && !fewer.is_blank() {
        let actions = e.backspaced().1.actions;
        assert(actions[0] is UpdatePreedit);
        assert(actions[1] is UpdateAuxText);
    }
}

/// A turn to the other script and a live conversion tell what they show.
pub proof fn law_other_changes_are_told(e: EngineView, text: Seq<char>)
    requires
        e.state is Composing,
    ensures
        tells_composition(e.pressed(composition_laws::named_key(Keysym::MUHENKAN))),
        ({
            let step = e.live_shown(text);
            step.0.state matches StateView::Composing { preedit } && step.1.actions.contains(
                ActionView::UpdatePreedit(preedit),
            )
        }),
{
    lemma_refreshed(EngineView { mode: InputMode::Hiragana, ..e.flushed() });
    lemma_refreshed(EngineView { mode: InputMode::Katakana, ..e.flushed() });
    assert(e.pressed(composition_laws::named_key(Keysym::MUHENKAN)) == e.katakana_toggled());
    assert(e.live_shown(text).1.actions[0] is UpdatePreedit);
}

/// A conversion that is ended by escape, and one that is committed with a tail,
/// tell the composition that they leave.
pub proof fn law_end_of_conversion_is_told(e: EngineView)
    requires
        e.wf(),
        e.state is Conversion,
    ensures
        !e.is_blank() ==> tells_composition(e.pressed(composition_laws::named_key(Keysym::ESCAPE))),
        e.tail is Some && (part_laws::chosen_text(e).len() > 0 || e.confirmed.len() > 0) ==> e.pressed(
            composition_laws::named_key(Keysym::RETURN),
        ).1.actions.contains(ActionView::UpdateAuxText(seq![text_laws::sign(e.mode)])),
        e.tail is Some && (part_laws::chosen_text(e).len() > 0 || e.confirmed.len() > 0) ==> (e.pressed(
            composition_laws::named_key(Keysym::RETURN),
        ).0.state matches StateView::Composing { preedit } && e.pressed(
            composition_laws::named_key(Keysym::RETURN),
        ).1.actions.contains(ActionView::UpdatePreedit(preedit))),
{
    text_laws::law_modes_have_signs(e.mode);
    assert(e.pressed(composition_laws::named_key(Keysym::ESCAPE)) == e.cancelled());
    assert(e.pressed(composition_laws::named_key(Keysym::RETURN)) == e.commit());
    if !e.is_blank() {
        let actions = e.cancelled().1.actions;
        assert(actions[0] is UpdatePreedit);
        assert(actions[2] is UpdateAuxText);
    }
    if e.tail is Some && (part_laws::chosen_text(e).len() > 0 || e.confirmed.len() > 0) {
        let actions = e.commit().1.actions;
        assert(actions[2] is UpdatePreedit);
        assert(actions[3] is UpdateAuxText);
    }
}

} // verus!
