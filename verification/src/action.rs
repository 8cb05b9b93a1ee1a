//! What the engine asks of the application after a key.

use vstd::prelude::*;

use crate::candidate::{CandidateList, ListView};
use crate::preedit::{Preedit, PreeditView};
use crate::text;

verus! {

/// One thing to do for the application.
#[derive(Debug)]
pub enum EngineAction {
    UpdatePreedit(Preedit),
    ShowCandidates(CandidateList),
    HideCandidates,
    UpdateAuxText(String),
    HideAuxText,
    Commit(String),
}

/// An action as texts.
#[verifier::ext_equal]
pub enum ActionView {
    UpdatePreedit(PreeditView),
    ShowCandidates(ListView),
    HideCandidates,
    UpdateAuxText(Seq<char>),
    HideAuxText,
    Commit(Seq<char>),
}

impl View for EngineAction {
    type V = ActionView;

    open spec fn view(&self) -> ActionView {
        match *self {
            EngineAction::UpdatePreedit(preedit) => ActionView::UpdatePreedit(preedit@),
            EngineAction::ShowCandidates(list) => ActionView::ShowCandidates(list@),
            EngineAction::HideCandidates => ActionView::HideCandidates,
            EngineAction::UpdateAuxText(aux) => ActionView::UpdateAuxText(aux@),
            EngineAction::HideAuxText => ActionView::HideAuxText,
            EngineAction::Commit(text) => ActionView::Commit(text@),
        }
    }
}

/// The outcome of a key: whether the engine took it, and what to do.
#[derive(Debug)]
pub struct EngineResult {
    pub consumed: bool,
    pub actions: Vec<EngineAction>,
}

/// The outcome of a key, with the actions as texts.
#[verifier::ext_equal]
pub struct ResultView {
    pub consumed: bool,
    pub actions: Seq<ActionView>,
}

/// The key was taken, and this is to be done.
pub open spec fn taken(actions: Seq<ActionView>) -> ResultView {
    ResultView { consumed: true, actions }
}

/// The key was left to the application.
pub open spec fn left_alone() -> ResultView {
    ResultView { consumed: false, actions: Seq::empty() }
}

impl View for EngineResult {
    type V = ResultView;

    open spec fn view(&self) -> ResultView {
        ResultView { consumed: self.consumed, actions: text::views(self.actions@) }
    }
}

impl EngineResult {
    /// The key was taken, and nothing is to be done.
    pub fn consumed() -> (result: Self)
        ensures
            result@ == taken(Seq::empty()),
    {
        let result = EngineResult { consumed: true, actions: Vec::new() };
        assert(result@ =~= taken(Seq::empty()));
        result
    }

    /// The key was left to the application.
    pub fn not_consumed() -> (result: Self)
        ensures
            result@ == left_alone(),
    {
        let result = EngineResult { consumed: false, actions: Vec::new() };
        assert(result@ =~= left_alone());
        result
    }

    /// The same outcome with one more thing to do.
    pub fn with_action(self, action: EngineAction) -> (result: Self)
        ensures
            result@ == (ResultView { actions: self@.actions.push(action@), ..self@ }),
    {
        let mut actions = self.actions;
        actions.push(action);
        let result = EngineResult { consumed: self.consumed, actions };
        assert(result@.actions =~= self@.actions.push(action@));
        result
    }

    /// The same outcome with the actions of another after its own.
    pub fn with_actions_of(self, next: EngineResult) -> (result: Self)
        ensures
            result@ == (ResultView { actions: self@.actions + next@.actions, ..self@ }),
    {
        let mut actions = self.actions;
        let mut more = next.actions;
        actions.append(&mut more);
        let result = EngineResult { consumed: self.consumed, actions };
        assert(result@.actions =~= self@.actions + next@.actions);
        result
    }
}

} // verus!
