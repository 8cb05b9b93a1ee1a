//! What the keys do to the candidate list of a conversion, and what is shown of
//! it.

use vstd::prelude::*;

use crate::candidate::{CandidateSource, ListView};
use crate::composition_laws;
use crate::editing_laws;
use crate::engine;
use crate::engine::{EngineView, Step};
use crate::key::Keysym;
use crate::navigate::Navigation;
use crate::part_laws;
use crate::text;

verus! {

/// The same conversion: of the same parts and the same list, all but what is
/// selected and shown.
pub open spec fn same_conversion(a: EngineView, b: EngineView) -> bool {
    &&& a.state is Conversion
    &&& b.state is Conversion
    &&& part_laws::rows_shown(a) == part_laws::rows_shown(b)
    &&& part_laws::reading_shown(a) == part_laws::reading_shown(b)
    &&& a.state.filter() == b.state.filter()
    &&& a == (EngineView { state: a.state, ..b })
}

/// Whether a step selects the row at `at` in the same conversion, and tells so.
pub open spec fn selects(e: EngineView, step: Step, at: int) -> bool {
    &&& same_conversion(step.0, e)
    &&& part_laws::list_shown(step.0).cursor == at
    &&& part_laws::tells_conversion(step)
    &&& part_laws::rows_shown(e)[at].reading matches Some(reading) ==> part_laws::tells_aux(step, reading)
}

/// A move to a row, once the list is known.
pub proof fn lemma_moved(e: EngineView, navigation: Navigation)
    requires
        e.wf(),
        part_laws::rows_shown(e).len() > 0,
        0 <= part_laws::list_shown(e).navigated(navigation).cursor < part_laws::rows_shown(e).len(),
    ensures
        selects(e, e.navigated(navigation), part_laws::list_shown(e).navigated(navigation).cursor),
{
    let step = e.navigated(navigation);
    let list = part_laws::list_shown(e).navigated(navigation);
    assert(list.candidates == part_laws::rows_shown(e));
    assert(step.1.actions[0] is UpdatePreedit);
    assert(step.1.actions[1] is ShowCandidates);
    assert(step.1.actions[2] is UpdateAuxText);
    part_laws::lemma_preedit(e, list.candidates[list.cursor].text);
    part_laws::lemma_same_parts(
        e,
        step.0,
        e.conversion_preedit(list.candidates[list.cursor].text),
        list.candidates[list.cursor].text,
    );
}

/// The next candidate is the one after, and the first after the last: by space,
/// down, tab, and control with n. The candidate before is the one before, and the
/// last before the first: by up, shift with tab, and control with p. The list
/// stays what it is, and what is shown goes with the selection.
pub proof fn law_next_and_previous(e: EngineView)
    requires
        e.wf(),
        e.state is Conversion,
        part_laws::rows_shown(e).len() > 0,
    ensures
        ({
            let n = part_laws::rows_shown(e).len() as int;
            let at = part_laws::list_shown(e).cursor;
            let next = if at == n - 1 {
                0
            } else {
                at + 1
            };
            let before = if at == 0 {
                n - 1
            } else {
                at - 1
            };
            &&& selects(e, e.pressed(composition_laws::named_key(Keysym::SPACE)), next)
            &&& selects(e, e.pressed(composition_laws::named_key(Keysym::DOWN)), next)
            &&& selects(e, e.pressed(composition_laws::named_key(Keysym::TAB)), next)
            &&& selects(e, e.pressed(editing_laws::control_key(Keysym::Character('n'))), next)
            &&& selects(e, e.pressed(editing_laws::control_key(Keysym::Character('N'))), next)
            &&& selects(e, e.pressed(composition_laws::named_key(Keysym::UP)), before)
            &&& selects(e, e.pressed(composition_laws::named_key(Keysym::ISO_LEFT_TAB)), before)
            &&& selects(e, e.pressed(editing_laws::shift_key(Keysym::TAB)), before)
            &&& selects(e, e.pressed(editing_laws::control_key(Keysym::Character('p'))), before)
            &&& selects(e, e.pressed(editing_laws::control_key(Keysym::Character('P'))), before)
        }),
{
    let next = e.navigated(Navigation::Next);
    let before = e.navigated(Navigation::Prev);
    lemma_moved(e, Navigation::Next);
    lemma_moved(e, Navigation::Prev);
    assert(e.pressed(composition_laws::named_key(Keysym::SPACE)) == next);
    assert(e.pressed(composition_laws::named_key(Keysym::DOWN)) == next);
    assert(e.pressed(composition_laws::named_key(Keysym::TAB)) == next);
    assert(e.pressed(editing_laws::control_key(Keysym::Character('n'))) == next);
    assert(e.pressed(editing_laws::control_key(Keysym::Character('N'))) == next);
    assert(e.pressed(composition_laws::named_key(Keysym::UP)) == before);
    assert(e.pressed(composition_laws::named_key(Keysym::ISO_LEFT_TAB)) == before);
    assert(e.pressed(editing_laws::shift_key(Keysym::TAB)) == before);
    assert(e.pressed(editing_laws::control_key(Keysym::Character('p'))) == before);
    assert(e.pressed(editing_laws::control_key(Keysym::Character('P'))) == before);
}

/// A page has nine candidates. Page down selects the first of the next page, and
/// page up the first of the page before; on the last page and on the first the
/// selection stays.
pub proof fn law_pages_turn(e: EngineView)
    requires
        e.wf(),
        e.state is Conversion,
        part_laws::rows_shown(e).len() > 0,
    ensures
        ({
            let n = part_laws::rows_shown(e).len() as int;
            let at = part_laws::list_shown(e).cursor;
            let page = at / 9;
            &&& selects(
                e,
                e.pressed(composition_laws::named_key(Keysym::PAGE_DOWN)),
                if 9 * (page + 1) < n {
                    9 * (page + 1)
                } else {
                    at
                },
            )
            &&& selects(
                e,
                e.pressed(composition_laws::named_key(Keysym::PAGE_UP)),
                if page > 0 {
                    9 * (page - 1)
                } else {
                    at
                },
            )
        }),
{
    lemma_moved(e, Navigation::NextPage);
    lemma_moved(e, Navigation::PrevPage);
}

/// In an empty list nothing moves.
pub proof fn law_nothing_to_select(e: EngineView)
    requires
        e.wf(),
        e.state is Conversion,
        part_laws::rows_shown(e).len() == 0,
    ensures
        e.pressed(composition_laws::named_key(Keysym::SPACE)).0 == e,
        e.pressed(composition_laws::named_key(Keysym::DOWN)).0 == e,
        e.pressed(composition_laws::named_key(Keysym::TAB)).0 == e,
        e.pressed(composition_laws::named_key(Keysym::UP)).0 == e,
        e.pressed(composition_laws::named_key(Keysym::PAGE_DOWN)).0 == e,
        e.pressed(composition_laws::named_key(Keysym::PAGE_UP)).0 == e,
{
}

/// What is said of a conversion beside the list: the source that it is narrowed
/// to, the reading, and the page that the selection is on with the number of
/// pages, nine candidates to a page.
pub proof fn law_aux_tells_page(
    filter: Option<CandidateSource>,
    reading: Seq<char>,
    list: ListView,
)
    requires
        list.wf(),
    ensures
        ({
            let pages = if list.candidates.len() == 0 {
                1
            } else {
                (list.candidates.len() - 1) / 9 + 1
            };
            let page = list.cursor / 9 + 1;
            &&& engine::conversion_aux(filter, reading, list) == (match filter {
                Some(CandidateSource::Learning) => "[学習] "@,
                Some(CandidateSource::UserDictionary) => "[ユーザー辞書] "@,
                Some(CandidateSource::Model) => "[モデル] "@,
                Some(CandidateSource::Dictionary) => "[辞書] "@,
                _ => Seq::empty(),
            }) + reading + seq![' '] + text::decimal_text(page as nat) + seq!['/']
                + text::decimal_text(pages as nat)
            &&& 1 <= page <= pages
        }),
{
    reveal_strlit("");
    reveal_strlit(" ");
    reveal_strlit("/");
    assert(""@ =~= Seq::<char>::empty());
    assert(" "@ =~= seq![' ']);
    assert("/"@ =~= seq!['/']);
}

} // verus!
