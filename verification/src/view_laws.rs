//! What the views of one source show, and what is removed in them.

use vstd::prelude::*;

use crate::candidate::{AnnotatedView, CandidateSource, CandidateView};
use crate::composition_laws;
use crate::editing_laws;
use crate::engine::EngineView;
use crate::key::Keysym;
use crate::lexicon;
use crate::lexicon::EntryView;
use crate::lookup;
use crate::lookup_laws;
use crate::navigate::Navigation;
use crate::offer_laws;
use crate::offer_laws::Search;
use crate::part_laws;
use crate::selection_laws;
use crate::state::LearningLookup;
use crate::suggestion_laws;
use crate::text;

verus! {

/// Whether a conversion is of the whole composition.
pub open spec fn is_whole(e: EngineView) -> bool {
    e.tail is None && e.confirmed.len() == 0 && e.upcoming.len() == 0
}

/// What dictionaries and history are searched for in the view of one source: the
/// text composed so far, narrowed by the keys that wait, where the conversion is
/// of the whole composition, and else the reading of the part.
pub open spec fn view_search(e: EngineView) -> Search {
    Search {
        reading: part_laws::reading_shown(e),
        base: if is_whole(e) {
            e.buffer.text
        } else {
            part_laws::reading_shown(e)
        },
        pending: if is_whole(e) {
            e.pending
        } else {
            Seq::empty()
        },
        learning: LearningLookup::Use,
        exact_only: false,
    }
}

/// Rows that show words one for one.
pub open spec fn rows_are(
    e: EngineView,
    rows: Seq<CandidateView>,
    words: Seq<AnnotatedView>,
    reading: Seq<char>,
) -> bool {
    &&& rows.len() == words.len()
    &&& forall|i: int|
        0 <= i < rows.len() ==> {
            &&& offer_laws::row_has_text(e, #[trigger] rows[i], words[i].text)
            &&& rows[i].source == Some(words[i].source)
            &&& rows[i].reading == match words[i].reading {
                Some(own) => Some(own),
                None => Some(reading),
            }
        }
}

/// A view of one source is a conversion of the same reading among the same parts,
/// narrowed to that source: the first row is selected, and every row is of that
/// source.
pub proof fn law_view_is_of_one_source(e: EngineView, source: CandidateSource)
    requires
        e.state is Conversion,
        source == CandidateSource::Learning || source == CandidateSource::UserDictionary || source
            == CandidateSource::Model || source == CandidateSource::Dictionary,
    ensures
        ({
            let step = e.filtered(source);
            let next = step.0;
            &&& next.state is Conversion
            &&& part_laws::reading_shown(next) == part_laws::reading_shown(e)
            &&& next.state.filter() == Some(source)
            &&& part_laws::list_shown(next).cursor == 0
            &&& next.confirmed == e.confirmed
            &&& next.upcoming == e.upcoming
            &&& next.tail == e.tail
            &&& part_laws::tells_entry(step)
            &&& forall|i: int|
                0 <= i < part_laws::rows_shown(next).len() ==> (#[trigger] part_laws::rows_shown(next)[i]).source == Some(
                    source,
                )
            &&& source != CandidateSource::Model ==> next.requested == e.requested
            &&& source == CandidateSource::Model && e.outside.answer(
                part_laws::reading_shown(e),
                e.chunk_breaks,
            ) is None ==> next.requested.contains(part_laws::reading_shown(e))
        }),
{
    let reading = part_laws::reading_shown(e);
    let asked = if source == CandidateSource::Model {
        e.asked(reading)
    } else {
        e
    };
    let rows = e.source_candidates(reading, source);
    let step = e.filtered(source);
    part_laws::lemma_entering_tells(asked, reading, e.list_of(rows), Some(source));
    let s = view_search(e);
    let most = usize::MAX as int;
    let words = lookup::learned_words(suggestion_laws::entries(e.learning), s.base, s.pending, most);
    lookup_laws::law_history_rows(suggestion_laws::entries(e.learning), s.base, s.pending, most);
    assert forall|i: int| 0 <= i < rows.len() implies (#[trigger] rows[i]).source == Some(
        source,
    ) by {
        match source {
            CandidateSource::Learning => {
                assert(lookup_laws::is_learned(suggestion_laws::entries(e.learning), words[i], s.base, s.pending));
            },
            CandidateSource::Model => {},
            _ => {
                lemma_narrowed(e, source, i);
            },
        }
    }
    assert forall|i: int| 0 <= i < part_laws::rows_shown(step.0).len() implies (
    #[trigger] part_laws::rows_shown(step.0)[i]).source == Some(source) by {
        assert(part_laws::rows_shown(step.0)[i].source == rows[i].source);
    }
    if source == CandidateSource::Model {
        if e.requested.contains(reading) {
        } else {
            assert(e.requested.push(reading)[e.requested.len() as int] == reading);
        }
    }
}

/// The words of one dictionary, searched alone.
pub open spec fn words_alone(e: EngineView, source: CandidateSource) -> Seq<AnnotatedView> {
    let s = view_search(e);
    let most = usize::MAX as int;
    if source == CandidateSource::UserDictionary {
        lookup::dictionary_words(suggestion_laws::entries(e.user), Seq::empty(), s.base, s.pending, most, most, 2)
    } else {
        lookup::dictionary_words(Seq::empty(), suggestion_laws::entries(e.system), s.base, s.pending, most, most, 2)
    }
}

/// A search of one dictionary gives words of that dictionary.
proof fn lemma_narrowed(e: EngineView, source: CandidateSource, i: int)
    requires
        source == CandidateSource::UserDictionary || source == CandidateSource::Dictionary,
        0 <= i < words_alone(e, source).len(),
    ensures
        words_alone(e, source)[i].source == source,
{
    let s = view_search(e);
    let most = usize::MAX as int;
    let none = Seq::<EntryView>::empty();
    let words = words_alone(e, source);
    if source == CandidateSource::UserDictionary {
        lookup_laws::law_dictionary_rows(suggestion_laws::entries(e.user), none, s.base, s.pending, most, most, 2);
        assert(lookup_laws::is_in_dictionary(
            suggestion_laws::entries(e.user),
            none,
            words[i],
            s.base,
            s.pending,
        ));
    } else {
        lookup_laws::law_dictionary_rows(none, suggestion_laws::entries(e.system), s.base, s.pending, most, most, 2);
        assert(lookup_laws::is_in_dictionary(
            none,
            suggestion_laws::entries(e.system),
            words[i],
            s.base,
            s.pending,
        ));
    }
}

/// What each view shows: of the history, all that it has for what is searched; of
/// a dictionary, all that a search of it alone gives; of the model, its first
/// conversions, as many as configured, in its order.
pub proof fn law_view_shows_source(e: EngineView)
    requires
        e.state is Conversion,
    ensures
        ({
            let s = view_search(e);
            let most = usize::MAX as int;
            let texts = e.outside.model(s.reading, e.chunk_breaks);
            let shown = part_laws::rows_shown(e.filtered(CandidateSource::Model).0);
            &&& rows_are(
                e,
                part_laws::rows_shown(e.filtered(CandidateSource::Learning).0),
                lookup::learned_words(suggestion_laws::entries(e.learning), s.base, s.pending, most),
                s.reading,
            )
            &&& rows_are(
                e,
                part_laws::rows_shown(e.filtered(CandidateSource::UserDictionary).0),
                words_alone(e, CandidateSource::UserDictionary),
                s.reading,
            )
            &&& rows_are(
                e,
                part_laws::rows_shown(e.filtered(CandidateSource::Dictionary).0),
                words_alone(e, CandidateSource::Dictionary),
                s.reading,
            )
            &&& shown.len() == if texts.len() <= e.config.num_candidates {
                texts.len() as int
            } else {
                e.config.num_candidates as int
            }
            &&& forall|i: int|
                0 <= i < shown.len() ==> offer_laws::row_has_text(e, #[trigger] shown[i], texts[i])
                    && shown[i].reading == Some(s.reading)
        }),
{
    let s = view_search(e);
    let most = usize::MAX as int;
    let words = lookup::learned_words(suggestion_laws::entries(e.learning), s.base, s.pending, most);
    lookup_laws::law_history_rows(suggestion_laws::entries(e.learning), s.base, s.pending, most);
    if e.learning is None && words.len() > 0 {
        assert(lookup_laws::is_learned(suggestion_laws::entries(e.learning), words[0], s.base, s.pending));
    }
    assert forall|i: int| 0 <= i < words.len() implies (#[trigger] words[i]).reading is Some by {
        assert(lookup_laws::is_learned(suggestion_laws::entries(e.learning), words[i], s.base, s.pending));
    }
}

/// The keys of the views: control with y, u, i and o go to the views of the
/// history, the user dictionary, the model and the system dictionary; control
/// with t goes through them in this order and back to all sources, and control
/// with r the other way round.
pub proof fn law_keys_of_views(e: EngineView)
    requires
        e.state is Conversion,
    ensures
        e.pressed(editing_laws::control_key(Keysym::Character('y'))) == e.filtered(CandidateSource::Learning),
        e.pressed(editing_laws::control_key(Keysym::Character('Y'))) == e.filtered(CandidateSource::Learning),
        e.pressed(editing_laws::control_key(Keysym::Character('u'))) == e.filtered(
            CandidateSource::UserDictionary,
        ),
        e.pressed(editing_laws::control_key(Keysym::Character('U'))) == e.filtered(
            CandidateSource::UserDictionary,
        ),
        e.pressed(editing_laws::control_key(Keysym::Character('i'))) == e.filtered(CandidateSource::Model),
        e.pressed(editing_laws::control_key(Keysym::Character('I'))) == e.filtered(CandidateSource::Model),
        e.pressed(editing_laws::control_key(Keysym::Character('o'))) == e.filtered(CandidateSource::Dictionary),
        e.pressed(editing_laws::control_key(Keysym::Character('O'))) == e.filtered(CandidateSource::Dictionary),
        e.pressed(editing_laws::control_key(Keysym::Character('T'))) == e.pressed(
            editing_laws::control_key(Keysym::Character('t')),
        ),
        e.pressed(editing_laws::control_key(Keysym::Character('R'))) == e.pressed(
            editing_laws::control_key(Keysym::Character('r')),
        ),
        ({
            let on = e.pressed(editing_laws::control_key(Keysym::Character('t')));
            let back = e.pressed(editing_laws::control_key(Keysym::Character('r')));
            match e.state.filter() {
                None => on == e.filtered(CandidateSource::Learning) && back == e.filtered(
                    CandidateSource::Dictionary,
                ),
                Some(CandidateSource::Learning) => on == e.filtered(
                    CandidateSource::UserDictionary,
                ) && back == e.unfiltered(),
                Some(CandidateSource::UserDictionary) => on == e.filtered(CandidateSource::Model)
                    && back == e.filtered(CandidateSource::Learning),
                Some(CandidateSource::Model) => on == e.filtered(CandidateSource::Dictionary)
                    && back == e.filtered(CandidateSource::UserDictionary),
                Some(CandidateSource::Dictionary) => on == e.unfiltered() && back == e.filtered(
                    CandidateSource::Model,
                ),
                _ => true,
            }
        }),
{
}

/// Back from the views, all sources are shown again for the same reading among
/// the same parts: what a new conversion of it shows, the first selected.
pub proof fn law_all_sources_again(e: EngineView)
    requires
        e.wf(),
        e.state is Conversion,
        part_laws::of_size(e),
        is_whole(e) ==> part_laws::reading_shown(e) == editing_laws::text_with(e, Seq::empty()),
    ensures
        ({
            let step = e.unfiltered();
            let next = step.0;
            &&& next.state is Conversion
            &&& part_laws::reading_shown(next) == part_laws::reading_shown(e)
            &&& next.state.filter() is None
            &&& part_laws::list_shown(next).cursor == 0
            &&& next.confirmed == e.confirmed
            &&& next.upcoming == e.upcoming
            &&& next.tail == e.tail
            &&& part_laws::tells_entry(step)
            &&& is_whole(e) ==> offer_laws::rows_fit(e, view_search(e), part_laws::rows_shown(next))
            &&& !is_whole(e) ==> offer_laws::rows_fit(
                e,
                part_laws::part_search(part_laws::reading_shown(e)),
                part_laws::rows_shown(next),
            )
        }),
{
    let reading = part_laws::reading_shown(e);
    let s = if is_whole(e) {
        view_search(e)
    } else {
        part_laws::part_search(reading)
    };
    if is_whole(e) && e.pending.len() == 0 {
        assert(e.pending =~= Seq::<char>::empty());
        assert(editing_laws::text_with(e, Seq::empty()) =~= e.buffer.text);
    }
    offer_laws::law_rows_fit(e, s);
    let list = e.conversion_list(offer_laws::found(e, s), reading);
    part_laws::lemma_entering_tells(e.asked(reading), reading, list, None);
}

/// What stands in the history of an entry that is removed: the removed word, under
/// the prefix that was searched for or a longer reading.
pub open spec fn is_removed(entry: EntryView, prefix: Seq<char>, text: Seq<char>) -> bool {
    &&& entry.surface == text
    &&& prefix.len() <= entry.reading.len()
    &&& entry.reading.take(prefix.len() as int) == prefix
}

/// What the reading of a removed entry begins with: in the view of the history,
/// what the view searched for, and else the reading under conversion.
pub open spec fn removed_prefix(e: EngineView) -> Seq<char> {
    if e.state.filter() == Some(CandidateSource::Learning) {
        view_search(e).base
    } else {
        part_laws::reading_shown(e)
    }
}

/// Control with delete, and control with backspace, on a candidate of the history
/// remove just its word from the history, with the twins of it under longer
/// readings; everything else is remembered as before, in the same order.
pub proof fn law_delete_forgets_selection(e: EngineView)
    requires
        e.wf(),
        e.state is Conversion,
        part_laws::rows_shown(e).len() > 0,
        part_laws::rows_shown(e)[part_laws::list_shown(e).cursor].source == Some(CandidateSource::Learning),
    ensures
        ({
            let text = part_laws::rows_shown(e)[part_laws::list_shown(e).cursor].text;
            let prefix = removed_prefix(e);
            let step = e.pressed(editing_laws::control_key(Keysym::DELETE));
            &&& step == e.pressed(editing_laws::control_key(Keysym::BACKSPACE))
            &&& e.learning is None ==> step.0.learning is None
            &&& e.learning matches Some(history) ==> step.0.learning == Some(
                history.filter(|entry: EntryView| !is_removed(entry, prefix, text)),
            )
        }),
{
    let text = part_laws::rows_shown(e)[part_laws::list_shown(e).cursor].text;
    let prefix = removed_prefix(e);
    let reading = part_laws::reading_shown(e);
    let step = e.selected_forgotten();
    assert(prefix == e.removal_prefix(reading, e.state.filter()));
    let p = lexicon::not_suggests(prefix, text);
    let q = |entry: EntryView| !is_removed(entry, prefix, text);
    assert forall|entry: EntryView| #[trigger] p(entry) == q(entry) by {
        if prefix.is_prefix_of(entry.reading) {
            assert(entry.reading.take(prefix.len() as int) =~= prefix);
        }
        if prefix.len() <= entry.reading.len() && entry.reading.take(prefix.len() as int)
            == prefix {
            assert(prefix =~= entry.reading.subrange(0, prefix.len() as int));
        }
    }
    assert(p =~= q);
    if let Some(history) = e.learning {
        if !e.remembers(prefix, text) {
            assert forall|i: int| 0 <= i < history.len() implies p(#[trigger] history[i]) by {
                assert(!lexicon::suggests(prefix, text)(history[i]));
            }
            text::lemma_filter_all(history, p);
        }
    }
}

/// After a removal the conversion is of the same reading, in the same view, and
/// the selection stays where it was, or on the last row where the list has become
/// shorter; in the list of all sources, what is shown is what they have for the
/// reading now.
pub proof fn law_deletion_keeps_place(e: EngineView)
    requires
        e.wf(),
        e.state is Conversion,
        part_laws::of_size(e),
        part_laws::rows_shown(e).len() > 0,
        part_laws::rows_shown(e)[part_laws::list_shown(e).cursor].source == Some(CandidateSource::Learning),
        part_laws::list_shown(e).cursor <= usize::MAX,
        e.state.filter() matches Some(source) ==> source == CandidateSource::Learning,
    ensures
        ({
            let text = part_laws::rows_shown(e)[part_laws::list_shown(e).cursor].text;
            let step = e.pressed(editing_laws::control_key(Keysym::DELETE));
            let next = step.0;
            let n = part_laws::rows_shown(next).len();
            e.remembers(removed_prefix(e), text) && next.state is Conversion ==> {
                &&& part_laws::reading_shown(next) == part_laws::reading_shown(e)
                &&& next.state.filter() == e.state.filter()
                &&& next.confirmed == e.confirmed
                &&& next.upcoming == e.upcoming
                &&& next.tail == e.tail
                &&& n > 0 ==> part_laws::list_shown(next).cursor == if part_laws::list_shown(e).cursor < n {
                    part_laws::list_shown(e).cursor
                } else {
                    n - 1
                }
                &&& n > 0 ==> part_laws::tells_conversion(step)
                &&& e.state.filter() is None ==> offer_laws::rows_fit(
                    next,
                    Search {
                        reading: part_laws::reading_shown(e),
                        base: part_laws::reading_shown(e),
                        pending: Seq::empty(),
                        learning: LearningLookup::Use,
                        exact_only: false,
                    },
                    part_laws::rows_shown(next),
                )
            }
        }),
{
    let text = part_laws::rows_shown(e)[part_laws::list_shown(e).cursor].text;
    let prefix = removed_prefix(e);
    let reading = part_laws::reading_shown(e);
    let filter = e.state.filter();
    let step = e.pressed(editing_laws::control_key(Keysym::DELETE));
    assert(step == e.selected_forgotten());
    assert(prefix == e.removal_prefix(reading, filter));
    if e.remembers(prefix, text) {
        let left = e.forgotten(prefix, text);
        let s = Search {
            reading,
            base: reading,
            pending: Seq::empty(),
            learning: LearningLookup::Use,
            exact_only: false,
        };
        let all = offer_laws::found(left, s);
        if all.len() > 0 {
            let again = left.rebuilt(reading, filter);
            let list = left.conversion_list(all, reading);
            let at = Navigation::Cursor(part_laws::list_shown(e).cursor as usize);
            part_laws::lemma_entering_tells(left.asked(reading), reading, list, None);
            if filter is Some {
                let entered = left.asked(reading).entered(reading, list).0;
                law_view_is_of_one_source(entered, CandidateSource::Learning);
            }
            assert(again.0.wf());
            if part_laws::rows_shown(again.0).len() > 0 {
                selection_laws::lemma_moved(again.0, at);
                assert(step == again.0.navigated(at));
            }
            part_laws::lemma_same_search(left, step.0, s);
            offer_laws::law_rows_fit(step.0, s);
        }
    }
}

/// On any other candidate these keys do nothing, nor does delete alone.
pub proof fn law_delete_spares_others(e: EngineView)
    requires
        e.wf(),
        e.state is Conversion,
    ensures
        e.pressed(composition_laws::named_key(Keysym::DELETE)).0 == e,
        part_laws::rows_shown(e).len() == 0 || part_laws::rows_shown(e)[part_laws::list_shown(e).cursor].source != Some(
            CandidateSource::Learning,
        ) ==> {
            &&& e.pressed(editing_laws::control_key(Keysym::DELETE)).0 == e
            &&& e.pressed(editing_laws::control_key(Keysym::BACKSPACE)).0 == e
            &&& e.pressed(editing_laws::control_key(Keysym::DELETE)).1.actions.len() == 0
            &&& e.pressed(editing_laws::control_key(Keysym::BACKSPACE)).1.actions.len() == 0
        },
{
}

} // verus!
