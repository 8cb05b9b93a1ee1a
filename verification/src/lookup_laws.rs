//! What the dictionaries and the learning history give for a reading, entry by
//! entry.

use vstd::prelude::*;

use crate::candidate;
use crate::candidate::{AnnotatedView, CandidateSource};
use crate::candidate_laws;
use crate::lexicon;
use crate::lexicon::EntryView;
use crate::lookup;
use crate::romaji;
use crate::text;

verus! {

/// Whether the reading of an entry goes on from `reading`, with one of the kana
/// that the waiting keys can become where keys wait.
pub open spec fn goes_on(entry: EntryView, reading: Seq<char>, pending: Seq<char>) -> bool {
    &&& reading.len() < entry.reading.len()
    &&& entry.reading.take(reading.len() as int) == reading
    &&& pending.len() > 0 ==> exists|i: int|
        {
            let kana = #[trigger] romaji::expansions(pending)[i];
            &&& 0 <= i < romaji::expansions(pending).len()
            &&& reading.len() + kana.len() <= entry.reading.len()
            &&& entry.reading.subrange(
                reading.len() as int,
                (reading.len() + kana.len()) as int,
            ) == kana
        }
}

/// What a lookup takes for a continuation is one.
pub proof fn law_continuations(entry: EntryView, reading: Seq<char>, pending: Seq<char>)
    ensures
        lexicon::continues(reading, lookup::tail_of(pending))(entry) <==> goes_on(
            entry,
            reading,
            pending,
        ),
{
    let own = entry.reading;
    let kana = romaji::expansions(pending);
    let tail = lookup::tail_of(pending);
    if reading.is_prefix_of(own) {
        assert(own.take(reading.len() as int) =~= reading);
        if own != reading && own.len() == reading.len() {
            assert(own =~= reading);
        }
    }
    if reading.len() < own.len() && own.take(reading.len() as int) == reading {
        assert(reading =~= own.subrange(0, reading.len() as int));
    }
    if pending.len() > 0 {
        let rest = own.skip(reading.len() as int);
        if lexicon::continues(reading, tail)(entry) {
            let i = choose|i: int| 0 <= i < kana.len() && (#[trigger] kana[i]).is_prefix_of(rest);
            assert(own.subrange(
                reading.len() as int,
                (reading.len() + kana[i].len()) as int,
            ) =~= kana[i]);
            let k = romaji::expansions(pending)[i];
            assert(goes_on(entry, reading, pending));
        }
        if goes_on(entry, reading, pending) {
            let i = choose|i: int|
                {
                    let kana = #[trigger] romaji::expansions(pending)[i];
                    &&& 0 <= i < romaji::expansions(pending).len()
                    &&& reading.len() + kana.len() <= entry.reading.len()
                    &&& entry.reading.subrange(
                        reading.len() as int,
                        (reading.len() + kana.len()) as int,
                    ) == kana
                };
            assert(kana[i] =~= rest.subrange(0, kana[i].len() as int));
            assert(kana[i].is_prefix_of(rest));
            assert(lexicon::begins_with_one(rest, kana));
        }
    }
}

/// Filtering keeps the order: two kept items stand in the order that they had.
pub proof fn lemma_filter_order<A>(items: Seq<A>, p: spec_fn(A) -> bool, i: int, j: int)
    requires
        0 <= i < j < items.filter(p).len(),
    ensures
        exists|a: int, b: int|
            0 <= a < b < items.len() && #[trigger] items[a] == items.filter(p)[i]
                && #[trigger] items[b] == items.filter(p)[j],
    decreases items.len(),
{
    reveal(Seq::filter);
    let init = items.drop_last();
    let kept = init.filter(p);
    if j < kept.len() {
        lemma_filter_order(init, p, i, j);
        let (a, b) = choose|a: int, b: int|
            0 <= a < b < init.len() && #[trigger] init[a] == kept[i] && #[trigger] init[b]
                == kept[j];
        assert(items[a] == items.filter(p)[i] && items[b] == items.filter(p)[j]);
    } else {
        assert(kept.contains(kept[i]));
        text::lemma_filter_contains(init, p, kept[i]);
        let a = choose|a: int| 0 <= a < init.len() && init[a] == kept[i];
        assert(items[a] == items.filter(p)[i]);
        assert(items[items.len() - 1] == items.filter(p)[j]);
    }
}

/// Adding only new texts keeps the order of what is offered.
pub proof fn lemma_add_order(
    candidates: Seq<AnnotatedView>,
    more: Seq<AnnotatedView>,
    i: int,
    j: int,
)
    requires
        candidates.len() <= i < j < candidate::add_all_new(candidates, more).len(),
    ensures
        exists|p: int, q: int|
            0 <= p < q < more.len() && #[trigger] more[p] == candidate::add_all_new(
                candidates,
                more,
            )[i] && #[trigger] more[q] == candidate::add_all_new(candidates, more)[j],
    decreases more.len(),
{
    if more.len() > 0 {
        let init = more.drop_last();
        let fewer = candidate::add_all_new(candidates, init);
        let all = candidate::add_all_new(candidates, more);
        if j < fewer.len() {
            lemma_add_order(candidates, init, i, j);
            let (p, q) = choose|p: int, q: int|
                0 <= p < q < init.len() && #[trigger] init[p] == fewer[i] && #[trigger] init[q]
                    == fewer[j];
            assert(more[p] == all[i] && more[q] == all[j]);
        } else {
            candidate::lemma_add_all_new(candidates, init);
            assert(init.contains(fewer[i]));
            let p = choose|p: int| 0 <= p < init.len() && init[p] == fewer[i];
            assert(more[p] == all[i] && more[more.len() - 1] == all[j]);
        }
    }
}

/// Where the limit is not reached, every text that is offered is there.
pub proof fn lemma_all_added(
    candidates: Seq<AnnotatedView>,
    more: Seq<AnnotatedView>,
    most: int,
    i: int,
)
    requires
        candidate::add_new_up_to(candidates, more, most).len() < most,
        0 <= i < more.len(),
    ensures
        candidate::has_text(candidate::add_new_up_to(candidates, more, most), more[i].text),
{
    candidate::lemma_add_all_new(candidates, more);
    let all = candidate::add_all_new(candidates, more);
    assert(candidate::add_new_up_to(candidates, more, most) == all);
    assert(candidate::has_text(all, more[i].text));
}

/// Adding only new texts gives no more than there are and are offered.
pub proof fn lemma_added_len(candidates: Seq<AnnotatedView>, more: Seq<AnnotatedView>)
    ensures
        candidate::add_all_new(candidates, more).len() <= candidates.len() + more.len(),
    decreases more.len(),
{
    if more.len() > 0 {
        lemma_added_len(candidates, more.drop_last());
    }
}

/// A row of the history: the word and the reading of one of its entries, which
/// has the reading that was looked up, or goes on from it.
pub open spec fn is_learned_row(
    history: Seq<EntryView>,
    row: AnnotatedView,
    reading: Seq<char>,
    pending: Seq<char>,
    at: int,
) -> bool {
    &&& 0 <= at < history.len()
    &&& row.source == CandidateSource::Learning
    &&& row.text == history[at].surface
    &&& row.description is None
    &&& row.reading == Some(history[at].reading)
    &&& (pending.len() == 0 && history[at].reading == reading) || goes_on(
        history[at],
        reading,
        pending,
    )
}

/// A row of some entry of the history.
pub open spec fn is_learned(
    history: Seq<EntryView>,
    row: AnnotatedView,
    reading: Seq<char>,
    pending: Seq<char>,
) -> bool {
    exists|at: int| is_learned_row(history, row, reading, pending, at)
}

/// What the history gives for a reading: rows of its entries, those for exactly
/// the reading first, and in each of the two kinds the latest first; an entry for
/// the reading only while no key waits. Where there are fewer than asked for,
/// every entry that fits is there; the first row is the latest entry for the
/// reading, if there is one.
pub proof fn law_history_rows(
    history: Seq<EntryView>,
    reading: Seq<char>,
    pending: Seq<char>,
    max: int,
)
    requires
        max >= 0,
    ensures
        ({
            let rows = lookup::learned_words(history, reading, pending, max);
            &&& rows.len() <= max
            &&& forall|i: int|
                0 <= i < rows.len() ==> is_learned(history, #[trigger] rows[i], reading, pending)
            &&& forall|i: int, j: int|
                0 <= i < j < rows.len() && (#[trigger] rows[j]).reading == Some(reading)
                    ==> (#[trigger] rows[i]).reading == Some(reading)
            &&& forall|i: int, j: int|
                #![trigger rows[i], rows[j]]
                0 <= i < j < rows.len() && (rows[i].reading == Some(reading) <==> rows[j].reading
                    == Some(reading)) ==> exists|a: int, b: int|
                    a < b && #[trigger] is_learned_row(history, rows[i], reading, pending, a)
                        && #[trigger] is_learned_row(history, rows[j], reading, pending, b)
            &&& rows.len() < max ==> forall|a: int|
                0 <= a < history.len() && ((pending.len() == 0 && (#[trigger] history[a]).reading
                    == reading) || goes_on(history[a], reading, pending)) ==> candidate::has_text(
                    rows,
                    history[a].surface,
                )
            &&& forall|a: int|
                0 <= a < history.len() && pending.len() == 0 && max > 0 && (
                #[trigger] history[a]).reading == reading && (forall|b: int|
                    0 <= b < a ==> (#[trigger] history[b]).reading != reading) ==> rows.len() > 0
                    && rows[0].text == history[a].surface && rows[0].reading == Some(reading)
        }),
{
    let tail = lookup::tail_of(pending);
    let exact = if pending.len() > 0 {
        Seq::empty()
    } else {
        history.filter(lexicon::reads(reading))
    };
    let longer = history.filter(lexicon::continues(reading, tail));
    let entries = exact + longer;
    let offered = lookup::words_of(entries, CandidateSource::Learning);
    let rows = lookup::learned_words(history, reading, pending, max);
    let whole = candidate::add_all_new(Seq::empty(), offered);
    candidate_laws::lemma_add_up_to(Seq::empty(), offered, max);
    candidate::lemma_add_all_new(Seq::empty(), offered);
    assert forall|k: int| 0 <= k < entries.len() implies {
        &&& history.contains(#[trigger] entries[k])
        &&& k < exact.len() ==> pending.len() == 0 && entries[k].reading == reading
        &&& k >= exact.len() ==> goes_on(entries[k], reading, pending) && entries[k].reading
            != reading
    } by {
        if k < exact.len() {
            assert(exact.contains(entries[k]));
            text::lemma_filter_contains(history, lexicon::reads(reading), entries[k]);
        } else {
            assert(longer[k - exact.len()] == entries[k]);
            assert(longer.contains(entries[k]));
            text::lemma_filter_contains(history, lexicon::continues(reading, tail), entries[k]);
            law_continuations(entries[k], reading, pending);
        }
    }
    assert forall|i: int| 0 <= i < rows.len() implies is_learned(
        history,
        #[trigger] rows[i],
        reading,
        pending,
    ) by {
        assert(offered.contains(rows[i]));
        let k = choose|k: int| 0 <= k < offered.len() && offered[k] == rows[i];
        assert(history.contains(entries[k]));
        let a = choose|a: int| 0 <= a < history.len() && history[a] == entries[k];
        assert(is_learned_row(history, rows[i], reading, pending, a));
    }
    assert forall|i: int, j: int|
        #![trigger rows[i], rows[j]]
        0 <= i < j < rows.len() implies {
        &&& rows[j].reading == Some(reading) ==> rows[i].reading == Some(reading)
        &&& (rows[i].reading == Some(reading) <==> rows[j].reading == Some(reading))
            ==> exists|a: int, b: int|
            a < b && #[trigger] is_learned_row(history, rows[i], reading, pending, a)
                && #[trigger] is_learned_row(history, rows[j], reading, pending, b)
    } by {
        assert(rows[i] == whole[i] && rows[j] == whole[j]);
        lemma_add_order(Seq::empty(), offered, i, j);
        let (p, q) = choose|p: int, q: int|
            0 <= p < q < offered.len() && #[trigger] offered[p] == whole[i]
                && #[trigger] offered[q] == whole[j];
        assert(history.contains(entries[p]) && history.contains(entries[q]));
        if rows[i].reading == Some(reading) <==> rows[j].reading == Some(reading) {
            if q < exact.len() {
                lemma_filter_order(history, lexicon::reads(reading), p, q);
                let (a, b) = choose|a: int, b: int|
                    0 <= a < b < history.len() && #[trigger] history[a] == exact[p]
                        && #[trigger] history[b] == exact[q];
                assert(is_learned_row(history, rows[i], reading, pending, a));
                assert(is_learned_row(history, rows[j], reading, pending, b));
            } else {
                let f = lexicon::continues(reading, tail);
                lemma_filter_order(history, f, p - exact.len(), q - exact.len());
                let (a, b) = choose|a: int, b: int|
                    0 <= a < b < history.len() && #[trigger] history[a] == longer[p - exact.len()]
                        && #[trigger] history[b] == longer[q - exact.len()];
                assert(history[a] == entries[p] && history[b] == entries[q]);
                assert(is_learned_row(history, rows[i], reading, pending, a));
                assert(is_learned_row(history, rows[j], reading, pending, b));
            }
        }
    }
    assert forall|a: int|
        rows.len() < max && 0 <= a < history.len() && ((pending.len() == 0 && (
        #[trigger] history[a]).reading == reading) || goes_on(
            history[a],
            reading,
            pending,
        )) implies candidate::has_text(rows, history[a].surface) by {
        law_continuations(history[a], reading, pending);
        assert(history.contains(history[a]));
        if pending.len() == 0 && history[a].reading == reading {
            text::lemma_filter_contains(history, lexicon::reads(reading), history[a]);
            let k = choose|k: int| 0 <= k < exact.len() && exact[k] == history[a];
            assert(offered[k].text == history[a].surface);
            lemma_all_added(Seq::empty(), offered, max, k);
        } else {
            let f = lexicon::continues(reading, tail);
            text::lemma_filter_contains(history, f, history[a]);
            let k = choose|k: int| 0 <= k < longer.len() && longer[k] == history[a];
            assert(offered[k + exact.len()].text == history[a].surface);
            lemma_all_added(Seq::empty(), offered, max, k + exact.len());
        }
    }
    assert forall|a: int|
        0 <= a < history.len() && pending.len() == 0 && max > 0 && (#[trigger] history[a]).reading
            == reading && (forall|b: int|
            0 <= b < a ==> (#[trigger] history[b]).reading != reading) implies rows.len() > 0
        && rows[0].text == history[a].surface && rows[0].reading == Some(reading) by {
        lemma_filter_head(history, lexicon::reads(reading), a);
        assert(offered[0].text == history[a].surface);
        lemma_add_head(offered);
    }
}

/// The first item that satisfies the predicate heads what is kept.
pub proof fn lemma_filter_head<A>(items: Seq<A>, p: spec_fn(A) -> bool, at: int)
    requires
        0 <= at < items.len(),
        p(items[at]),
        forall|k: int| 0 <= k < at ==> !p(#[trigger] items[k]),
    ensures
        items.filter(p).len() > 0,
        items.filter(p)[0] == items[at],
    decreases items.len(),
{
    reveal(Seq::filter);
    let init = items.drop_last();
    if at < init.len() {
        assert forall|k: int| 0 <= k < at implies !p(#[trigger] init[k]) by {
            assert(init[k] == items[k]);
        }
        lemma_filter_head(init, p, at);
    } else {
        lemma_filter_none(init, p);
    }
}

/// Where no item satisfies the predicate, none is kept.
pub proof fn lemma_filter_none<A>(items: Seq<A>, p: spec_fn(A) -> bool)
    requires
        forall|k: int| 0 <= k < items.len() ==> !p(#[trigger] items[k]),
    ensures
        items.filter(p).len() == 0,
    decreases items.len(),
{
    reveal(Seq::filter);
    if items.len() > 0 {
        let init = items.drop_last();
        assert forall|k: int| 0 <= k < init.len() implies !p(#[trigger] init[k]) by {
            assert(init[k] == items[k]);
        }
        lemma_filter_none(init, p);
        assert(!p(items[items.len() - 1]));
    }
}

/// The first of what is offered heads a list that was empty.
pub proof fn lemma_add_head(more: Seq<AnnotatedView>)
    requires
        more.len() > 0,
    ensures
        candidate::add_all_new(Seq::empty(), more).len() > 0,
        candidate::add_all_new(Seq::empty(), more)[0] == more[0],
    decreases more.len(),
{
    if more.len() == 1 {
        reveal_with_fuel(candidate::add_all_new, 2);
        assert(more.drop_last() =~= Seq::<AnnotatedView>::empty());
    } else {
        lemma_add_head(more.drop_last());
    }
}

/// A word of a dictionary search that comes from the entry at `at`: without a
/// reading of its own where the entry has the reading, and else with the reading
/// of the entry, which goes on from it.
pub open spec fn is_dictionary_row(
    user: Seq<EntryView>,
    system: Seq<EntryView>,
    row: AnnotatedView,
    reading: Seq<char>,
    pending: Seq<char>,
    at: int,
) -> bool {
    let entries = if row.source == CandidateSource::UserDictionary {
        user
    } else {
        system
    };
    &&& row.source == CandidateSource::UserDictionary || row.source == CandidateSource::Dictionary
    &&& 0 <= at < entries.len()
    &&& row.text == entries[at].surface
    &&& row.description is None
    &&& match row.reading {
        None => pending.len() == 0 && entries[at].reading == reading,
        Some(own) => own == entries[at].reading && goes_on(entries[at], reading, pending),
    }
}

/// A word of some entry of the dictionaries.
pub open spec fn is_in_dictionary(
    user: Seq<EntryView>,
    system: Seq<EntryView>,
    row: AnnotatedView,
    reading: Seq<char>,
    pending: Seq<char>,
) -> bool {
    exists|at: int| is_dictionary_row(user, system, row, reading, pending, at)
}

/// An exact word comes from an entry for the reading.
proof fn lemma_exact_row(
    user: Seq<EntryView>,
    system: Seq<EntryView>,
    mine: bool,
    reading: Seq<char>,
    pending: Seq<char>,
    row: AnnotatedView,
)
    requires
        pending.len() == 0,
        lookup::exact_words(
            if mine {
                user
            } else {
                system
            },
            if mine {
                CandidateSource::UserDictionary
            } else {
                CandidateSource::Dictionary
            },
            reading,
        ).contains(row),
    ensures
        is_in_dictionary(user, system, row, reading, pending),
        row.reading is None,
        mine <==> row.source == CandidateSource::UserDictionary,
{
    let entries = if mine {
        user
    } else {
        system
    };
    let source = if mine {
        CandidateSource::UserDictionary
    } else {
        CandidateSource::Dictionary
    };
    let words = lookup::exact_words(entries, source, reading);
    let k = choose|k: int| 0 <= k < words.len() && words[k] == row;
    let exact = entries.filter(lexicon::reads(reading));
    assert(exact.contains(exact[k]));
    text::lemma_filter_contains(entries, lexicon::reads(reading), exact[k]);
    let a = choose|a: int| 0 <= a < entries.len() && entries[a] == exact[k];
    assert(is_dictionary_row(user, system, row, reading, pending, a));
}

/// A predicted word comes from an entry that goes on from the reading.
proof fn lemma_predicted_row(
    user: Seq<EntryView>,
    system: Seq<EntryView>,
    mine: bool,
    reading: Seq<char>,
    pending: Seq<char>,
    budget: int,
    row: AnnotatedView,
)
    requires
        budget >= 0,
        lookup::predicted_words(
            if mine {
                user
            } else {
                system
            },
            if mine {
                CandidateSource::UserDictionary
            } else {
                CandidateSource::Dictionary
            },
            reading,
            lookup::tail_of(pending),
            budget,
        ).contains(row),
    ensures
        is_in_dictionary(user, system, row, reading, pending),
        row.reading is Some,
        mine <==> row.source == CandidateSource::UserDictionary,
{
    let entries = if mine {
        user
    } else {
        system
    };
    let source = if mine {
        CandidateSource::UserDictionary
    } else {
        CandidateSource::Dictionary
    };
    let tail = lookup::tail_of(pending);
    let p = lexicon::continues(reading, tail);
    let words = lookup::predicted_words(entries, source, reading, tail, budget);
    let k = choose|k: int| 0 <= k < words.len() && words[k] == row;
    let found = entries.filter(p);
    assert(found.contains(found[k]));
    text::lemma_filter_contains(entries, p, found[k]);
    law_continuations(found[k], reading, pending);
    let a = choose|a: int| 0 <= a < entries.len() && entries[a] == found[k];
    assert(is_dictionary_row(user, system, row, reading, pending, a));
}

/// What a dictionary search gives for a reading, row by row: words of entries of
/// the dictionary that they name. Exact ones come first, and of the exact ones,
/// as of the predicted ones, the user's first. Nothing is predicted for a reading
/// that is too short.
pub proof fn law_dictionary_rows(
    user: Seq<EntryView>,
    system: Seq<EntryView>,
    reading: Seq<char>,
    pending: Seq<char>,
    limit: int,
    predictive_limit: int,
    min_prefix_chars: int,
)
    requires
        limit >= 0,
        predictive_limit >= 0,
    ensures
        ({
            let rows = lookup::dictionary_words(
                user,
                system,
                reading,
                pending,
                limit,
                predictive_limit,
                min_prefix_chars,
            );
            &&& forall|i: int|
                0 <= i < rows.len() ==> is_in_dictionary(
                    user,
                    system,
                    #[trigger] rows[i],
                    reading,
                    pending,
                )
            &&& forall|i: int, j: int|
                #![trigger rows[i], rows[j]]
                0 <= i < j < rows.len() ==> {
                    &&& rows[j].reading is None ==> rows[i].reading is None
                    &&& (rows[i].reading is None <==> rows[j].reading is None) && rows[j].source
                        == CandidateSource::UserDictionary ==> rows[i].source
                        == CandidateSource::UserDictionary
                }
            &&& reading.len() < min_prefix_chars ==> forall|i: int|
                0 <= i < rows.len() ==> (#[trigger] rows[i]).reading is None
        }),
{
    let none = Seq::<AnnotatedView>::empty();
    let mine = lookup::exact_words(user, CandidateSource::UserDictionary, reading);
    let theirs = lookup::exact_words(system, CandidateSource::Dictionary, reading);
    let first = candidate::add_new_up_to(none, mine, limit);
    let exact = lookup::exact_part(user, system, reading, pending, limit);
    if pending.len() == 0 {
        candidate_laws::lemma_add_up_to(none, mine, limit);
        candidate_laws::lemma_add_up_to(first, theirs, limit);
        assert forall|i: int| 0 <= i < exact.len() implies {
            &&& is_in_dictionary(user, system, #[trigger] exact[i], reading, pending)
            &&& exact[i].reading is None
            &&& i < first.len() <==> exact[i].source == CandidateSource::UserDictionary
        } by {
            if i < first.len() {
                assert(exact[i] == first[i]);
                assert(mine.contains(first[i]));
                lemma_exact_row(user, system, true, reading, pending, exact[i]);
            } else {
                lemma_exact_row(user, system, false, reading, pending, exact[i]);
            }
        }
    }
    let tail = lookup::tail_of(pending);
    if reading.len() >= min_prefix_chars && !(tail is Dead) {
        let ours = lookup::predicted_words(
            user,
            CandidateSource::UserDictionary,
            reading,
            tail,
            predictive_limit,
        );
        let grown = lookup::with_predicted(
            exact,
            user,
            CandidateSource::UserDictionary,
            reading,
            tail,
            limit,
            predictive_limit,
        );
        let budget = predictive_limit - (grown.len() - exact.len());
        let others = lookup::predicted_words(
            system,
            CandidateSource::Dictionary,
            reading,
            tail,
            budget,
        );
        let rows = lookup::with_predicted(
            grown,
            system,
            CandidateSource::Dictionary,
            reading,
            tail,
            limit,
            budget,
        );
        candidate_laws::lemma_add_up_to(
            exact,
            ours,
            lookup::smaller(limit, exact.len() + predictive_limit),
        );
        candidate_laws::lemma_add_up_to(grown, others, lookup::smaller(limit, grown.len() + budget));
        assert forall|i: int| 0 <= i < rows.len() implies {
            &&& is_in_dictionary(user, system, #[trigger] rows[i], reading, pending)
            &&& i < exact.len() <==> rows[i].reading is None
            &&& i < exact.len() ==> rows[i] == exact[i]
            &&& i >= exact.len() ==> (i < grown.len() <==> rows[i].source
                == CandidateSource::UserDictionary)
        } by {
            if i < exact.len() {
                assert(grown[i] == rows[i] && exact[i] == grown[i]);
            } else if i < grown.len() {
                assert(rows[i] == grown[i]);
                assert(ours.contains(grown[i]));
                lemma_predicted_row(
                    user,
                    system,
                    true,
                    reading,
                    pending,
                    predictive_limit,
                    rows[i],
                );
            } else {
                lemma_predicted_row(user, system, false, reading, pending, budget, rows[i]);
            }
        }
    }
}

/// A dictionary search misses nothing that it has room for: every entry for the
/// reading is there while no key waits, and every entry that goes on from it,
/// unless the reading is too short.
pub proof fn law_dictionary_search_is_complete(
    user: Seq<EntryView>,
    system: Seq<EntryView>,
    reading: Seq<char>,
    pending: Seq<char>,
    limit: int,
    predictive_limit: int,
    min_prefix_chars: int,
    entry: EntryView,
)
    requires
        predictive_limit >= 0,
        limit >= 2 * (user.len() + system.len()),
        user.contains(entry) || system.contains(entry),
    ensures
        ({
            let rows = lookup::dictionary_words(
                user,
                system,
                reading,
                pending,
                limit,
                predictive_limit,
                min_prefix_chars,
            );
            &&& pending.len() == 0 && entry.reading == reading ==> candidate::has_text(
                rows,
                entry.surface,
            )
            &&& predictive_limit >= user.len() + system.len() && reading.len() >= min_prefix_chars
                && goes_on(entry, reading, pending) ==> candidate::has_text(rows, entry.surface)
        }),
{
    let none = Seq::<AnnotatedView>::empty();
    let mine = lookup::exact_words(user, CandidateSource::UserDictionary, reading);
    let theirs = lookup::exact_words(system, CandidateSource::Dictionary, reading);
    let first = candidate::add_new_up_to(none, mine, limit);
    let exact = lookup::exact_part(user, system, reading, pending, limit);
    let rows = lookup::dictionary_words(
        user,
        system,
        reading,
        pending,
        limit,
        predictive_limit,
        min_prefix_chars,
    );
    let tail = lookup::tail_of(pending);
    let p = lexicon::continues(reading, tail);
    text::lemma_filter_len(user, lexicon::reads(reading));
    text::lemma_filter_len(system, lexicon::reads(reading));
    text::lemma_filter_len(user, p);
    text::lemma_filter_len(system, p);
    lemma_added_len(none, mine);
    assert(first == candidate::add_all_new(none, mine));
    lemma_added_len(first, theirs);
    candidate::lemma_add_all_new(none, mine);
    candidate::lemma_add_all_new(first, theirs);
    lemma_search_prefix(
        user,
        system,
        reading,
        pending,
        limit,
        predictive_limit,
        min_prefix_chars,
    );
    if pending.len() == 0 {
        assert(exact == candidate::add_all_new(first, theirs));
    }
    if pending.len() == 0 && entry.reading == reading {
        text::lemma_filter_contains(user, lexicon::reads(reading), entry);
        text::lemma_filter_contains(system, lexicon::reads(reading), entry);
        if user.contains(entry) {
            let kept = user.filter(lexicon::reads(reading));
            let k = choose|k: int| 0 <= k < kept.len() && kept[k] == entry;
            assert(mine[k].text == entry.surface);
            assert(candidate::has_text(first, mine[k].text));
            lemma_prefix_text(first, exact, entry.surface);
        } else {
            let kept = system.filter(lexicon::reads(reading));
            let k = choose|k: int| 0 <= k < kept.len() && kept[k] == entry;
            assert(theirs[k].text == entry.surface);
            assert(candidate::has_text(exact, theirs[k].text));
        }
        lemma_prefix_text(exact, rows, entry.surface);
    }
    if predictive_limit >= user.len() + system.len() && reading.len() >= min_prefix_chars && goes_on(
        entry,
        reading,
        pending,
    ) {
        law_continuations(entry, reading, pending);
        text::lemma_filter_contains(user, p, entry);
        text::lemma_filter_contains(system, p, entry);
        let ours = lookup::predicted_words(
            user,
            CandidateSource::UserDictionary,
            reading,
            tail,
            predictive_limit,
        );
        let grown = lookup::with_predicted(
            exact,
            user,
            CandidateSource::UserDictionary,
            reading,
            tail,
            limit,
            predictive_limit,
        );
        let budget = predictive_limit - (grown.len() - exact.len());
        let others = lookup::predicted_words(
            system,
            CandidateSource::Dictionary,
            reading,
            tail,
            budget,
        );
        lemma_added_len(exact, ours);
        assert(ours.len() == user.filter(p).len());
        assert(grown == candidate::add_all_new(exact, ours));
        assert(others.len() == system.filter(p).len());
        lemma_added_len(grown, others);
        assert(rows == candidate::add_all_new(grown, others));
        candidate::lemma_add_all_new(exact, ours);
        candidate::lemma_add_all_new(grown, others);
        if user.contains(entry) {
            let kept = user.filter(p);
            let k = choose|k: int| 0 <= k < kept.len() && kept[k] == entry;
            assert(ours[k].text == entry.surface);
            assert(candidate::has_text(grown, ours[k].text));
            lemma_prefix_text(grown, rows, entry.surface);
        } else {
            let kept = system.filter(p);
            let k = choose|k: int| 0 <= k < kept.len() && kept[k] == entry;
            assert(others[k].text == entry.surface);
            assert(candidate::has_text(rows, others[k].text));
        }
    }
}

/// The exact part heads the search.
proof fn lemma_search_prefix(
    user: Seq<EntryView>,
    system: Seq<EntryView>,
    reading: Seq<char>,
    pending: Seq<char>,
    limit: int,
    predictive_limit: int,
    min_prefix_chars: int,
)
    requires
        limit >= 0,
        predictive_limit >= 0,
    ensures
        lookup::exact_part(user, system, reading, pending, limit).is_prefix_of(
            lookup::dictionary_words(
                user,
                system,
                reading,
                pending,
                limit,
                predictive_limit,
                min_prefix_chars,
            ),
        ),
{
    candidate_laws::law_dictionary_search(
        user,
        system,
        reading,
        pending,
        limit,
        predictive_limit,
        min_prefix_chars,
    );
}

/// A text at the head of a list is in the list.
proof fn lemma_prefix_text(
    head: Seq<AnnotatedView>,
    all: Seq<AnnotatedView>,
    text: Seq<char>,
)
    requires
        head.is_prefix_of(all),
        candidate::has_text(head, text),
    ensures
        candidate::has_text(all, text),
{
    let i = choose|i: int| 0 <= i < head.len() && (#[trigger] head[i]).text == text;
    assert(all[i] == head[i]);
}

} // verus!
