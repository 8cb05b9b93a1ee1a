//! What is suggested while composing.

use vstd::prelude::*;

use crate::action::ActionView;
use crate::candidate;
use crate::candidate::{AnnotatedView, CandidateSource, CandidateView};
use crate::candidate_laws;
use crate::composition_laws;
use crate::engine::{EngineView, Step};
use crate::key;
use crate::key::Keysym;
use crate::lexicon::EntryView;
use crate::lookup;
use crate::lookup_laws;
use crate::settle;
use crate::state::{CharWidth, InputMode};
use crate::suggest;

verus! {

/// The entries of a dictionary or a history, none where there is none.
pub open spec fn entries(dict: Option<Seq<EntryView>>) -> Seq<EntryView> {
    match dict {
        Some(entries) => entries,
        None => Seq::empty(),
    }
}

/// A row that shows what the history has at `at`.
pub open spec fn row_shows_entry(e: EngineView, row: CandidateView, at: int) -> bool {
    let history = entries(e.learning);
    &&& 0 <= at < history.len()
    &&& row.source == Some(CandidateSource::Learning)
    &&& row.text == settle::in_width(history[at].surface, e.config.width)
    &&& row.reading == Some(history[at].reading)
}

/// A row that shows some entry of the history whose reading is `reading`, or
/// begins with it.
pub open spec fn row_is_remembered(e: EngineView, row: CandidateView, reading: Seq<char>) -> bool {
    exists|at: int|
        #[trigger] row_shows_entry(e, row, at) && reading.len() <= entries(
            e.learning,
        )[at].reading.len() && entries(e.learning)[at].reading.take(reading.len() as int)
            == reading
}

/// Whether a list shows a text.
pub open spec fn shows(e: EngineView, rows: Seq<CandidateView>, text: Seq<char>) -> bool {
    exists|i: int|
        0 <= i < rows.len() && (#[trigger] rows[i]).text == settle::in_width(
            text,
            e.config.width,
        )
}

/// Whether `rows` are headed by what the history remembers for the text under
/// composition, `n` rows of it: at most three; entries read exactly so come
/// first, and among those as among the others the latest come first; where there
/// are fewer than three, nothing that is remembered is missing.
pub open spec fn headed_by_history(e: EngineView, rows: Seq<CandidateView>, n: int) -> bool {
    let reading = e.buffer.text;
    let history = entries(e.learning);
    &&& 0 <= n <= rows.len()
    &&& n <= 3
    &&& forall|i: int| 0 <= i < n ==> row_is_remembered(e, #[trigger] rows[i], reading)
    &&& forall|i: int|
        n <= i < rows.len() ==> (#[trigger] rows[i]).source != Some(CandidateSource::Learning)
    &&& forall|i: int, j: int|
        0 <= i < j < n && (#[trigger] rows[j]).reading == Some(reading) ==> (
        #[trigger] rows[i]).reading == Some(reading)
    &&& forall|i: int, j: int|
        #![trigger rows[i], rows[j]]
        0 <= i < j < n && (rows[i].reading == Some(reading) <==> rows[j].reading == Some(reading))
            ==> exists|a: int, b: int|
            a < b && #[trigger] row_shows_entry(e, rows[i], a) && #[trigger] row_shows_entry(
                e,
                rows[j],
                b,
            )
    &&& n < 3 ==> forall|a: int|
        0 <= a < history.len() && reading.len() <= (#[trigger] history[a]).reading.len()
            && history[a].reading.take(reading.len() as int) == reading ==> shows(
            e,
            rows.take(n),
            history[a].surface,
        )
    &&& forall|a: int|
        0 <= a < history.len() && (#[trigger] history[a]).reading == reading && (forall|b: int|
            0 <= b < a ==> (#[trigger] history[b]).reading != reading) ==> n > 0
            && row_shows_entry(e, rows[0], a)
}

/// Whether rows are headed by what the history remembers.
pub open spec fn is_headed_by_history(e: EngineView, rows: Seq<CandidateView>) -> bool {
    exists|n: int| headed_by_history(e, rows, n)
}

/// A suggestion that comes from a dictionary or a rewriter.
pub open spec fn row_is_looked_up(e: EngineView, row: CandidateView) -> bool {
    ||| exists|at: int| row_shows_word(e, row, at)
    ||| exists|at: int| row_shows_rewritten(e, row, at)
}

/// A row that shows the word at `at` of the dictionary that the row names.
pub open spec fn row_shows_word(e: EngineView, row: CandidateView, at: int) -> bool {
    let words = if row.source == Some(CandidateSource::UserDictionary) {
        entries(e.user)
    } else {
        entries(e.system)
    };
    &&& row.source == Some(CandidateSource::UserDictionary) || row.source == Some(
        CandidateSource::Dictionary,
    )
    &&& 0 <= at < words.len()
    &&& row.text == settle::in_width(words[at].surface, e.config.width)
    &&& row.reading == Some(words[at].reading)
    &&& (e.pending.len() == 0 && words[at].reading == e.buffer.text) || lookup_laws::goes_on(
        words[at],
        e.buffer.text,
        e.pending,
    )
}

/// A row that shows what a rewriter made of the text, the emoji rewriter in
/// emoji mode.
pub open spec fn row_shows_rewritten(e: EngineView, row: CandidateView, at: int) -> bool {
    let outputs = if e.mode == InputMode::Emoji {
        e.outside.emoji(e.buffer.text, e.chunk_breaks)
    } else {
        e.outside.rewrites(e.buffer.text, e.chunk_breaks)
    };
    &&& row.source == Some(CandidateSource::Rewriter)
    &&& 0 <= at < outputs.len()
    &&& row.text == settle::in_width(outputs[at].text, e.config.width)
    &&& row.description == outputs[at].description
    &&& row.reading == Some(e.buffer.text)
}

/// A row that shows one of some words.
pub open spec fn row_shows_one_of(
    e: EngineView,
    row: CandidateView,
    words: Seq<AnnotatedView>,
) -> bool {
    exists|k: int|
        0 <= k < words.len() && row.source == Some((#[trigger] words[k]).source) && row.text
            == settle::in_width(words[k].text, e.config.width)
}

/// What is kept of each text is kept in order.
proof fn lemma_kept_in_order(all: Seq<CandidateView>, i: int, j: int)
    requires
        0 <= i < j < suggest::first_of_each(all).len(),
    ensures
        exists|p: int, q: int|
            0 <= p < q < all.len() && #[trigger] all[p] == suggest::first_of_each(all)[i]
                && #[trigger] all[q] == suggest::first_of_each(all)[j],
    decreases all.len(),
{
    if all.len() > 0 {
        let init = all.drop_last();
        let before = suggest::first_of_each(init);
        let kept = suggest::first_of_each(all);
        if j < before.len() {
            lemma_kept_in_order(init, i, j);
            let (p, q) = choose|p: int, q: int|
                0 <= p < q < init.len() && #[trigger] init[p] == before[i] && #[trigger] init[q]
                    == before[j];
            assert(all[p] == kept[i] && all[q] == kept[j]);
        } else {
            lemma_first_of_each(init);
            assert(init.contains(before[i]));
            let p = choose|p: int| 0 <= p < init.len() && init[p] == before[i];
            assert(all[p] == kept[i] && all[all.len() - 1] == kept[j]);
        }
    }
}

/// What is kept of each text: the first.
proof fn lemma_first_of_each(all: Seq<CandidateView>)
    ensures
        ({
            let kept = suggest::first_of_each(all);
            &&& forall|i: int| 0 <= i < kept.len() ==> all.contains(#[trigger] kept[i])
            &&& forall|i: int|
                0 <= i < all.len() ==> suggest::shows_text(kept, (#[trigger] all[i]).text)
            &&& forall|i: int, j: int|
                0 <= i < j < kept.len() ==> (#[trigger] kept[i]).text != (#[trigger] kept[j]).text
        }),
    decreases all.len(),
{
    if all.len() > 0 {
        let init = all.drop_last();
        lemma_first_of_each(init);
        let before = suggest::first_of_each(init);
        let kept = suggest::first_of_each(all);
        assert forall|i: int| 0 <= i < kept.len() implies all.contains(#[trigger] kept[i]) by {
            if i < before.len() {
                assert(init.contains(before[i]));
                let k = choose|k: int| 0 <= k < init.len() && init[k] == before[i];
                assert(all[k] == kept[i]);
            } else {
                assert(all[all.len() - 1] == kept[i]);
            }
        }
        assert forall|i: int| 0 <= i < all.len() implies suggest::shows_text(
            kept,
            (#[trigger] all[i]).text,
        ) by {
            if i < init.len() {
                assert(all[i] == init[i]);
                assert(suggest::shows_text(before, init[i].text));
                let k = choose|k: int|
                    0 <= k < before.len() && (#[trigger] before[k]).text == init[i].text;
                assert(kept[k].text == all[i].text);
            } else if !suggest::shows_text(before, all[i].text) {
                assert(kept[before.len() as int].text == all[i].text);
            }
        }
    }
}

/// Where no text at the head comes twice, the head is kept as it is.
proof fn lemma_head_is_kept(head: Seq<CandidateView>, rest: Seq<CandidateView>)
    requires
        forall|i: int, j: int|
            0 <= i < j < head.len() ==> (#[trigger] head[i]).text != (#[trigger] head[j]).text,
    ensures
        ({
            let kept = suggest::first_of_each(head + rest);
            &&& head.len() <= kept.len()
            &&& forall|i: int| 0 <= i < head.len() ==> #[trigger] kept[i] == head[i]
            &&& forall|i: int| head.len() <= i < kept.len() ==> rest.contains(#[trigger] kept[i])
        }),
    decreases head.len() + rest.len(),
{
    let all = head + rest;
    if rest.len() > 0 {
        lemma_head_is_kept(head, rest.drop_last());
        assert(all.drop_last() =~= head + rest.drop_last());
        let before = suggest::first_of_each(head + rest.drop_last());
        let kept = suggest::first_of_each(all);
        assert forall|i: int| head.len() <= i < kept.len() implies rest.contains(
            #[trigger] kept[i],
        ) by {
            if i < before.len() {
                assert(rest.drop_last().contains(before[i]));
                let k = choose|k: int|
                    0 <= k < rest.drop_last().len() && rest.drop_last()[k] == before[i];
                assert(rest[k] == kept[i]);
            } else {
                assert(rest[rest.len() - 1] == kept[i]);
            }
        }
    } else if head.len() > 0 {
        assert(all =~= head);
        let init = head.drop_last();
        assert(init + rest =~= init);
        lemma_head_is_kept(init, rest);
        let before = suggest::first_of_each(init);
        assert(before =~= init) by {
            lemma_first_of_each(init);
            if before.len() > init.len() {
                assert(rest.contains(before[init.len() as int]));
            }
        }
        assert(!suggest::shows_text(init, head.last().text));
    } else {
        assert(all =~= Seq::<CandidateView>::empty());
    }
}

/// The rows of the history at the head of the suggestions.
proof fn lemma_headed(e: EngineView)
    requires
        !e.suppress_suggest,
        e.buffer.text.len() > 0,
    ensures
        ({
            let history = entries(e.learning);
            let words = lookup::learned_words(history, e.buffer.text, Seq::empty(), 3);
            let rows = e.list_of(e.suggestions()).candidates;
            &&& words.len() <= rows.len()
            &&& forall|i: int|
                0 <= i < words.len() ==> (#[trigger] rows[i]) == (CandidateView {
                    text: settle::in_width(words[i].text, e.config.width),
                    ..words[i].candidate(e.buffer.text)
                })
            &&& forall|i: int|
                words.len() <= i < rows.len() ==> (#[trigger] rows[i]).source != Some(
                    CandidateSource::Learning,
                )
        }),
{
    let reading = e.buffer.text;
    let history = entries(e.learning);
    let words = lookup::learned_words(history, reading, Seq::empty(), 3);
    let head = lookup::learned(e.learning, reading, Seq::empty(), 3);
    let found = e.dictionary_candidates(reading, e.pending, 9, 3, 2, None);
    let made = lookup::all_rewritten(e.rewriter_variants(reading), CandidateSource::Rewriter);
    let rest = candidate::window_candidates(found, reading) + candidate::window_candidates(
        made,
        reading,
    );
    candidate_laws::law_history_lookup(history, reading, Seq::empty(), 3);
    if e.learning is None {
        reveal(Seq::filter);
        assert(words =~= Seq::empty());
    }
    assert(head =~= candidate::window_candidates(words, reading));
    assert(e.offers() =~= head + rest);
    assert forall|i: int, j: int| 0 <= i < j < head.len() implies (#[trigger] head[i]).text != (
    #[trigger] head[j]).text by {
        assert(words[i].text != words[j].text);
    }
    lemma_head_is_kept(head, rest);
    lookup_laws::law_dictionary_rows(
        lookup::searched(e.user, CandidateSource::UserDictionary, None),
        lookup::searched(e.system, CandidateSource::Dictionary, None),
        reading,
        e.pending,
        9,
        3,
        2,
    );
    let kept = e.suggestions();
    let rows = e.list_of(kept).candidates;
    assert forall|i: int| words.len() <= i < rows.len() implies (#[trigger] rows[i]).source
        != Some(CandidateSource::Learning) by {
        assert(rest.contains(kept[i]));
        let k = choose|k: int| 0 <= k < rest.len() && rest[k] == kept[i];
        if k < found.len() {
            assert(rest[k].source == Some(found[k].source));
        }
    }
}

/// Rows that show the words of the history, in their order, are headed by the
/// history.
proof fn lemma_rows_of_history(e: EngineView, rows: Seq<CandidateView>)
    requires
        ({
            let history = entries(e.learning);
            let words = lookup::learned_words(history, e.buffer.text, Seq::empty(), 3);
            &&& words.len() <= rows.len()
            &&& forall|i: int|
                0 <= i < words.len() ==> (#[trigger] rows[i]) == (CandidateView {
                    text: settle::in_width(words[i].text, e.config.width),
                    ..words[i].candidate(e.buffer.text)
                })
            &&& forall|i: int|
                words.len() <= i < rows.len() ==> (#[trigger] rows[i]).source != Some(
                    CandidateSource::Learning,
                )
        }),
    ensures
        is_headed_by_history(e, rows),
{
    let reading = e.buffer.text;
    let none = Seq::<char>::empty();
    let history = entries(e.learning);
    let words = lookup::learned_words(history, reading, none, 3);
    let n = words.len() as int;
    lookup_laws::law_history_rows(history, reading, none, 3);
    assert forall|i: int, a: int| #![trigger lookup_laws::is_learned_row(
        history,
        words[i],
        reading,
        none,
        a,
    )]
        0 <= i < n && lookup_laws::is_learned_row(history, words[i], reading, none, a) implies {
        &&& row_shows_entry(e, rows[i], a)
        &&& reading.len() <= history[a].reading.len()
        &&& history[a].reading.take(reading.len() as int) == reading
    } by {
        assert(rows[i].text == settle::in_width(words[i].text, e.config.width));
        if history[a].reading == reading {
            assert(history[a].reading.take(reading.len() as int) =~= reading);
        }
    }
    assert forall|i: int| 0 <= i < n implies row_is_remembered(
        e,
        #[trigger] rows[i],
        reading,
    ) by {
        assert(lookup_laws::is_learned(history, words[i], reading, none));
        let a = choose|a: int| lookup_laws::is_learned_row(history, words[i], reading, none, a);
        assert(row_shows_entry(e, rows[i], a));
    }
    assert forall|i: int, j: int| #![trigger rows[i], rows[j]] 0 <= i < j < n implies {
        &&& rows[j].reading == Some(reading) ==> rows[i].reading == Some(reading)
        &&& (rows[i].reading == Some(reading) <==> rows[j].reading == Some(reading))
            ==> exists|a: int, b: int|
            a < b && #[trigger] row_shows_entry(e, rows[i], a) && #[trigger] row_shows_entry(
                e,
                rows[j],
                b,
            )
    } by {
        assert(lookup_laws::is_learned(history, words[i], reading, none));
        assert(lookup_laws::is_learned(history, words[j], reading, none));
        assert(rows[i].reading == words[i].reading);
        assert(rows[j].reading == words[j].reading);
        if rows[i].reading == Some(reading) <==> rows[j].reading == Some(reading) {
            let (a, b) = choose|a: int, b: int|
                a < b && #[trigger] lookup_laws::is_learned_row(
                    history,
                    words[i],
                    reading,
                    none,
                    a,
                ) && #[trigger] lookup_laws::is_learned_row(history, words[j], reading, none, b);
            assert(row_shows_entry(e, rows[i], a));
            assert(row_shows_entry(e, rows[j], b));
        }
    }
    assert forall|a: int|
        n < 3 && 0 <= a < history.len() && reading.len() <= (#[trigger] history[a]).reading.len()
            && history[a].reading.take(reading.len() as int) == reading implies shows(
        e,
        rows.take(n),
        history[a].surface,
    ) by {
        if history[a].reading.len() == reading.len() {
            assert(history[a].reading =~= history[a].reading.take(reading.len() as int));
        }
        assert(candidate::has_text(words, history[a].surface));
        let k = choose|k: int|
            0 <= k < words.len() && (#[trigger] words[k]).text == history[a].surface;
        assert(rows[k].text == settle::in_width(words[k].text, e.config.width));
        assert(rows.take(n)[k] == rows[k]);
    }
    assert forall|a: int|
        0 <= a < history.len() && (#[trigger] history[a]).reading == reading && (forall|b: int|
            0 <= b < a ==> (#[trigger] history[b]).reading != reading) implies n > 0
        && row_shows_entry(e, rows[0], a) by {
        assert(lookup_laws::is_learned(history, words[0], reading, none));
        assert(rows[0].text == settle::in_width(words[0].text, e.config.width));
    }
    assert(headed_by_history(e, rows, n));
}

/// While a text is composed and suggestions are not suppressed, what the history
/// remembers for the text heads the suggestions, ahead of the words of the
/// dictionaries and of what the rewriters made; the first suggestion is selected,
/// and in the width that is typed no text is suggested twice.
pub proof fn law_history_heads_suggestions(e: EngineView)
    requires
        !e.suppress_suggest,
        e.buffer.text.len() > 0,
    ensures
        ({
            let list = e.list_of(e.suggestions());
            &&& list.cursor == 0
            &&& is_headed_by_history(e, list.candidates)
            &&& e.config.width == CharWidth::AsIs ==> forall|i: int, j: int|
                0 <= i < j < list.candidates.len() ==> (#[trigger] list.candidates[i]).text != (
                #[trigger] list.candidates[j]).text
        }),
{
    let rows = e.list_of(e.suggestions()).candidates;
    lemma_headed(e);
    lemma_rows_of_history(e, rows);
    lemma_first_of_each(e.offers());
}

/// Every other suggestion comes from a dictionary or a rewriter, those of the
/// rewriters last; and every word that the dictionaries find for the text and
/// everything that the rewriters made of it is suggested.
pub proof fn law_suggestions_are_looked_up(e: EngineView)
    requires
        !e.suppress_suggest,
        e.buffer.text.len() > 0,
    ensures
        ({
            let rows = e.list_of(e.suggestions()).candidates;
            let words = lookup::dictionary_words(
                entries(e.user),
                entries(e.system),
                e.buffer.text,
                e.pending,
                9,
                3,
                2,
            );
            let outputs = if e.mode == InputMode::Emoji {
                e.outside.emoji(e.buffer.text, e.chunk_breaks)
            } else {
                e.outside.rewrites(e.buffer.text, e.chunk_breaks)
            };
            &&& forall|i: int|
                0 <= i < rows.len() ==> (#[trigger] rows[i]).source == Some(
                    CandidateSource::Learning,
                ) || row_is_looked_up(e, rows[i]) && (rows[i].source == Some(
                    CandidateSource::Rewriter,
                ) || row_shows_one_of(e, rows[i], words))
            &&& forall|i: int, j: int|
                0 <= i < j < rows.len() && (#[trigger] rows[i]).source == Some(
                    CandidateSource::Rewriter,
                ) ==> (#[trigger] rows[j]).source == Some(CandidateSource::Rewriter)
            &&& forall|i: int| 0 <= i < words.len() ==> shows(e, rows, (#[trigger] words[i]).text)
            &&& forall|i: int|
                0 <= i < outputs.len() ==> shows(e, rows, (#[trigger] outputs[i]).text)
        }),
{
    let reading = e.buffer.text;
    let user = entries(e.user);
    let system = entries(e.system);
    let head = lookup::learned(e.learning, reading, Seq::empty(), 3);
    let found = e.dictionary_candidates(reading, e.pending, 9, 3, 2, None);
    let outputs = e.rewriter_variants(reading);
    let made = lookup::all_rewritten(outputs, CandidateSource::Rewriter);
    let all = e.offers();
    let kept = e.suggestions();
    let rows = e.list_of(kept).candidates;
    assert(found == lookup::dictionary_words(user, system, reading, e.pending, 9, 3, 2));
    lookup_laws::law_dictionary_rows(user, system, reading, e.pending, 9, 3, 2);
    lemma_first_of_each(all);
    assert forall|i: int| 0 <= i < rows.len() implies (#[trigger] rows[i]).source == Some(
        CandidateSource::Learning,
    ) || row_is_looked_up(e, rows[i]) && (rows[i].source == Some(CandidateSource::Rewriter)
        || row_shows_one_of(e, rows[i], found)) by {
        assert(all.contains(kept[i]));
        let k = choose|k: int| 0 <= k < all.len() && all[k] == kept[i];
        if k < head.len() {
            lemma_learned_sources(e, k);
        } else if k < head.len() + found.len() {
            let one = found[k - head.len()];
            assert(all[k] == one.candidate(reading));
            assert(lookup_laws::is_in_dictionary(user, system, one, reading, e.pending));
            let a = choose|a: int|
                lookup_laws::is_dictionary_row(user, system, one, reading, e.pending, a);
            assert(row_shows_word(e, rows[i], a));
            assert(row_shows_one_of(e, rows[i], found));
        } else {
            let a = k - head.len() - found.len();
            assert(all[k] == made[a].candidate(reading));
            assert(row_shows_rewritten(e, rows[i], a));
        }
    }
    assert forall|i: int, j: int|
        0 <= i < j < rows.len() && (#[trigger] rows[i]).source == Some(
            CandidateSource::Rewriter,
        ) implies (#[trigger] rows[j]).source == Some(CandidateSource::Rewriter) by {
        lemma_kept_in_order(all, i, j);
        let (p, q) = choose|p: int, q: int|
            0 <= p < q < all.len() && #[trigger] all[p] == kept[i] && #[trigger] all[q] == kept[j];
        if p < head.len() {
            lemma_learned_sources(e, p);
        } else if p < head.len() + found.len() {
            assert(all[p] == found[p - head.len()].candidate(reading));
            assert(lookup_laws::is_in_dictionary(
                user,
                system,
                found[p - head.len()],
                reading,
                e.pending,
            ));
        }
        assert(all[q] == made[q - head.len() - found.len()].candidate(reading));
    }
    assert forall|i: int| 0 <= i < found.len() implies shows(
        e,
        rows,
        (#[trigger] found[i]).text,
    ) by {
        assert(all[head.len() + i] == found[i].candidate(reading));
        let k = choose|k: int| 0 <= k < kept.len() && (#[trigger] kept[k]).text == found[i].text;
        assert(rows[k].text == settle::in_width(found[i].text, e.config.width));
    }
    assert forall|i: int| 0 <= i < outputs.len() implies shows(
        e,
        rows,
        (#[trigger] outputs[i]).text,
    ) by {
        assert(all[head.len() + found.len() + i] == made[i].candidate(reading));
        let k = choose|k: int| 0 <= k < kept.len() && (#[trigger] kept[k]).text == outputs[i].text;
        assert(rows[k].text == settle::in_width(outputs[i].text, e.config.width));
    }
}

/// The candidates of the history are of the history.
proof fn lemma_learned_sources(e: EngineView, k: int)
    requires
        0 <= k < lookup::learned(e.learning, e.buffer.text, Seq::empty(), 3).len(),
    ensures
        lookup::learned(e.learning, e.buffer.text, Seq::empty(), 3)[k].source == Some(
            CandidateSource::Learning,
        ),
{
    let history = entries(e.learning);
    let words = lookup::learned_words(history, e.buffer.text, Seq::empty(), 3);
    lookup_laws::law_history_rows(history, e.buffer.text, Seq::empty(), 3);
    assert(lookup_laws::is_learned(history, words[k], e.buffer.text, Seq::empty()));
}

/// Whether a step tells the application what is suggested for the composition
/// that it leaves: the list, or that there is none.
pub open spec fn tells_suggestions(step: Step) -> bool {
    let rows = step.0.list_of(step.0.suggestions());
    let actions = step.1.actions;
    if rows.candidates.len() > 0 {
        actions.contains(ActionView::ShowCandidates(rows))
    } else {
        &&& actions.contains(ActionView::HideCandidates)
        &&& forall|i: int| 0 <= i < actions.len() ==> !((#[trigger] actions[i]) is ShowCandidates)
    }
}

/// An edit tells its suggestions.
proof fn lemma_refreshed_tells(e: EngineView)
    ensures
        tells_suggestions(e.refreshed()),
        e.refreshed().0.suppress_suggest == e.suppress_suggest,
{
    let step = e.refreshed();
    assert(step.0.suggestions() == e.suggestions());
    let actions = step.1.actions;
    assert(actions[1] == if e.suggestions().len() > 0 {
        ActionView::ShowCandidates(e.list_of(e.suggestions()))
    } else {
        ActionView::HideCandidates
    });
    assert(actions.contains(actions[1]));
}

/// Every edit of the text tells what is suggested for the new text: a character
/// typed, a space put in, a character removed.
pub proof fn law_edits_tell_suggestions(e: EngineView, c: char)
    requires
        e.wf(),
        !(e.state is Conversion),
        key::is_printable(c),
    ensures
        tells_suggestions(e.pressed(composition_laws::character_key(c))),
        e.state is Composing && e.pending.len() == 0 && e.buffer.cursor > 0 && e.pressed(
            composition_laws::named_key(Keysym::BACKSPACE),
        ).0.state is Composing ==> tells_suggestions(e.pressed(composition_laws::named_key(Keysym::BACKSPACE))),
        e.state is Composing && e.pending.len() == 0 && e.buffer.cursor < e.buffer.text.len()
            && e.pressed(composition_laws::named_key(Keysym::DELETE)).0.state is Composing ==> tells_suggestions(
            e.pressed(composition_laws::named_key(Keysym::DELETE)),
        ),
{
    lemma_typed_tells(e, c);
    assert(e.pressed(composition_laws::character_key(c)) == e.typed(c));
    if e.state is Composing {
        assert(e.pressed(composition_laws::named_key(Keysym::BACKSPACE)) == e.backspaced());
        assert(e.pressed(composition_laws::named_key(Keysym::DELETE)) == e.deleted());
        lemma_removal_tells(e);
    }
}

/// A character typed tells its suggestions.
proof fn lemma_typed_tells(e: EngineView, c: char)
    ensures
        tells_suggestions(e.typed(c)),
{
    lemma_refreshed_tells(e.inserted(c, c));
    lemma_refreshed_tells(EngineView { mode: InputMode::Alphabet, ..e.inserted(c, c) });
    lemma_refreshed_tells(e.romaji_typed(c));
}

/// A character removed tells its suggestions.
proof fn lemma_removal_tells(e: EngineView)
    ensures
        e.pending.len() == 0 && e.buffer.cursor > 0 && e.backspaced().0.state is Composing
            ==> tells_suggestions(e.backspaced()),
        e.pending.len() == 0 && e.buffer.cursor < e.buffer.text.len() && e.deleted().0.state
            is Composing ==> tells_suggestions(e.deleted()),
{
    lemma_refreshed_tells(e.without_group_before());
    lemma_refreshed_tells(
        EngineView { buffer: e.buffer.cut(e.buffer.cursor, e.buffer.cursor + 1), ..e },
    );
}

/// Nothing is suggested while suggestions are suppressed, nor for no text.
pub proof fn law_nothing_is_suggested(e: EngineView)
    requires
        e.suppress_suggest || e.buffer.text.len() == 0,
    ensures
        e.refreshed().1.actions.contains(ActionView::HideCandidates),
        forall|i: int|
            0 <= i < e.refreshed().1.actions.len() ==> !((#[trigger] e.refreshed().1.actions[i])
                is ShowCandidates),
{
    lemma_refreshed_tells(e);
}

} // verus!
