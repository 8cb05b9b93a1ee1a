//! What a conversion offers, row by row: nothing that no source has, and
//! everything that the sources have.

use vstd::prelude::*;

use crate::candidate;
use crate::candidate::{AnnotatedView, CandidateSource, CandidateView};
use crate::candidate_laws;
use crate::engine::EngineView;
use crate::kana;
use crate::lexicon;
use crate::lexicon::EntryView;
use crate::lookup;
use crate::lookup_laws;
use crate::outside;
use crate::outside::{OutsideView, RewriteView};
use crate::settle;
use crate::state::{InputMode, LearningLookup};
use crate::suggestion_laws;
use crate::text;

verus! {

/// Whether the answer at `at` is the first for a reading that is split so.
pub open spec fn is_answer(
    o: OutsideView,
    reading: Seq<char>,
    breaks: Seq<usize>,
    at: int,
) -> bool {
    &&& 0 <= at < o.readings.len()
    &&& o.readings[at].reading == reading
    &&& o.readings[at].chunk_breaks == breaks
    &&& forall|k: int|
        0 <= k < at ==> (#[trigger] o.readings[k]).reading != reading
            || o.readings[k].chunk_breaks != breaks
}

/// What was answered for a reading is what the first answer for that reading,
/// split in the same places, holds; without one, nothing was.
pub proof fn law_answers_are_found(o: OutsideView, reading: Seq<char>, breaks: Seq<usize>)
    ensures
        forall|at: int| #[trigger]
            is_answer(o, reading, breaks, at) ==> {
                &&& o.model(reading, breaks) == o.readings[at].model
                &&& o.rewrites(reading, breaks) == o.readings[at].rewrites
                &&& o.emoji(reading, breaks) == o.readings[at].emoji
                &&& o.answer(reading, breaks) == Some(o.readings[at])
            },
        (forall|k: int|
            0 <= k < o.readings.len() ==> (#[trigger] o.readings[k]).reading != reading
                || o.readings[k].chunk_breaks != breaks) ==> {
            &&& o.model(reading, breaks).len() == 0
            &&& o.rewrites(reading, breaks).len() == 0
            &&& o.emoji(reading, breaks).len() == 0
            &&& o.answer(reading, breaks) is None
        },
{
    let p = outside::answers(reading, breaks);
    text::lemma_find_first(o.readings, p);
    assert forall|at: int| #[trigger] is_answer(o, reading, breaks, at) implies {
        &&& o.model(reading, breaks) == o.readings[at].model
        &&& o.rewrites(reading, breaks) == o.readings[at].rewrites
        &&& o.emoji(reading, breaks) == o.readings[at].emoji
        &&& o.answer(reading, breaks) == Some(o.readings[at])
    } by {
        assert forall|k: int| 0 <= k < at implies !p(#[trigger] o.readings[k]) by {}
        text::lemma_find_first_is(o.readings, p, at);
    }
    if forall|k: int|
        0 <= k < o.readings.len() ==> (#[trigger] o.readings[k]).reading != reading
            || o.readings[k].chunk_breaks != breaks {
        if let Some(i) = text::find_first(o.readings, p) {
            assert(p(o.readings[i]));
        }
    }
}

/// The dates of a reading are those of the first answer for it, and the name of
/// a symbol is that of the first answer for the symbol.
pub proof fn law_dates_and_names_are_found(o: OutsideView, word: Seq<char>, at: int)
    ensures
        0 <= at < o.dates.len() && o.dates[at].reading == word && (forall|k: int|
            0 <= k < at ==> (#[trigger] o.dates[k]).reading != word) ==> o.dates(word)
            == o.dates[at].dates,
        (forall|k: int| 0 <= k < o.dates.len() ==> (#[trigger] o.dates[k]).reading != word)
            ==> o.dates(word).len() == 0,
        0 <= at < o.symbols.len() && o.symbols[at].symbol == word && (forall|k: int|
            0 <= k < at ==> (#[trigger] o.symbols[k]).symbol != word) ==> o.symbol_name(word)
            == Some(o.symbols[at].name),
        (forall|k: int| 0 <= k < o.symbols.len() ==> (#[trigger] o.symbols[k]).symbol != word)
            ==> o.symbol_name(word) is None,
{
    let p = outside::dates_of(word);
    let q = outside::names(word);
    text::lemma_find_first(o.dates, p);
    text::lemma_find_first(o.symbols, q);
    if 0 <= at < o.dates.len() && o.dates[at].reading == word && (forall|k: int|
        0 <= k < at ==> (#[trigger] o.dates[k]).reading != word) {
        assert forall|k: int| 0 <= k < at implies !p(#[trigger] o.dates[k]) by {}
        text::lemma_find_first_is(o.dates, p, at);
    }
    if 0 <= at < o.symbols.len() && o.symbols[at].symbol == word && (forall|k: int|
        0 <= k < at ==> (#[trigger] o.symbols[k]).symbol != word) {
        assert forall|k: int| 0 <= k < at implies !q(#[trigger] o.symbols[k]) by {}
        text::lemma_find_first_is(o.symbols, q, at);
    }
    if let Some(i) = text::find_first(o.dates, p) {
        assert(p(o.dates[i]));
    }
    if let Some(i) = text::find_first(o.symbols, q) {
        assert(q(o.symbols[i]));
    }
}

/// What is looked for: the reading under conversion; what the dictionaries look
/// for, with the keys that wait after it; whether the history is used; and
/// whether words with longer readings are left out.
pub struct Search {
    pub reading: Seq<char>,
    pub base: Seq<char>,
    pub pending: Seq<char>,
    pub learning: LearningLookup,
    pub exact_only: bool,
}

/// A row with a text, in the width that is configured.
pub open spec fn row_has_text(e: EngineView, row: CandidateView, text: Seq<char>) -> bool {
    row.text == settle::in_width(text, e.config.width)
}

/// A row of the history at `at`: an entry for the reading, or, unless the search
/// is exact, for a longer one.
pub open spec fn row_of_history(e: EngineView, s: Search, row: CandidateView, at: int) -> bool {
    let history = suggestion_laws::entries(e.learning);
    &&& s.learning == LearningLookup::Use
    &&& 0 <= at < history.len()
    &&& row_has_text(e, row, history[at].surface)
    &&& row.reading == Some(history[at].reading)
    &&& row.description == candidate::script_label(history[at].surface)
    &&& history[at].reading == s.reading || (!s.exact_only && lookup_laws::goes_on(
        history[at],
        s.reading,
        Seq::empty(),
    ))
}

/// A row of the history is one of three: of the first three entries for the
/// reading where the search is exact, and else of the three words that the history
/// has for it or for longer readings.
pub open spec fn row_is_recalled(e: EngineView, s: Search, row: CandidateView) -> bool {
    let history = suggestion_laws::entries(e.learning);
    let same = history.filter(|entry: EntryView| entry.reading == s.reading);
    let words = lookup::learned_words(history, s.reading, Seq::empty(), 3);
    if s.exact_only {
        exists|k: int|
            0 <= k < 3 && k < same.len() && row_has_text(e, row, (#[trigger] same[k]).surface)
    } else {
        exists|k: int|
            0 <= k < words.len() && row_has_text(e, row, (#[trigger] words[k]).text) && row.reading
                == words[k].reading
    }
}

/// A row of a dictionary at `at`: an entry for the text, or, unless the search is
/// exact or the text a single character, for a longer one.
pub open spec fn row_of_dictionary(
    e: EngineView,
    s: Search,
    row: CandidateView,
    words: Seq<EntryView>,
    at: int,
) -> bool {
    &&& 0 <= at < words.len()
    &&& row_has_text(e, row, words[at].surface)
    &&& row.reading == Some(words[at].reading)
    &&& row.description == candidate::script_label(words[at].surface)
    &&& (s.pending.len() == 0 && words[at].reading == s.base) || (!s.exact_only && s.base.len()
        >= 2 && lookup_laws::goes_on(words[at], s.base, s.pending))
}

/// A row of the model: one of the first conversions, as many as configured.
pub open spec fn row_of_model(e: EngineView, s: Search, row: CandidateView, at: int) -> bool {
    let texts = e.outside.model(s.reading, e.chunk_breaks);
    &&& 0 <= at < texts.len()
    &&& at < e.config.num_candidates
    &&& row_has_text(e, row, texts[at])
    &&& row.reading == Some(s.reading)
    &&& row.description == candidate::script_label(texts[at])
}

/// A row of the reading itself, in hiragana or katakana; not in emoji mode. A
/// symbol has its name with it.
pub open spec fn row_of_reading(e: EngineView, s: Search, row: CandidateView, text: Seq<char>) -> bool {
    &&& e.mode != InputMode::Emoji
    &&& text == s.reading || text == kana::katakana_text(s.reading)
    &&& row_has_text(e, row, text)
    &&& row.reading == Some(s.reading)
    &&& row.description == match e.outside.symbol_name(text) {
        Some(name) => Some(name),
        None => candidate::script_label(text),
    }
}

/// What the rewriters made of a reading; in emoji mode the emoji rewriter alone.
pub open spec fn rewritten(e: EngineView, reading: Seq<char>) -> Seq<RewriteView> {
    if e.mode == InputMode::Emoji {
        e.outside.emoji(reading, e.chunk_breaks)
    } else {
        e.outside.rewrites(reading, e.chunk_breaks)
    }
}

/// A row of the rewriters.
pub open spec fn row_of_rewriters(e: EngineView, s: Search, row: CandidateView, at: int) -> bool {
    let outputs = rewritten(e, s.reading);
    &&& 0 <= at < outputs.len()
    &&& row_has_text(e, row, outputs[at].text)
    &&& row.reading == Some(s.reading)
    &&& row.description == match outputs[at].description {
        Some(own) => Some(own),
        None => candidate::script_label(outputs[at].text),
    }
}

/// A row of the calendar: only where dates are converted and there is a format
/// for them.
pub open spec fn row_of_dates(e: EngineView, s: Search, row: CandidateView, at: int) -> bool {
    let dates = e.outside.dates(s.reading);
    &&& e.config.date_conversion
    &&& e.config.date_formats.len() > 0
    &&& 0 <= at < dates.len()
    &&& row_has_text(e, row, dates[at].text)
    &&& row.reading == Some(s.reading)
    &&& row.description == dates[at].description
}

/// A row comes from the source that it names.
pub open spec fn row_is_sourced(e: EngineView, s: Search, row: CandidateView) -> bool {
    match row.source {
        Some(CandidateSource::Learning) => row_is_recalled(e, s, row) && exists|at: int|
            row_of_history(e, s, row, at),
        Some(CandidateSource::UserDictionary) => exists|at: int|
            row_of_dictionary(e, s, row, suggestion_laws::entries(e.user), at),
        Some(CandidateSource::Dictionary) => exists|at: int|
            row_of_dictionary(e, s, row, suggestion_laws::entries(e.system), at),
        Some(CandidateSource::Model) => exists|at: int| row_of_model(e, s, row, at),
        Some(CandidateSource::Fallback) => exists|text: Seq<char>|
            #[trigger] row_of_reading(e, s, row, text),
        Some(CandidateSource::Rewriter) => exists|at: int| row_of_rewriters(e, s, row, at),
        Some(CandidateSource::Date) => exists|at: int| row_of_dates(e, s, row, at),
        None => false,
    }
}

/// All that the sources have for a search is among the rows: the words of the
/// history, the words of the dictionaries, the first conversions of the model,
/// the reading in hiragana and katakana, what the rewriters made, and the dates.
pub open spec fn rows_have_all(e: EngineView, s: Search, rows: Seq<CandidateView>) -> bool {
    let texts = e.outside.model(s.reading, e.chunk_breaks);
    let outputs = rewritten(e, s.reading);
    let dates = e.outside.dates(s.reading);
    &&& s.learning == LearningLookup::Use ==> history_is_shown(e, s, rows)
    &&& forall|entry: EntryView|
        suggestion_laws::entries(e.user).contains(entry) || suggestion_laws::entries(e.system).contains(entry) ==> (
        #[trigger] word_is_shown(e, s, rows, entry))
    &&& forall|i: int|
        0 <= i < texts.len() && i < e.config.num_candidates ==> suggestion_laws::shows(e, rows, #[trigger] texts[i])
    &&& e.mode != InputMode::Emoji ==> suggestion_laws::shows(e, rows, s.reading) && suggestion_laws::shows(
        e,
        rows,
        kana::katakana_text(s.reading),
    )
    &&& forall|i: int| 0 <= i < outputs.len() ==> suggestion_laws::shows(e, rows, (#[trigger] outputs[i]).text)
    &&& e.config.date_conversion && e.config.date_formats.len() > 0 ==> forall|i: int|
        0 <= i < dates.len() ==> suggestion_laws::shows(e, rows, (#[trigger] dates[i]).text)
}

/// The words that the history has for a search: the first three entries for the
/// reading where the search is exact, and else three words for it or for longer
/// readings.
pub open spec fn history_is_shown(e: EngineView, s: Search, rows: Seq<CandidateView>) -> bool {
    let history = suggestion_laws::entries(e.learning);
    let same = history.filter(|entry: EntryView| entry.reading == s.reading);
    let words = lookup::learned_words(history, s.reading, Seq::empty(), 3);
    if s.exact_only {
        forall|i: int|
            0 <= i < same.len() && i < 3 ==> suggestion_laws::shows(e, rows, (#[trigger] same[i]).surface)
    } else {
        forall|i: int| 0 <= i < words.len() ==> suggestion_laws::shows(e, rows, (#[trigger] words[i]).text)
    }
}

/// A word of a dictionary is among the rows if it fits: it has the text for its
/// reading and no key waits, or, unless the search is exact or the text a single
/// character, a reading that goes on from it.
pub open spec fn word_is_shown(
    e: EngineView,
    s: Search,
    rows: Seq<CandidateView>,
    entry: EntryView,
) -> bool {
    (s.pending.len() == 0 && entry.reading == s.base) || (!s.exact_only && s.base.len() >= 2
        && lookup_laws::goes_on(entry, s.base, s.pending)) ==> suggestion_laws::shows(e, rows, entry.surface)
}

/// The rows stand in the order of their sources, dates aside: history, user
/// dictionary, model, system dictionary, the reading, rewriters. Only where the
/// history, the user dictionary and the model have nothing, the reading comes
/// before the system dictionary.
pub open spec fn rows_in_order(e: EngineView, s: Search, rows: Seq<CandidateView>) -> bool {
    forall|i: int, j: int|
        #![trigger rows[i], rows[j]]
        0 <= i < j < rows.len() && rows[i].source is Some && rows[j].source is Some
            && rows[i].source != Some(CandidateSource::Date) && rows[j].source != Some(
            CandidateSource::Date,
        ) ==> source_rank(rows[i].source->0) <= source_rank(rows[j].source->0) || {
            &&& rows[i].source == Some(CandidateSource::Fallback)
            &&& rows[j].source == Some(CandidateSource::Dictionary)
            &&& row_has_text(e, rows[i], s.reading)
            &&& forall|k: int|
                0 <= k < rows.len() ==> (#[trigger] rows[k]).source != Some(
                    CandidateSource::Learning,
                ) && rows[k].source != Some(CandidateSource::UserDictionary) && rows[k].source
                    != Some(CandidateSource::Model)
        }
}

/// The place of a source.
pub open spec fn source_rank(source: CandidateSource) -> int {
    match source {
        CandidateSource::Learning => 0,
        CandidateSource::UserDictionary => 1,
        CandidateSource::Model => 2,
        CandidateSource::Dictionary => 3,
        CandidateSource::Fallback => 4,
        CandidateSource::Rewriter => 5,
        CandidateSource::Date => 6,
    }
}

/// Whether only dates stand between the row at `m` and a date at `i`, and the row
/// at `m` is the first of the model, or the first of all where none is of the
/// model; with dates alone, `m` is before the first row.
pub open spec fn date_follows(rows: Seq<CandidateView>, i: int, m: int) -> bool {
    &&& -1 <= m < i
    &&& forall|k: int|
        m < k < i ==> (#[trigger] rows[k]).source == Some(CandidateSource::Date)
    &&& forall|k: int|
        0 <= k < m ==> (#[trigger] rows[k]).source != Some(CandidateSource::Model)
    &&& (m >= 0 && rows[m].source == Some(CandidateSource::Model)) || (m <= 0 && forall|k: int|
        0 <= k < rows.len() ==> (#[trigger] rows[k]).source != Some(CandidateSource::Model))
}

/// A date stands where dates do.
pub open spec fn date_in_place(rows: Seq<CandidateView>, i: int) -> bool {
    exists|m: int| date_follows(rows, i, m)
}

/// The dates stand right after the first row of the model, or after the first row
/// where none is of the model.
pub open spec fn dates_in_place(rows: Seq<CandidateView>) -> bool {
    forall|i: int|
        0 <= i < rows.len() && (#[trigger] rows[i]).source == Some(CandidateSource::Date)
            ==> date_in_place(rows, i)
}

/// The rows of a search are just those that the sources have, in order.
pub open spec fn rows_fit(e: EngineView, s: Search, rows: Seq<CandidateView>) -> bool {
    &&& forall|i: int| 0 <= i < rows.len() ==> row_is_sourced(e, s, #[trigger] rows[i])
    &&& rows_have_all(e, s, rows)
    &&& rows_in_order(e, s, rows)
    &&& dates_in_place(rows)
}

/// The candidates of a search.
pub open spec fn found(e: EngineView, s: Search) -> Seq<AnnotatedView> {
    e.conversion_candidates(
        s.reading,
        s.base,
        s.pending,
        e.config.num_candidates as int,
        s.learning,
        s.exact_only,
    )
}

/// The candidates of a search before descriptions and dates.
spec fn plainly_found(e: EngineView, s: Search) -> Seq<AnnotatedView> {
    e.mixed(
        s.reading,
        s.base,
        s.pending,
        e.config.num_candidates as int,
        s.learning,
        s.exact_only,
    )
}

/// The rows that show the candidates of a search.
spec fn found_rows(e: EngineView, s: Search) -> Seq<CandidateView> {
    e.conversion_list(found(e, s), s.reading).candidates
}

/// Whether a candidate that was found is one of the plain ones, described, or a
/// date.
spec fn came_from(e: EngineView, s: Search, i: int, k: int) -> bool {
    &&& 0 <= k < plainly_found(e, s).len()
    &&& found(e, s)[i] == lookup::described(plainly_found(e, s)[k], e.outside)
}

/// A candidate that was found is a plain one, described, or a date.
proof fn lemma_where_from(e: EngineView, s: Search, i: int)
    requires
        0 <= i < found(e, s).len(),
    ensures
        ({
            let one = found(e, s)[i];
            let dates = e.outside.dates(s.reading);
            ||| exists|k: int| came_from(e, s, i, k)
            ||| e.config.converts_dates() && exists|k: int|
                0 <= k < dates.len() && one == (AnnotatedView {
                    text: (#[trigger] dates[k]).text,
                    source: CandidateSource::Date,
                    reading: None,
                    description: dates[k].description,
                })
        }),
{
    let mixed = plainly_found(e, s);
    let described = lookup::all_described(mixed, e.outside);
    let dates = e.outside.dates(s.reading);
    let all = found(e, s);
    if e.config.converts_dates() {
        let at = candidate::date_position(described);
        text::lemma_find_first(described, candidate::from_model());
        let fresh = dates.filter(lookup::new_to(described));
        if i < at {
            assert(all[i] == described[i]);
            assert(came_from(e, s, i, i));
        } else if i < at + fresh.len() {
            assert(fresh.contains(fresh[i - at]));
            text::lemma_filter_contains(dates, lookup::new_to(described), fresh[i - at]);
            let k = choose|k: int| 0 <= k < dates.len() && dates[k] == fresh[i - at];
            assert(all[i].text == dates[k].text);
        } else {
            assert(all[i] == described[i - fresh.len()]);
            assert(came_from(e, s, i, i - fresh.len()));
        }
    } else {
        assert(all[i] == described[i]);
        assert(came_from(e, s, i, i));
    }
}

/// Two candidates that are no dates stand in the order of the plain ones.
proof fn lemma_order_kept(e: EngineView, s: Search, i: int, j: int)
    requires
        0 <= i < j < found(e, s).len(),
        found(e, s)[i].source != CandidateSource::Date,
        found(e, s)[j].source != CandidateSource::Date,
    ensures
        exists|p: int, q: int|
            p < q && #[trigger] came_from(e, s, i, p) && #[trigger] came_from(e, s, j, q),
{
    let mixed = plainly_found(e, s);
    let described = lookup::all_described(mixed, e.outside);
    let dates = e.outside.dates(s.reading);
    let all = found(e, s);
    if e.config.converts_dates() {
        let at = candidate::date_position(described);
        text::lemma_find_first(described, candidate::from_model());
        let n = dates.filter(lookup::new_to(described)).len() as int;
        let p = if i < at {
            i
        } else {
            i - n
        };
        let q = if j < at {
            j
        } else {
            j - n
        };
        if at <= i < at + n {
            assert(all[i].source == CandidateSource::Date);
        }
        if at <= j < at + n {
            assert(all[j].source == CandidateSource::Date);
        }
        assert(all[i] == described[p]);
        assert(all[j] == described[q]);
        assert(came_from(e, s, i, p) && came_from(e, s, j, q));
    } else {
        assert(all[i] == described[i] && all[j] == described[j]);
        assert(came_from(e, s, i, i) && came_from(e, s, j, j));
    }
}

/// A learned candidate comes from an entry of the history.
proof fn lemma_learned_entry(e: EngineView, s: Search, one: AnnotatedView) -> (at: int)
    requires
        e.learned_part(s.reading, s.learning, s.exact_only).contains(one),
    ensures
        ({
            let history = suggestion_laws::entries(e.learning);
            &&& s.learning == LearningLookup::Use
            &&& 0 <= at < history.len()
            &&& one.text == history[at].surface
            &&& one.description is None
            &&& one.source == CandidateSource::Learning
            &&& one.candidate(s.reading).reading == Some(history[at].reading)
            &&& history[at].reading == s.reading || (!s.exact_only && lookup_laws::goes_on(
                history[at],
                s.reading,
                Seq::empty(),
            ))
        }),
{
    let history = suggestion_laws::entries(e.learning);
    let none = Seq::<char>::empty();
    let part = e.learned_part(s.reading, s.learning, s.exact_only);
    let k = choose|k: int| 0 <= k < part.len() && part[k] == one;
    if s.exact_only {
        let same = history.filter(lexicon::reads(s.reading));
        assert(one.text == same[k].surface);
        assert(same.contains(same[k]));
        text::lemma_filter_contains(history, lexicon::reads(s.reading), same[k]);
        choose|at: int| 0 <= at < history.len() && history[at] == same[k]
    } else {
        let words = lookup::learned_words(history, s.reading, none, 3);
        lookup_laws::law_history_rows(history, s.reading, none, 3);
        assert(lookup_laws::is_learned(history, words[k], s.reading, none));
        choose|at: int| lookup_laws::is_learned_row(history, words[k], s.reading, none, at)
    }
}

/// A learned candidate is one of the three.
proof fn lemma_recalled(e: EngineView, s: Search, one: AnnotatedView, row: CandidateView)
    requires
        e.learned_part(s.reading, s.learning, s.exact_only).contains(one),
        row_has_text(e, row, one.text),
        row.reading == one.candidate(s.reading).reading,
    ensures
        row_is_recalled(e, s, row),
{
    let history = suggestion_laws::entries(e.learning);
    let none = Seq::<char>::empty();
    let part = e.learned_part(s.reading, s.learning, s.exact_only);
    let k = choose|k: int| 0 <= k < part.len() && part[k] == one;
    if s.exact_only {
        let same = history.filter(|entry: EntryView| entry.reading == s.reading);
        assert((|entry: EntryView| entry.reading == s.reading) =~= lexicon::reads(s.reading));
        assert(one.text == same[k].surface);
    } else {
        let words = lookup::learned_words(history, s.reading, none, 3);
        lookup_laws::law_history_rows(history, s.reading, none, 3);
        assert(lookup_laws::is_learned(history, words[k], s.reading, none));
        assert(one.text == words[k].text);
        assert(row.reading == words[k].reading);
    }
}

/// A word of the dictionaries comes from an entry.
proof fn lemma_word_entry(e: EngineView, s: Search, one: AnnotatedView) -> (at: int)
    requires
        e.mixed_words(s.base, s.pending, s.exact_only).contains(one),
        s.pending.len() == 0 ==> s.base == s.reading,
    ensures
        ({
            let words = if one.source == CandidateSource::UserDictionary {
                suggestion_laws::entries(e.user)
            } else {
                suggestion_laws::entries(e.system)
            };
            &&& 0 <= at < words.len()
            &&& one.text == words[at].surface
            &&& one.description is None
            &&& one.candidate(s.reading).reading == Some(words[at].reading)
            &&& (s.pending.len() == 0 && words[at].reading == s.base) || (!s.exact_only
                && s.base.len() >= 2 && lookup_laws::goes_on(words[at], s.base, s.pending))
        }),
{
    let user = suggestion_laws::entries(e.user);
    let system = suggestion_laws::entries(e.system);
    let most = usize::MAX as int;
    let predicted = if s.exact_only {
        0
    } else {
        most
    };
    let words = e.mixed_words(s.base, s.pending, s.exact_only);
    assert(words == lookup::dictionary_words(
        user,
        system,
        s.base,
        s.pending,
        most,
        predicted,
        2,
    ));
    lookup_laws::law_dictionary_rows(user, system, s.base, s.pending, most, predicted, 2);
    candidate_laws::law_dictionary_search(user, system, s.base, s.pending, most, predicted, 2);
    let k = choose|k: int| 0 <= k < words.len() && words[k] == one;
    assert(lookup_laws::is_in_dictionary(user, system, words[k], s.base, s.pending));
    if s.exact_only {
        assert(words[k].reading is None);
    }
    choose|at: int| lookup_laws::is_dictionary_row(user, system, one, s.base, s.pending, at)
}

/// Every row comes from the source that it names.
proof fn lemma_rows_sourced(e: EngineView, s: Search, i: int)
    requires
        s.pending.len() == 0 ==> s.base == s.reading,
        0 <= i < found(e, s).len(),
    ensures
        row_is_sourced(e, s, found_rows(e, s)[i]),
{
    let all = found(e, s);
    let row = found_rows(e, s)[i];
    let mixed = plainly_found(e, s);
    let num = e.config.num_candidates as int;
    let dates = e.outside.dates(s.reading);
    lemma_where_from(e, s, i);
    if exists|k: int| came_from(e, s, i, k) {
        let k = choose|k: int| came_from(e, s, i, k);
        let one = mixed[k];
        candidate_laws::lemma_mixed_sources(
            e,
            s.reading,
            s.base,
            s.pending,
            num,
            s.learning,
            s.exact_only,
            k,
        );
        let offered = candidate_laws::offered_by(
            e,
            s.reading,
            s.base,
            s.pending,
            num,
            s.learning,
            s.exact_only,
            one.source,
        );
        let words = e.mixed_words(s.base, s.pending, s.exact_only);
        let o = choose|o: int| 0 <= o < offered.len() && offered[o] == one;
        match one.source {
            CandidateSource::Learning => {
                let at = lemma_learned_entry(e, s, one);
                lemma_recalled(e, s, one, row);
                assert(row_of_history(e, s, row, at));
            },
            CandidateSource::UserDictionary => {
                text::lemma_filter_contains(words, lookup::of_user(), one);
                let at = lemma_word_entry(e, s, one);
                assert(row_of_dictionary(e, s, row, suggestion_laws::entries(e.user), at));
            },
            CandidateSource::Dictionary => {
                text::lemma_filter_contains(words, lookup::not_of_user(), one);
                let at = lemma_word_entry(e, s, one);
                assert(row_of_dictionary(e, s, row, suggestion_laws::entries(e.system), at));
            },
            CandidateSource::Model => {
                assert(row_of_model(e, s, row, o));
            },
            CandidateSource::Fallback => {
                assert(row_of_reading(e, s, row, one.text));
            },
            CandidateSource::Rewriter => {
                assert(row_of_rewriters(e, s, row, o));
            },
            CandidateSource::Date => {},
        }
    } else {
        let k = choose|k: int|
            0 <= k < dates.len() && all[i] == (AnnotatedView {
                text: (#[trigger] dates[k]).text,
                source: CandidateSource::Date,
                reading: None,
                description: dates[k].description,
            });
        assert(row_of_dates(e, s, row, k));
    }
}

/// A text that was found is shown.
proof fn lemma_found_is_shown(e: EngineView, s: Search, text: Seq<char>)
    requires
        candidate::has_text(plainly_found(e, s), text),
    ensures
        suggestion_laws::shows(e, found_rows(e, s), text),
{
    candidate_laws::lemma_dressing_keeps_text(e, s.reading, plainly_found(e, s), text);
    let all = found(e, s);
    let k = choose|k: int| 0 <= k < all.len() && (#[trigger] all[k]).text == text;
    assert(found_rows(e, s)[k].text == settle::in_width(text, e.config.width));
}

/// A text that a source offers is found.
proof fn lemma_offered_is_found(e: EngineView, s: Search, source: CandidateSource, k: int)
    requires
        ({
            let offered = candidate_laws::offered_by(
                e,
                s.reading,
                s.base,
                s.pending,
                e.config.num_candidates as int,
                s.learning,
                s.exact_only,
                source,
            );
            0 <= k < offered.len()
        }),
    ensures
        ({
            let offered = candidate_laws::offered_by(
                e,
                s.reading,
                s.base,
                s.pending,
                e.config.num_candidates as int,
                s.learning,
                s.exact_only,
                source,
            );
            suggestion_laws::shows(e, found_rows(e, s), offered[k].text)
        }),
{
    let num = e.config.num_candidates as int;
    let offered = candidate_laws::offered_by(
        e,
        s.reading,
        s.base,
        s.pending,
        num,
        s.learning,
        s.exact_only,
        source,
    );
    let mixed = plainly_found(e, s);
    let text = offered[k].text;
    candidate_laws::lemma_mixed_stages(
        e,
        s.reading,
        s.base,
        s.pending,
        num,
        s.learning,
        s.exact_only,
    );
    let top = e.mixed_top(s.reading, s.base, s.pending, s.learning, s.exact_only);
    let to_model = e.mixed_to_model(s.reading, s.base, s.pending, num, s.learning, s.exact_only);
    let to_system = e.mixed_to_system(s.reading, s.base, s.pending, num, s.learning, s.exact_only);
    let to_kana = e.mixed_to_kana(s.reading, s.base, s.pending, num, s.learning, s.exact_only);
    match source {
        CandidateSource::Learning => {
            assert(mixed.take(offered.len() as int)[k] == mixed[k]);
            assert(candidate::has_text(mixed, text));
        },
        CandidateSource::UserDictionary => {
            candidate_laws::lemma_head_text(mixed, top.len() as int, text);
        },
        CandidateSource::Model => {
            assert(e.model_part(s.reading, num, top.len() == 0)[k].text == text);
            candidate_laws::lemma_head_text(mixed, to_model.len() as int, text);
        },
        CandidateSource::Dictionary => {
            candidate_laws::lemma_head_text(mixed, to_system.len() as int, text);
        },
        CandidateSource::Fallback => {
            candidate_laws::lemma_head_text(mixed, to_kana.len() as int, text);
        },
        _ => {
            candidate_laws::lemma_head_text(mixed, mixed.len() as int, text);
        },
    }
    lemma_found_is_shown(e, s, text);
}

/// The words of the dictionaries that fit are shown.
proof fn lemma_words_shown(e: EngineView, s: Search, entry: EntryView)
    requires
        suggestion_laws::entries(e.user).contains(entry) || suggestion_laws::entries(e.system).contains(entry),
        2 * (suggestion_laws::entries(e.user).len() + suggestion_laws::entries(e.system).len()) <= usize::MAX,
    ensures
        word_is_shown(e, s, found_rows(e, s), entry),
{
    let user = suggestion_laws::entries(e.user);
    let system = suggestion_laws::entries(e.system);
    let most = usize::MAX as int;
    let predicted = if s.exact_only {
        0
    } else {
        most
    };
    let words = e.mixed_words(s.base, s.pending, s.exact_only);
    assert(words == lookup::dictionary_words(
        user,
        system,
        s.base,
        s.pending,
        most,
        predicted,
        2,
    ));
    lookup_laws::law_dictionary_search_is_complete(
        user,
        system,
        s.base,
        s.pending,
        most,
        predicted,
        2,
        entry,
    );
    if candidate::has_text(words, entry.surface) {
        let k = choose|k: int|
            0 <= k < words.len() && (#[trigger] words[k]).text == entry.surface;
        if words[k].source == CandidateSource::UserDictionary {
            let mine = e.user_part(s.base, s.pending, s.exact_only);
            text::lemma_filter_contains(words, lookup::of_user(), words[k]);
            let o = choose|o: int| 0 <= o < mine.len() && mine[o] == words[k];
            lemma_offered_is_found(e, s, CandidateSource::UserDictionary, o);
        } else {
            let theirs = e.system_part(s.base, s.pending, s.exact_only);
            text::lemma_filter_contains(words, lookup::not_of_user(), words[k]);
            let o = choose|o: int| 0 <= o < theirs.len() && theirs[o] == words[k];
            lemma_offered_is_found(e, s, CandidateSource::Dictionary, o);
        }
    }
}

/// The words of the history are shown.
proof fn lemma_history_shown(e: EngineView, s: Search)
    requires
        s.learning == LearningLookup::Use,
    ensures
        history_is_shown(e, s, found_rows(e, s)),
{
    let rows = found_rows(e, s);
    let history = suggestion_laws::entries(e.learning);
    let same = history.filter(|entry: EntryView| entry.reading == s.reading);
    let words = lookup::learned_words(history, s.reading, Seq::empty(), 3);
    let part = e.learned_part(s.reading, s.learning, s.exact_only);
    if s.exact_only {
        assert((|entry: EntryView| entry.reading == s.reading) =~= lexicon::reads(s.reading));
        assert forall|i: int| 0 <= i < same.len() && i < 3 implies suggestion_laws::shows(
            e,
            rows,
            (#[trigger] same[i]).surface,
        ) by {
            if e.learning is None {
                text::lemma_filter_len(history, lexicon::reads(s.reading));
            }
            assert(part[i].text == same[i].surface);
            lemma_offered_is_found(e, s, CandidateSource::Learning, i);
        }
    } else {
        assert forall|i: int| 0 <= i < words.len() implies suggestion_laws::shows(
            e,
            rows,
            (#[trigger] words[i]).text,
        ) by {
            if e.learning is None {
                lookup_laws::law_history_rows(history, s.reading, Seq::empty(), 3);
                assert(lookup_laws::is_learned(history, words[i], s.reading, Seq::empty()));
            }
            assert(part[i].text == words[i].text);
            lemma_offered_is_found(e, s, CandidateSource::Learning, i);
        }
    }
}

/// The dates are shown.
proof fn lemma_dates_shown(e: EngineView, s: Search, k: int)
    requires
        e.config.date_conversion,
        e.config.date_formats.len() > 0,
        0 <= k < e.outside.dates(s.reading).len(),
    ensures
        suggestion_laws::shows(e, found_rows(e, s), e.outside.dates(s.reading)[k].text),
{
    let dates = e.outside.dates(s.reading);
    let described = lookup::all_described(plainly_found(e, s), e.outside);
    let p = lookup::new_to(described);
    let fresh = dates.filter(p);
    let at = candidate::date_position(described);
    text::lemma_find_first(described, candidate::from_model());
    let all = found(e, s);
    if candidate::has_text(described, dates[k].text) {
        let i = choose|i: int|
            0 <= i < described.len() && (#[trigger] described[i]).text == dates[k].text;
        if i < at {
            assert(all[i] == described[i]);
            assert(row_has_text(e, found_rows(e, s)[i], dates[k].text));
        } else {
            assert(all[i + fresh.len()] == described[i]);
            assert(row_has_text(e, found_rows(e, s)[i + fresh.len()], dates[k].text));
        }
    } else {
        assert(dates.contains(dates[k]));
        text::lemma_filter_contains(dates, p, dates[k]);
        let i = choose|i: int| 0 <= i < fresh.len() && fresh[i] == dates[k];
        assert(all[at + i].text == dates[k].text);
        assert(row_has_text(e, found_rows(e, s)[at + i], dates[k].text));
    }
}

/// All that the sources have is shown.
proof fn lemma_rows_have_all(e: EngineView, s: Search)
    requires
        2 * (suggestion_laws::entries(e.user).len() + suggestion_laws::entries(e.system).len()) <= usize::MAX,
    ensures
        rows_have_all(e, s, found_rows(e, s)),
{
    let rows = found_rows(e, s);
    let texts = e.outside.model(s.reading, e.chunk_breaks);
    let outputs = rewritten(e, s.reading);
    let dates = e.outside.dates(s.reading);
    if s.learning == LearningLookup::Use {
        lemma_history_shown(e, s);
    }
    assert forall|entry: EntryView|
        suggestion_laws::entries(e.user).contains(entry) || suggestion_laws::entries(e.system).contains(entry) implies (
    #[trigger] word_is_shown(e, s, rows, entry)) by {
        lemma_words_shown(e, s, entry);
    }
    assert forall|i: int| 0 <= i < texts.len() && i < e.config.num_candidates implies suggestion_laws::shows(
        e,
        rows,
        #[trigger] texts[i],
    ) by {
        lemma_offered_is_found(e, s, CandidateSource::Model, i);
    }
    if e.mode != InputMode::Emoji {
        lemma_offered_is_found(e, s, CandidateSource::Fallback, 0);
        lemma_offered_is_found(e, s, CandidateSource::Fallback, 1);
    }
    assert forall|i: int| 0 <= i < outputs.len() implies suggestion_laws::shows(
        e,
        rows,
        (#[trigger] outputs[i]).text,
    ) by {
        lemma_offered_is_found(e, s, CandidateSource::Rewriter, i);
    }
    assert forall|i: int|
        e.config.date_conversion && e.config.date_formats.len() > 0 && 0 <= i
            < dates.len() implies suggestion_laws::shows(e, rows, (#[trigger] dates[i]).text) by {
        lemma_dates_shown(e, s, i);
    }
}

/// The rows stand in the order of their sources.
proof fn lemma_rows_in_order(e: EngineView, s: Search)
    ensures
        rows_in_order(e, s, found_rows(e, s)),
{
    let rows = found_rows(e, s);
    let all = found(e, s);
    let mixed = plainly_found(e, s);
    let num = e.config.num_candidates as int;
    let stands_in = candidate_laws::reading_stands_in(
        e,
        s.reading,
        s.base,
        s.pending,
        num,
        s.learning,
        s.exact_only,
    );
    assert forall|k: int| stands_in && 0 <= k < rows.len() implies (#[trigger] rows[k]).source
        != Some(CandidateSource::Learning) && rows[k].source != Some(
        CandidateSource::UserDictionary,
    ) && rows[k].source != Some(CandidateSource::Model) by {
        lemma_where_from(e, s, k);
        if exists|m: int| came_from(e, s, k, m) {
            let m = choose|m: int| came_from(e, s, k, m);
            candidate_laws::lemma_mixed_sources(
                e,
                s.reading,
                s.base,
                s.pending,
                num,
                s.learning,
                s.exact_only,
                m,
            );
        }
    }
    assert forall|i: int, j: int|
        #![trigger rows[i], rows[j]]
        0 <= i < j < rows.len() && rows[i].source is Some && rows[j].source is Some
            && rows[i].source != Some(CandidateSource::Date) && rows[j].source != Some(
            CandidateSource::Date,
        ) implies source_rank(rows[i].source->0) <= source_rank(rows[j].source->0) || {
        &&& rows[i].source == Some(CandidateSource::Fallback)
        &&& rows[j].source == Some(CandidateSource::Dictionary)
        &&& row_has_text(e, rows[i], s.reading)
        &&& stands_in
    } by {
        lemma_order_kept(e, s, i, j);
        let (p, q) = choose|p: int, q: int|
            p < q && #[trigger] came_from(e, s, i, p) && #[trigger] came_from(e, s, j, q);
        candidate_laws::lemma_mixed_sources(
            e,
            s.reading,
            s.base,
            s.pending,
            num,
            s.learning,
            s.exact_only,
            p,
        );
        candidate_laws::lemma_mixed_sources(
            e,
            s.reading,
            s.base,
            s.pending,
            num,
            s.learning,
            s.exact_only,
            q,
        );
        assert(rows[i].source == Some(mixed[p].source));
        assert(rows[j].source == Some(mixed[q].source));
        lemma_stages_grow(e, s);
    }
}

/// The dates stand where they do.
proof fn lemma_dates_in_place(e: EngineView, s: Search)
    ensures
        dates_in_place(found_rows(e, s)),
{
    let rows = found_rows(e, s);
    let all = found(e, s);
    let mixed = plainly_found(e, s);
    let described = lookup::all_described(mixed, e.outside);
    let num = e.config.num_candidates as int;
    let at = candidate::date_position(described);
    let n = all.len() - described.len();
    text::lemma_find_first(described, candidate::from_model());
    assert forall|k: int| 0 <= k < described.len() implies (#[trigger] described[k]).source
        != CandidateSource::Date by {
        candidate_laws::lemma_mixed_sources(
            e,
            s.reading,
            s.base,
            s.pending,
            num,
            s.learning,
            s.exact_only,
            k,
        );
    }
    assert forall|k: int| 0 <= k < rows.len() implies {
        &&& k < at ==> (#[trigger] rows[k]).source == Some(described[k].source)
        &&& at <= k < at + n ==> rows[k].source == Some(CandidateSource::Date)
        &&& at + n <= k ==> rows[k].source == Some(described[k - n].source)
    } by {
        if k < at {
            assert(all[k] == described[k]);
        } else if k >= at + n {
            assert(all[k] == described[k - n]);
        }
    }
    assert forall|i: int|
        0 <= i < rows.len() && (#[trigger] rows[i]).source == Some(
            CandidateSource::Date,
        ) implies date_in_place(rows, i) by {
        assert forall|k: int| 0 <= k < at - 1 implies (#[trigger] rows[k]).source != Some(
            CandidateSource::Model,
        ) by {
            assert(!candidate::from_model()(described[k]));
        }
        match text::find_first(described, candidate::from_model()) {
            Some(j) => {
                assert(candidate::from_model()(described[j]));
                assert(rows[at - 1].source == Some(CandidateSource::Model));
            },
            None => {
                assert forall|k: int| 0 <= k < rows.len() implies (#[trigger] rows[k]).source
                    != Some(CandidateSource::Model) by {
                    if k < at {
                        assert(!candidate::from_model()(described[k]));
                    } else if k >= at + n {
                        assert(!candidate::from_model()(described[k - n]));
                    }
                }
            },
        }
        assert(date_follows(rows, i, at - 1));
    }
}

/// Each stage of the list holds the stage before.
proof fn lemma_stages_grow(e: EngineView, s: Search)
    ensures
        ({
            let num = e.config.num_candidates as int;
            let learned = e.learned_part(s.reading, s.learning, s.exact_only);
            let top = e.mixed_top(s.reading, s.base, s.pending, s.learning, s.exact_only);
            let model = e.mixed_to_model(
                s.reading,
                s.base,
                s.pending,
                num,
                s.learning,
                s.exact_only,
            );
            let system = e.mixed_to_system(
                s.reading,
                s.base,
                s.pending,
                num,
                s.learning,
                s.exact_only,
            );
            let kana = e.mixed_to_kana(
                s.reading,
                s.base,
                s.pending,
                num,
                s.learning,
                s.exact_only,
            );
            learned.len() <= top.len() <= model.len() <= system.len() <= kana.len()
        }),
{
    candidate_laws::lemma_mixed_stages(
        e,
        s.reading,
        s.base,
        s.pending,
        e.config.num_candidates as int,
        s.learning,
        s.exact_only,
    );
}

/// The list of a search shows what the sources have, all of it and nothing else,
/// in the order of the sources. The dictionaries are no larger than a list can
/// be.
pub proof fn law_rows_fit(e: EngineView, s: Search)
    requires
        s.pending.len() == 0 ==> s.base == s.reading,
        2 * (suggestion_laws::entries(e.user).len() + suggestion_laws::entries(e.system).len()) <= usize::MAX,
    ensures
        rows_fit(e, s, e.conversion_list(found(e, s), s.reading).candidates),
        e.conversion_list(found(e, s), s.reading).cursor == 0,
{
    let rows = found_rows(e, s);
    assert forall|i: int| 0 <= i < rows.len() implies row_is_sourced(e, s, #[trigger] rows[i]) by {
        lemma_rows_sourced(e, s, i);
    }
    lemma_rows_have_all(e, s);
    lemma_rows_in_order(e, s);
    lemma_dates_in_place(e, s);
}

/// A reading is asked of the model where nothing was answered for it, split as it
/// is, and asked once: what was asked before is asked still, in its order, and
/// nothing else changes.
pub proof fn law_model_is_asked_once(e: EngineView, reading: Seq<char>)
    ensures
        ({
            let next = e.asked(reading);
            let answered = exists|at: int| is_answer(e.outside, reading, e.chunk_breaks, at);
            &&& answered || e.requested.contains(reading) ==> next == e
            &&& !answered && !e.requested.contains(reading) ==> next.requested
                == e.requested.push(reading)
            &&& next == (EngineView { requested: next.requested, ..e })
        }),
{
    let breaks = e.chunk_breaks;
    law_answers_are_found(e.outside, reading, breaks);
    text::lemma_find_first(e.outside.readings, outside::answers(reading, breaks));
    if let Some(i) = text::find_first(e.outside.readings, outside::answers(reading, breaks)) {
        assert forall|k: int| 0 <= k < i implies (#[trigger] e.outside.readings[k]).reading
            != reading || e.outside.readings[k].chunk_breaks != breaks by {
            assert(!outside::answers(reading, breaks)(e.outside.readings[k]));
        }
        assert(is_answer(e.outside, reading, breaks, i));
    }
}

} // verus!
