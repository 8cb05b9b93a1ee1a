//! What holds of candidate lists as a whole.

use vstd::prelude::*;

use crate::candidate;
use crate::candidate::{AnnotatedView, CandidateSource};
use crate::engine::EngineView;
use crate::kana;
use crate::lexicon;
use crate::lexicon::EntryView;
use crate::lookup;
use crate::outside::RewriteView;
use crate::state::{InputMode, LearningLookup};
use crate::text;

verus! {

/// Descriptions and dates take no text away.
pub proof fn lemma_dressing_keeps_text(
    e: EngineView,
    reading: Seq<char>,
    candidates: Seq<AnnotatedView>,
    text: Seq<char>,
)
    requires
        candidate::has_text(candidates, text),
    ensures
        candidate::has_text(
            e.dated(reading, lookup::all_described(candidates, e.outside)),
            text,
        ),
{
    let described = lookup::all_described(candidates, e.outside);
    let i = choose|i: int| 0 <= i < candidates.len() && (#[trigger] candidates[i]).text == text;
    assert(described[i].text == text);
    if e.config.converts_dates() {
        let at = candidate::date_position(described);
        text::lemma_find_first(described, candidate::from_model());
        let dates = lookup::all_rewritten(
            e.outside.dates(reading).filter(lookup::new_to(described)),
            CandidateSource::Date,
        );
        let all = lookup::with_dates(described, e.outside.dates(reading));
        if i < at {
            assert(all[i] == described[i]);
        } else {
            assert(all[i + dates.len()] == described[i]);
        }
    }
}

/// Items of which no two have the same key.
pub open spec fn distinct_by<A>(items: Seq<A>, key: spec_fn(A) -> Seq<char>) -> bool {
    forall|i: int, j: int|
        0 <= i < j < items.len() ==> key(#[trigger] items[i]) != key(#[trigger] items[j])
}

/// Leaving items out brings in no key twice.
proof fn lemma_filter_distinct<A>(
    items: Seq<A>,
    p: spec_fn(A) -> bool,
    key: spec_fn(A) -> Seq<char>,
)
    requires
        distinct_by(items, key),
    ensures
        distinct_by(items.filter(p), key),
    decreases items.len(),
{
    reveal(Seq::filter);
    if items.len() > 0 {
        let init = items.drop_last();
        assert(distinct_by(init, key)) by {
            assert forall|i: int, j: int| 0 <= i < j < init.len() implies key(
                #[trigger] init[i],
            ) != key(#[trigger] init[j]) by {
                assert(init[i] == items[i] && init[j] == items[j]);
            }
        }
        lemma_filter_distinct(init, p, key);
        let kept = init.filter(p);
        let all = items.filter(p);
        if p(items.last()) {
            assert forall|i: int, j: int| 0 <= i < j < all.len() implies key(#[trigger] all[i])
                != key(#[trigger] all[j]) by {
                if j == kept.len() {
                    assert(kept[i] == all[i]);
                    assert(kept.contains(kept[i]));
                    text::lemma_filter_contains(init, p, kept[i]);
                    let k = choose|k: int| 0 <= k < init.len() && init[k] == kept[i];
                    assert(items[k] == all[i]);
                    assert(items[items.len() - 1] == all[j]);
                } else {
                    assert(kept[i] == all[i] && kept[j] == all[j]);
                }
            }
        }
    }
}

/// Adding only new texts up to a number keeps what is there, in place, brings
/// in no text twice, and adds only what is offered.
pub proof fn lemma_add_up_to(
    candidates: Seq<AnnotatedView>,
    more: Seq<AnnotatedView>,
    most: int,
)
    ensures
        ({
            let all = candidate::add_new_up_to(candidates, more, most);
            &&& candidates.is_prefix_of(all)
            &&& candidate::distinct_texts(candidates) ==> candidate::distinct_texts(all)
            &&& all.len() <= most || all.len() == candidates.len()
            &&& forall|k: int|
                candidates.len() <= k < all.len() ==> more.contains(#[trigger] all[k])
        }),
{
    candidate::lemma_add_all_new(candidates, more);
    let whole = candidate::add_all_new(candidates, more);
    let all = candidate::add_new_up_to(candidates, more, most);
    assert forall|k: int| 0 <= k < all.len() implies #[trigger] all[k] == whole[k] by {}
    assert(candidates =~= all.subrange(0, candidates.len() as int)) by {
        assert(candidates =~= whole.subrange(0, candidates.len() as int));
    }
    if candidate::distinct_texts(candidates) {
        assert forall|i: int, j: int| 0 <= i < j < all.len() implies (#[trigger] all[i]).text != (
        #[trigger] all[j]).text by {
            assert(all[i] == whole[i] && all[j] == whole[j]);
        }
    }
    assert forall|k: int| candidates.len() <= k < all.len() implies more.contains(
        #[trigger] all[k],
    ) by {
        assert(all[k] == whole[k]);
    }
}

/// A word of a dictionary search: an exact one has no reading of its own, and a
/// predicted one has a reading that goes on from the typed one as the romaji
/// tail lets it.
pub open spec fn is_word_for(one: AnnotatedView, reading: Seq<char>, pending: Seq<char>) -> bool {
    &&& one.source == CandidateSource::UserDictionary || one.source == CandidateSource::Dictionary
    &&& match one.reading {
        Some(own) => lexicon::continues(reading, lookup::tail_of(pending))(
            EntryView { reading: own, surface: one.text },
        ),
        None => pending.len() == 0,
    }
}

/// The exact words of a dictionary are words for the reading.
proof fn lemma_exact_words(
    entries: Seq<EntryView>,
    source: CandidateSource,
    reading: Seq<char>,
    one: AnnotatedView,
)
    requires
        lookup::exact_words(entries, source, reading).contains(one),
    ensures
        one.source == source,
        one.reading is None,
{
}

/// The predicted words of a dictionary are words for the reading.
proof fn lemma_predicted_words(
    entries: Seq<EntryView>,
    source: CandidateSource,
    reading: Seq<char>,
    pending: Seq<char>,
    budget: int,
    one: AnnotatedView,
)
    requires
        lookup::predicted_words(
            entries,
            source,
            reading,
            lookup::tail_of(pending),
            budget,
        ).contains(one),
        budget >= 0,
    ensures
        one.source == source,
        one.reading is Some,
        lexicon::continues(reading, lookup::tail_of(pending))(
            EntryView { reading: one.reading->0, surface: one.text },
        ),
{
    let p = lexicon::continues(reading, lookup::tail_of(pending));
    let found = entries.filter(p);
    let words = lookup::predicted_words(entries, source, reading, lookup::tail_of(pending), budget);
    let i = choose|i: int| 0 <= i < words.len() && words[i] == one;
    let entry = found[i];
    assert(found.contains(entry));
    text::lemma_filter_contains(entries, p, entry);
    assert(EntryView { reading: one.reading->0, surface: one.text } =~= entry);
}

/// A dictionary search gives each text once and no more than the limit; every
/// word fits the reading and the romaji tail, and no more words than the
/// predictive limit are predicted, all of them after the exact ones.
pub proof fn law_dictionary_search(
    user: Seq<EntryView>,
    system: Seq<EntryView>,
    reading: Seq<char>,
    pending: Seq<char>,
    limit: int,
    predictive_limit: int,
    min_prefix_chars: int,
)
    requires
        limit >= 0,
        predictive_limit >= 0,
    ensures
        ({
            let words = lookup::dictionary_words(
                user,
                system,
                reading,
                pending,
                limit,
                predictive_limit,
                min_prefix_chars,
            );
            let exact = lookup::exact_part(user, system, reading, pending, limit);
            &&& candidate::distinct_texts(words)
            &&& words.len() <= limit
            &&& forall|i: int|
                0 <= i < words.len() ==> is_word_for(#[trigger] words[i], reading, pending)
            &&& exact.is_prefix_of(words)
            &&& forall|i: int| 0 <= i < exact.len() ==> (#[trigger] words[i]).reading is None
            &&& forall|i: int|
                exact.len() <= i < words.len() ==> (#[trigger] words[i]).reading is Some
            &&& words.len() <= exact.len() + predictive_limit
        }),
{
    let none = Seq::<AnnotatedView>::empty();
    let mine = lookup::exact_words(user, CandidateSource::UserDictionary, reading);
    let theirs = lookup::exact_words(system, CandidateSource::Dictionary, reading);
    let first = candidate::add_new_up_to(none, mine, limit);
    let exact = lookup::exact_part(user, system, reading, pending, limit);
    if pending.len() == 0 {
        lemma_add_up_to(none, mine, limit);
        lemma_add_up_to(first, theirs, limit);
        assert forall|i: int| 0 <= i < exact.len() implies is_word_for(
            #[trigger] exact[i],
            reading,
            pending,
        ) && exact[i].reading is None by {
            if i < first.len() {
                assert(exact[i] == first[i]);
                assert(mine.contains(first[i]));
                lemma_exact_words(user, CandidateSource::UserDictionary, reading, exact[i]);
            } else {
                lemma_exact_words(system, CandidateSource::Dictionary, reading, exact[i]);
            }
        }
    }
    let tail = lookup::tail_of(pending);
    if reading.len() >= min_prefix_chars && !(tail is Dead) {
        let ours = lookup::predicted_words(
            user,
            CandidateSource::UserDictionary,
            reading,
            tail,
            predictive_limit,
        );
        let grown = lookup::with_predicted(
            exact,
            user,
            CandidateSource::UserDictionary,
            reading,
            tail,
            limit,
            predictive_limit,
        );
        let budget = predictive_limit - (grown.len() - exact.len());
        let others = lookup::predicted_words(
            system,
            CandidateSource::Dictionary,
            reading,
            tail,
            budget,
        );
        let words = lookup::with_predicted(
            grown,
            system,
            CandidateSource::Dictionary,
            reading,
            tail,
            limit,
            budget,
        );
        lemma_add_up_to(exact, ours, lookup::smaller(limit, exact.len() + predictive_limit));
        lemma_add_up_to(grown, others, lookup::smaller(limit, grown.len() + budget));
        assert forall|i: int| 0 <= i < words.len() implies is_word_for(
            #[trigger] words[i],
            reading,
            pending,
        ) && (words[i].reading is None <==> i < exact.len()) by {
            if i < exact.len() {
                assert(grown[i] == words[i] && exact[i] == grown[i]);
            } else if i < grown.len() {
                assert(words[i] == grown[i]);
                assert(ours.contains(grown[i]));
                lemma_predicted_words(
                    user,
                    CandidateSource::UserDictionary,
                    reading,
                    pending,
                    predictive_limit,
                    words[i],
                );
            } else {
                lemma_predicted_words(
                    system,
                    CandidateSource::Dictionary,
                    reading,
                    pending,
                    budget,
                    words[i],
                );
            }
        }
        assert(exact =~= words.subrange(0, exact.len() as int)) by {
            assert(exact =~= grown.subrange(0, exact.len() as int));
            assert(grown =~= words.subrange(0, grown.len() as int));
        }
    } else {
        assert(exact =~= exact.subrange(0, exact.len() as int));
    }
}

/// A lookup in the learning history gives each text once, and no more than
/// asked for.
pub proof fn law_history_lookup(
    history: Seq<EntryView>,
    reading: Seq<char>,
    pending: Seq<char>,
    max: int,
)
    requires
        max >= 0,
    ensures
        candidate::distinct_texts(lookup::learned_words(history, reading, pending, max)),
        lookup::learned_words(history, reading, pending, max).len() <= max,
{
    let exact = if pending.len() > 0 {
        Seq::empty()
    } else {
        history.filter(lexicon::reads(reading))
    };
    let longer = history.filter(lexicon::continues(reading, lookup::tail_of(pending)));
    lemma_add_up_to(
        Seq::empty(),
        lookup::words_of(exact + longer, CandidateSource::Learning),
        max,
    );
}

/// A learned word comes from an entry of the history whose reading begins with
/// the reading that was looked up.
pub proof fn lemma_learned_word_entry(
    history: Seq<EntryView>,
    reading: Seq<char>,
    pending: Seq<char>,
    max: int,
    i: int,
) -> (entry: EntryView)
    requires
        max >= 0,
        0 <= i < lookup::learned_words(history, reading, pending, max).len(),
    ensures
        history.contains(entry),
        reading.is_prefix_of(entry.reading),
        entry.surface == lookup::learned_words(history, reading, pending, max)[i].text,
{
    let tail = lookup::tail_of(pending);
    let exact = if pending.len() > 0 {
        Seq::empty()
    } else {
        history.filter(lexicon::reads(reading))
    };
    let longer = history.filter(lexicon::continues(reading, tail));
    let offered = lookup::words_of(exact + longer, CandidateSource::Learning);
    let words = lookup::learned_words(history, reading, pending, max);
    lemma_add_up_to(Seq::empty(), offered, max);
    assert(offered.contains(words[i]));
    let k = choose|k: int| 0 <= k < offered.len() && offered[k] == words[i];
    let entry = (exact + longer)[k];
    if k < exact.len() {
        assert(exact.contains(entry));
        text::lemma_filter_contains(history, lexicon::reads(reading), entry);
        assert(reading =~= entry.reading.subrange(0, reading.len() as int));
    } else {
        assert(longer[k - exact.len()] == entry);
        assert(longer.contains(entry));
        text::lemma_filter_contains(history, lexicon::continues(reading, tail), entry);
    }
    entry
}

/// What was removed from the learning history for a reading is not suggested
/// for that reading any more.
pub proof fn law_removed_is_not_suggested(
    history: Seq<EntryView>,
    reading: Seq<char>,
    surface: Seq<char>,
    pending: Seq<char>,
    max: int,
)
    requires
        max >= 0,
    ensures
        !candidate::has_text(
            lookup::learned_words(
                history.filter(lexicon::not_suggests(reading, surface)),
                reading,
                pending,
                max,
            ),
            surface,
        ),
{
    let left = history.filter(lexicon::not_suggests(reading, surface));
    let words = lookup::learned_words(left, reading, pending, max);
    assert forall|i: int| 0 <= i < words.len() implies (#[trigger] words[i]).text != surface by {
        let entry = lemma_learned_word_entry(left, reading, pending, max, i);
        lexicon::law_removed_is_gone(history, reading, surface, entry);
        if entry.surface == surface {
            assert(lexicon::suggests(reading, surface)(entry));
        }
    }
}

/// The place of a source in the mixed list.
pub open spec fn rank(source: CandidateSource) -> int {
    match source {
        CandidateSource::Learning => 0,
        CandidateSource::UserDictionary => 1,
        CandidateSource::Model => 2,
        CandidateSource::Dictionary => 3,
        CandidateSource::Fallback => 4,
        CandidateSource::Rewriter => 5,
        CandidateSource::Date => 6,
    }
}

/// Candidates in the order of their sources.
pub open spec fn ranked(candidates: Seq<AnnotatedView>) -> bool {
    forall|i: int, j: int|
        0 <= i < j < candidates.len() ==> rank((#[trigger] candidates[i]).source) <= rank(
            (#[trigger] candidates[j]).source,
        )
}

/// A text at the head of candidates is among the candidates.
pub proof fn lemma_head_text(candidates: Seq<AnnotatedView>, to: int, text: Seq<char>)
    requires
        0 <= to <= candidates.len(),
        candidate::has_text(candidates.take(to), text),
    ensures
        candidate::has_text(candidates, text),
{
    let head = candidates.take(to);
    let i = choose|i: int| 0 <= i < head.len() && (#[trigger] head[i]).text == text;
    assert(candidates[i] == head[i]);
}

/// Except in emoji mode, the reading is always among the candidates, in
/// hiragana and in katakana.
pub proof fn law_reading_is_offered(
    e: EngineView,
    reading: Seq<char>,
    base: Seq<char>,
    pending: Seq<char>,
    num: int,
    learning: LearningLookup,
    exact_only: bool,
)
    requires
        e.mode != InputMode::Emoji,
    ensures
        candidate::has_text(
            e.conversion_candidates(reading, base, pending, num, learning, exact_only),
            reading,
        ),
        candidate::has_text(
            e.conversion_candidates(reading, base, pending, num, learning, exact_only),
            kana::katakana_text(reading),
        ),
{
    let mixed = e.mixed(reading, base, pending, num, learning, exact_only);
    let kana = e.kana_part(reading);
    lemma_mixed_stages(e, reading, base, pending, num, learning, exact_only);
    assert(kana[0].text == reading);
    assert(kana[1].text == kana::katakana_text(reading));
    let to = e.mixed_to_kana(reading, base, pending, num, learning, exact_only).len() as int;
    lemma_head_text(mixed, to, reading);
    lemma_head_text(mixed, to, kana::katakana_text(reading));
    lemma_dressing_keeps_text(e, reading, mixed, reading);
    lemma_dressing_keeps_text(e, reading, mixed, kana::katakana_text(reading));
}

/// What a source offers for the mixed list.
pub open spec fn offered_by(
    e: EngineView,
    reading: Seq<char>,
    base: Seq<char>,
    pending: Seq<char>,
    num: int,
    learning: LearningLookup,
    exact_only: bool,
    source: CandidateSource,
) -> Seq<AnnotatedView> {
    match source {
        CandidateSource::Learning => e.learned_part(reading, learning, exact_only),
        CandidateSource::UserDictionary => e.user_part(base, pending, exact_only),
        CandidateSource::Model => lookup::all_plain(
            e.model_texts(reading, num),
            CandidateSource::Model,
        ),
        CandidateSource::Dictionary => e.system_part(base, pending, exact_only),
        CandidateSource::Fallback => e.kana_part(reading),
        CandidateSource::Rewriter => e.rewriter_part(reading),
        CandidateSource::Date => Seq::empty(),
    }
}

/// Where neither the history nor the user dictionary nor the model offers
/// anything, the reading takes the place of the model, except in emoji mode.
pub open spec fn reading_stands_in(
    e: EngineView,
    reading: Seq<char>,
    base: Seq<char>,
    pending: Seq<char>,
    num: int,
    learning: LearningLookup,
    exact_only: bool,
) -> bool {
    &&& e.learned_part(reading, learning, exact_only).len() == 0
    &&& e.user_part(base, pending, exact_only).len() == 0
    &&& e.model_texts(reading, num).len() == 0
    &&& e.mode != InputMode::Emoji
}

/// The words of each dictionary in the mixed list are of that dictionary.
pub proof fn lemma_dictionary_parts(
    e: EngineView,
    base: Seq<char>,
    pending: Seq<char>,
    exact_only: bool,
)
    ensures
        forall|i: int|
            0 <= i < e.user_part(base, pending, exact_only).len() ==> (#[trigger] e.user_part(
                base,
                pending,
                exact_only,
            )[i]).source == CandidateSource::UserDictionary,
        forall|i: int|
            0 <= i < e.system_part(base, pending, exact_only).len() ==> (#[trigger] e.system_part(
                base,
                pending,
                exact_only,
            )[i]).source == CandidateSource::Dictionary,
        exact_only ==> forall|i: int|
            0 <= i < e.user_part(base, pending, exact_only).len() ==> (#[trigger] e.user_part(
                base,
                pending,
                exact_only,
            )[i]).reading is None,
        exact_only ==> forall|i: int|
            0 <= i < e.system_part(base, pending, exact_only).len() ==> (#[trigger] e.system_part(
                base,
                pending,
                exact_only,
            )[i]).reading is None,
{
    law_dictionary_search(
        lookup::searched(e.user, CandidateSource::UserDictionary, None),
        lookup::searched(e.system, CandidateSource::Dictionary, None),
        base,
        pending,
        usize::MAX as int,
        if exact_only {
            0
        } else {
            usize::MAX as int
        },
        lookup::MIN_PREDICTIVE_PREFIX_CHARS as int,
    );
    let words = e.mixed_words(base, pending, exact_only);
    let mine = e.user_part(base, pending, exact_only);
    let theirs = e.system_part(base, pending, exact_only);
    assert forall|i: int| 0 <= i < mine.len() implies (#[trigger] mine[i]).source
        == CandidateSource::UserDictionary && (exact_only ==> mine[i].reading is None) by {
        assert(mine.contains(mine[i]));
        text::lemma_filter_contains(words, lookup::of_user(), mine[i]);
        let k = choose|k: int| 0 <= k < words.len() && words[k] == mine[i];
        assert(is_word_for(words[k], base, pending));
    }
    assert forall|i: int| 0 <= i < theirs.len() implies (#[trigger] theirs[i]).source
        == CandidateSource::Dictionary && (exact_only ==> theirs[i].reading is None) by {
        assert(theirs.contains(theirs[i]));
        text::lemma_filter_contains(words, lookup::not_of_user(), theirs[i]);
        let k = choose|k: int| 0 <= k < words.len() && words[k] == theirs[i];
        assert(is_word_for(words[k], base, pending));
    }
}

/// Whether the candidates of `all` between two places are those of `more` that
/// are new there, and every text of `more` is in `all` by then.
pub open spec fn adds(
    all: Seq<AnnotatedView>,
    from: int,
    more: Seq<AnnotatedView>,
    to: int,
) -> bool {
    &&& 0 <= from <= to <= all.len()
    &&& forall|i: int| from <= i < to ==> more.contains(#[trigger] all[i])
    &&& forall|j: int, k: int|
        0 <= j < k && from <= k < to ==> (#[trigger] all[j]).text != (#[trigger] all[k]).text
    &&& forall|i: int|
        0 <= i < more.len() ==> candidate::has_text(all.take(to), (#[trigger] more[i]).text)
}

/// A source adds its candidates to those of the sources before it.
proof fn lemma_adds(
    before: Seq<AnnotatedView>,
    more: Seq<AnnotatedView>,
    all: Seq<AnnotatedView>,
)
    requires
        candidate::add_all_new(before, more) == all.take(
            candidate::add_all_new(before, more).len() as int,
        ),
        candidate::add_all_new(before, more).len() <= all.len(),
    ensures
        before == all.take(before.len() as int),
        adds(
            all,
            before.len() as int,
            more,
            candidate::add_all_new(before, more).len() as int,
        ),
{
    candidate::lemma_add_all_new(before, more);
    let grown = candidate::add_all_new(before, more);
    assert(before =~= all.take(before.len() as int)) by {
        assert(before =~= grown.take(before.len() as int));
    }
    assert forall|i: int| before.len() <= i < grown.len() implies more.contains(
        #[trigger] all[i],
    ) by {
        assert(grown[i] == all[i]);
    }
    assert forall|j: int, k: int|
        0 <= j < k && before.len() <= k < grown.len() implies (#[trigger] all[j]).text != (
    #[trigger] all[k]).text by {
        assert(grown[j] == all[j] && grown[k] == all[k]);
    }
}

/// How the mixed list is made up: each source adds its candidates after those of
/// the sources before it.
pub proof fn lemma_mixed_stages(
    e: EngineView,
    reading: Seq<char>,
    base: Seq<char>,
    pending: Seq<char>,
    num: int,
    learning: LearningLookup,
    exact_only: bool,
)
    ensures
        ({
            let learned = e.learned_part(reading, learning, exact_only);
            let top = e.mixed_top(reading, base, pending, learning, exact_only);
            let to_model = e.mixed_to_model(reading, base, pending, num, learning, exact_only);
            let to_system = e.mixed_to_system(reading, base, pending, num, learning, exact_only);
            let to_kana = e.mixed_to_kana(reading, base, pending, num, learning, exact_only);
            let mixed = e.mixed(reading, base, pending, num, learning, exact_only);
            let a = learned.len() as int;
            let b = top.len() as int;
            let c = to_model.len() as int;
            let d = to_system.len() as int;
            let k = to_kana.len() as int;
            &&& learned == mixed.take(a)
            &&& adds(mixed, a, e.user_part(base, pending, exact_only), b)
            &&& adds(mixed, b, e.model_part(reading, num, top.len() == 0), c)
            &&& adds(mixed, c, e.system_part(base, pending, exact_only), d)
            &&& adds(mixed, d, e.kana_part(reading), k)
            &&& adds(mixed, k, e.rewriter_part(reading), mixed.len() as int)
        }),
{
    let top = e.mixed_top(reading, base, pending, learning, exact_only);
    let mixed = e.mixed(reading, base, pending, num, learning, exact_only);
    assert(mixed =~= mixed.take(mixed.len() as int));
    lemma_adds(
        e.mixed_to_kana(reading, base, pending, num, learning, exact_only),
        e.rewriter_part(reading),
        mixed,
    );
    lemma_adds(
        e.mixed_to_system(reading, base, pending, num, learning, exact_only),
        e.kana_part(reading),
        mixed,
    );
    lemma_adds(
        e.mixed_to_model(reading, base, pending, num, learning, exact_only),
        e.system_part(base, pending, exact_only),
        mixed,
    );
    lemma_adds(top, e.model_part(reading, num, top.len() == 0), mixed);
    lemma_adds(
        e.learned_part(reading, learning, exact_only),
        e.user_part(base, pending, exact_only),
        mixed,
    );
}

/// Two candidates of the mixed list have the same text only in the learned part.
proof fn lemma_mixed_new(
    e: EngineView,
    reading: Seq<char>,
    base: Seq<char>,
    pending: Seq<char>,
    num: int,
    learning: LearningLookup,
    exact_only: bool,
)
    ensures
        ({
            let mixed = e.mixed(reading, base, pending, num, learning, exact_only);
            forall|i: int, j: int|
                0 <= i < j < mixed.len() && e.learned_part(reading, learning, exact_only).len() <= j
                    ==> (#[trigger] mixed[i]).text != (#[trigger] mixed[j]).text
        }),
{
    lemma_mixed_stages(e, reading, base, pending, num, learning, exact_only);
}

/// The source of each candidate of the mixed list, by where it stands: it is
/// one that offers the candidate. Only the reading that takes the place of the
/// model comes before its rank.
pub proof fn lemma_mixed_sources(
    e: EngineView,
    reading: Seq<char>,
    base: Seq<char>,
    pending: Seq<char>,
    num: int,
    learning: LearningLookup,
    exact_only: bool,
    i: int,
)
    requires
        0 <= i < e.mixed(reading, base, pending, num, learning, exact_only).len(),
    ensures
        ({
            let learned = e.learned_part(reading, learning, exact_only);
            let top = e.mixed_top(reading, base, pending, learning, exact_only);
            let to_model = e.mixed_to_model(reading, base, pending, num, learning, exact_only);
            let to_system = e.mixed_to_system(reading, base, pending, num, learning, exact_only);
            let to_kana = e.mixed_to_kana(reading, base, pending, num, learning, exact_only);
            let one = e.mixed(reading, base, pending, num, learning, exact_only)[i];
            let stands_in = reading_stands_in(
                e,
                reading,
                base,
                pending,
                num,
                learning,
                exact_only,
            );
            &&& offered_by(
                e,
                reading,
                base,
                pending,
                num,
                learning,
                exact_only,
                one.source,
            ).contains(one)
            &&& stands_in ==> top.len() == 0
            &&& i < learned.len() ==> rank(one.source) == 0
            &&& learned.len() <= i < top.len() ==> rank(one.source) == 1
            &&& top.len() <= i < to_model.len() ==> if stands_in {
                rank(one.source) == 4 && one.text == reading
            } else {
                rank(one.source) == 2
            }
            &&& to_model.len() <= i < to_system.len() ==> rank(one.source) == 3
            &&& to_system.len() <= i < to_kana.len() ==> rank(one.source) == 4
            &&& to_kana.len() <= i ==> rank(one.source) == 5
        }),
{
    lemma_mixed_stages(e, reading, base, pending, num, learning, exact_only);
    lemma_dictionary_parts(e, base, pending, exact_only);
    let learned = e.learned_part(reading, learning, exact_only);
    let mine = e.user_part(base, pending, exact_only);
    let top = e.mixed_top(reading, base, pending, learning, exact_only);
    let mixed = e.mixed(reading, base, pending, num, learning, exact_only);
    assert(top.len() == 0 <==> learned.len() == 0 && mine.len() == 0) by {
        if mine.len() > 0 {
            assert(candidate::has_text(mixed.take(top.len() as int), mine[0].text));
        }
        if top.len() > learned.len() {
            assert(mine.contains(mixed[learned.len() as int]));
        }
    }
    let one = mixed[i];
    if i < learned.len() {
        assert(mixed.take(learned.len() as int)[i] == one);
    } else if top.len() <= i < e.mixed_to_model(
        reading,
        base,
        pending,
        num,
        learning,
        exact_only,
    ).len() && reading_stands_in(e, reading, base, pending, num, learning, exact_only) {
        assert(one == candidate::plain(reading, CandidateSource::Fallback));
        assert(e.kana_part(reading)[0] == one);
    }
}

/// The candidates come in the order of their sources: learning, user
/// dictionary, model, system dictionary, the reading itself, rewriters. Where the
/// reading takes the place of the model, it comes before other words of the
/// system dictionary.
pub proof fn law_priority_order(
    e: EngineView,
    reading: Seq<char>,
    base: Seq<char>,
    pending: Seq<char>,
    num: int,
    learning: LearningLookup,
    exact_only: bool,
)
    requires
        reading_stands_in(e, reading, base, pending, num, learning, exact_only) ==> forall|i: int|
            0 <= i < e.system_part(base, pending, exact_only).len() ==> (#[trigger] e.system_part(
                base,
                pending,
                exact_only,
            )[i]).text == reading,
    ensures
        ranked(e.mixed(reading, base, pending, num, learning, exact_only)),
{
    let mixed = e.mixed(reading, base, pending, num, learning, exact_only);
    let top = e.mixed_top(reading, base, pending, learning, exact_only);
    let to_model = e.mixed_to_model(reading, base, pending, num, learning, exact_only);
    let to_system = e.mixed_to_system(reading, base, pending, num, learning, exact_only);
    let theirs = e.system_part(base, pending, exact_only);
    let model = e.model_part(reading, num, top.len() == 0);
    lemma_mixed_stages(e, reading, base, pending, num, learning, exact_only);
    lemma_mixed_new(e, reading, base, pending, num, learning, exact_only);
    assert forall|i: int, j: int| 0 <= i < j < mixed.len() implies rank((#[trigger] mixed[i]).source)
        <= rank((#[trigger] mixed[j]).source) by {
        lemma_mixed_sources(e, reading, base, pending, num, learning, exact_only, i);
        lemma_mixed_sources(e, reading, base, pending, num, learning, exact_only, j);
        if reading_stands_in(e, reading, base, pending, num, learning, exact_only)
            && to_model.len() <= j < to_system.len() {
            assert(theirs.contains(mixed[j]));
            assert(mixed[j].text == reading);
            assert(model[0].text == reading);
            assert(candidate::has_text(mixed.take(to_model.len() as int), reading));
            let k = choose|k: int|
                0 <= k < to_model.len() && (#[trigger] mixed.take(to_model.len() as int)[k]).text
                    == reading;
            assert(mixed[k].text != mixed[j].text);
        }
    }
}

/// A text that is offered is in the list, and under the first source that offers
/// it: no candidate with that text is of a later source. Where the reading takes
/// the place of the model, it comes before the same text of the system
/// dictionary.
pub proof fn law_first_source_wins(
    e: EngineView,
    reading: Seq<char>,
    base: Seq<char>,
    pending: Seq<char>,
    num: int,
    learning: LearningLookup,
    exact_only: bool,
    source: CandidateSource,
    one: AnnotatedView,
)
    requires
        offered_by(e, reading, base, pending, num, learning, exact_only, source).contains(one),
        reading_stands_in(e, reading, base, pending, num, learning, exact_only) ==> forall|i: int|
            0 <= i < e.system_part(base, pending, exact_only).len() ==> (#[trigger] e.system_part(
                base,
                pending,
                exact_only,
            )[i]).text != reading,
    ensures
        ({
            let mixed = e.mixed(reading, base, pending, num, learning, exact_only);
            &&& candidate::has_text(mixed, one.text)
            &&& forall|i: int|
                0 <= i < mixed.len() && (#[trigger] mixed[i]).text == one.text ==> {
                    &&& rank(mixed[i].source) <= rank(source)
                    &&& offered_by(
                        e,
                        reading,
                        base,
                        pending,
                        num,
                        learning,
                        exact_only,
                        mixed[i].source,
                    ).contains(mixed[i])
                }
        }),
{
    let learned = e.learned_part(reading, learning, exact_only);
    let top = e.mixed_top(reading, base, pending, learning, exact_only);
    let to_model = e.mixed_to_model(reading, base, pending, num, learning, exact_only);
    let to_system = e.mixed_to_system(reading, base, pending, num, learning, exact_only);
    let to_kana = e.mixed_to_kana(reading, base, pending, num, learning, exact_only);
    let mixed = e.mixed(reading, base, pending, num, learning, exact_only);
    let offered = offered_by(e, reading, base, pending, num, learning, exact_only, source);
    lemma_mixed_stages(e, reading, base, pending, num, learning, exact_only);
    lemma_mixed_new(e, reading, base, pending, num, learning, exact_only);
    let o = choose|o: int| 0 <= o < offered.len() && offered[o] == one;
    let reach = match source {
        CandidateSource::Learning => learned.len(),
        CandidateSource::UserDictionary => top.len(),
        CandidateSource::Model => to_model.len(),
        CandidateSource::Dictionary => to_system.len(),
        CandidateSource::Fallback => to_kana.len(),
        _ => mixed.len(),
    };
    let head = mixed.take(reach as int);
    assert(candidate::has_text(head, one.text)) by {
        match source {
            CandidateSource::Learning => {
                assert(head[o] == mixed[o]);
            },
            CandidateSource::Rewriter => {
                assert(head =~= mixed);
            },
            _ => {
                assert(offered[o].text == one.text);
            },
        }
    }
    let at = choose|k: int| 0 <= k < head.len() && (#[trigger] head[k]).text == one.text;
    assert(mixed[at].text == one.text);
    assert forall|i: int| 0 <= i < mixed.len() && (#[trigger] mixed[i]).text == one.text implies {
        &&& rank(mixed[i].source) <= rank(source)
        &&& offered_by(
            e,
            reading,
            base,
            pending,
            num,
            learning,
            exact_only,
            mixed[i].source,
        ).contains(mixed[i])
    } by {
        lemma_mixed_sources(e, reading, base, pending, num, learning, exact_only, i);
        assert(i < reach || i < learned.len()) by {
            if at < i && learned.len() <= i {
                assert(mixed[at].text != mixed[i].text);
            }
        }
        if reading_stands_in(e, reading, base, pending, num, learning, exact_only) {
            if source == CandidateSource::Dictionary {
                assert(offered[o].text != reading);
            }
        }
    }
}

/// The text of a date.
spec fn output_text() -> spec_fn(RewriteView) -> Seq<char> {
    |output: RewriteView| output.text
}

/// No two candidates have the same text but dates, and no date repeats another
/// candidate; where no two dates are written alike, all texts are distinct. For
/// a part of the composition this takes a learning history that gives no word
/// twice for the reading, among those that are shown.
pub proof fn law_candidates_are_distinct(
    e: EngineView,
    reading: Seq<char>,
    base: Seq<char>,
    pending: Seq<char>,
    num: int,
    learning: LearningLookup,
    exact_only: bool,
)
    requires
        exact_only && learning == LearningLookup::Use && e.learning is Some
            ==> text::at_most(
            lexicon::surfaces_of(e.learning->0, reading),
            lookup::MAX_LEARNING_CANDIDATES as int,
        ).no_duplicates(),
    ensures
        ({
            let all = e.conversion_candidates(reading, base, pending, num, learning, exact_only);
            let dates = e.outside.dates(reading);
            &&& forall|i: int, j: int|
                0 <= i < j < all.len() && (#[trigger] all[i]).text == (#[trigger] all[j]).text ==> {
                    &&& all[i].source == CandidateSource::Date
                    &&& all[j].source == CandidateSource::Date
                }
            &&& (forall|i: int, j: int|
                0 <= i < j < dates.len() ==> (#[trigger] dates[i]).text != (
                #[trigger] dates[j]).text) ==> candidate::distinct_texts(all)
        }),
{
    let learned = e.learned_part(reading, learning, exact_only);
    lemma_learned_part_distinct(e, reading, learning, exact_only);
    lemma_mixed_stages(e, reading, base, pending, num, learning, exact_only);
    lemma_mixed_new(e, reading, base, pending, num, learning, exact_only);
    let mixed = e.mixed(reading, base, pending, num, learning, exact_only);
    let described = lookup::all_described(mixed, e.outside);
    assert forall|i: int, j: int| 0 <= i < j < described.len() implies (
    #[trigger] described[i]).text != (#[trigger] described[j]).text by {
        if j < learned.len() {
            assert(mixed.take(learned.len() as int)[i] == mixed[i]);
            assert(mixed.take(learned.len() as int)[j] == mixed[j]);
        } else {
            assert(mixed[i].text != mixed[j].text);
        }
    }
    if e.config.converts_dates() {
        lemma_dates_distinct(described, e.outside.dates(reading));
    }
}

/// Learned candidates are distinct.
proof fn lemma_learned_part_distinct(
    e: EngineView,
    reading: Seq<char>,
    learning: LearningLookup,
    exact_only: bool,
)
    requires
        exact_only && learning == LearningLookup::Use && e.learning is Some
            ==> text::at_most(
            lexicon::surfaces_of(e.learning->0, reading),
            lookup::MAX_LEARNING_CANDIDATES as int,
        ).no_duplicates(),
    ensures
        candidate::distinct_texts(e.learned_part(reading, learning, exact_only)),
{
    let learned = e.learned_part(reading, learning, exact_only);
    if learning == LearningLookup::Use && e.learning is Some {
        let history = e.learning->0;
        if exact_only {
            let surfaces = text::at_most(
                lexicon::surfaces_of(history, reading),
                lookup::MAX_LEARNING_CANDIDATES as int,
            );
            assert forall|i: int, j: int| 0 <= i < j < learned.len() implies (
            #[trigger] learned[i]).text != (#[trigger] learned[j]).text by {
                assert(learned[i].text == surfaces[i] && learned[j].text == surfaces[j]);
            }
        } else {
            let max = lookup::MAX_LEARNING_CANDIDATES as int;
            law_history_lookup(history, reading, Seq::empty(), max);
            let words = lookup::learned_words(history, reading, Seq::empty(), max);
            assert forall|i: int, j: int| 0 <= i < j < learned.len() implies (
            #[trigger] learned[i]).text != (#[trigger] learned[j]).text by {
                assert(words[i].text != words[j].text);
            }
        }
    }
}

/// Dates are inserted only if they are new.
proof fn lemma_dates_distinct(candidates: Seq<AnnotatedView>, dates: Seq<RewriteView>)
    requires
        candidate::distinct_texts(candidates),
    ensures
        ({
            let all = lookup::with_dates(candidates, dates);
            &&& forall|i: int, j: int|
                0 <= i < j < all.len() && (#[trigger] all[i]).text == (#[trigger] all[j]).text ==> {
                    &&& all[i].source == CandidateSource::Date
                    &&& all[j].source == CandidateSource::Date
                }
            &&& distinct_by(dates, output_text()) ==> candidate::distinct_texts(all)
        }),
{
    let at = candidate::date_position(candidates);
    text::lemma_find_first(candidates, candidate::from_model());
    let p = lookup::new_to(candidates);
    let fresh = dates.filter(p);
    let all = lookup::with_dates(candidates, dates);
    let n = fresh.len();
    assert forall|k: int| 0 <= k < n implies !candidate::has_text(
        candidates,
        (#[trigger] fresh[k]).text,
    ) by {
        assert(fresh.contains(fresh[k]));
        text::lemma_filter_contains(dates, p, fresh[k]);
    }
    assert forall|i: int, j: int|
        0 <= i < j < all.len() && !(at <= i < at + n && at <= j < at + n) implies (
    #[trigger] all[i]).text != (#[trigger] all[j]).text by {
        let from = |k: int|
            if k < at {
                k
            } else {
                k - n
            };
        if at <= i < at + n {
            assert(all[j] == candidates[from(j)]);
            assert(!candidate::has_text(candidates, fresh[i - at].text));
        } else if at <= j < at + n {
            assert(all[i] == candidates[from(i)]);
            assert(!candidate::has_text(candidates, fresh[j - at].text));
        } else {
            assert(all[i] == candidates[from(i)] && all[j] == candidates[from(j)]);
        }
    }
    if distinct_by(dates, output_text()) {
        lemma_filter_distinct(dates, p, output_text());
        assert forall|i: int, j: int| 0 <= i < j < all.len() implies (#[trigger] all[i]).text != (
        #[trigger] all[j]).text by {
            if at <= i < at + n && at <= j < at + n {
                assert(output_text()(fresh[i - at]) != output_text()(fresh[j - at]));
            }
        }
    }
}

/// Dates stand right after the first candidate of the model, or after the top
/// candidate where there is none of the model; all other candidates keep their
/// order.
pub proof fn law_dates_follow_the_model(candidates: Seq<AnnotatedView>, dates: Seq<RewriteView>)
    ensures
        ({
            let all = lookup::with_dates(candidates, dates);
            let at = candidate::date_position(candidates);
            let n = all.len() - candidates.len();
            &&& 0 <= at <= candidates.len()
            &&& 0 <= n <= dates.len()
            &&& all.take(at) + all.skip(at + n) == candidates
            &&& forall|k: int|
                at <= k < at + n ==> (#[trigger] all[k]).source == CandidateSource::Date
            &&& forall|k: int|
                0 <= k < candidates.len() && (#[trigger] candidates[k]).source
                    == CandidateSource::Model ==> at > 0 && all[at - 1].source
                    == CandidateSource::Model && at - 1 <= k
            &&& (forall|k: int|
                0 <= k < candidates.len() ==> (#[trigger] candidates[k]).source
                    != CandidateSource::Model) ==> at <= 1
        }),
{
    let all = lookup::with_dates(candidates, dates);
    let at = candidate::date_position(candidates);
    let n = all.len() - candidates.len();
    text::lemma_find_first(candidates, candidate::from_model());
    text::lemma_filter_len(dates, lookup::new_to(candidates));
    assert(all.take(at) + all.skip(at + n) =~= candidates);
    assert forall|k: int|
        0 <= k < candidates.len() && (#[trigger] candidates[k]).source
            == CandidateSource::Model implies at > 0 && all[at - 1].source
        == CandidateSource::Model && at - 1 <= k by {
        assert(candidate::from_model()(candidates[k]));
        assert(all[at - 1] == candidates[at - 1]);
    }
    if forall|k: int|
        0 <= k < candidates.len() ==> (#[trigger] candidates[k]).source != CandidateSource::Model {
        if let Some(i) = text::find_first(candidates, candidate::from_model()) {
            assert(candidate::from_model()(candidates[i]));
        }
    }
}

/// A search narrowed to one dictionary gives words of that dictionary alone.
pub proof fn law_narrowed_search(
    e: EngineView,
    reading: Seq<char>,
    pending: Seq<char>,
    limit: int,
    predictive_limit: int,
    min_prefix_chars: int,
    source: CandidateSource,
)
    requires
        limit >= 0,
        predictive_limit >= 0,
    ensures
        ({
            let words = e.dictionary_candidates(
                reading,
                pending,
                limit,
                predictive_limit,
                min_prefix_chars,
                Some(source),
            );
            forall|i: int| 0 <= i < words.len() ==> (#[trigger] words[i]).source == source
        }),
{
    let mine = CandidateSource::UserDictionary;
    let theirs = CandidateSource::Dictionary;
    let user = lookup::searched(e.user, mine, Some(source));
    let system = lookup::searched(e.system, theirs, Some(source));
    let words = e.dictionary_candidates(
        reading,
        pending,
        limit,
        predictive_limit,
        min_prefix_chars,
        Some(source),
    );
    assert forall|i: int| 0 <= i < words.len() implies (#[trigger] words[i]).source == source by {
        lemma_word_is_from_dictionary(
            user,
            system,
            reading,
            pending,
            limit,
            predictive_limit,
            min_prefix_chars,
            i,
        );
    }
}

/// A word of a dictionary search is of a dictionary that is not empty.
proof fn lemma_word_is_from_dictionary(
    user: Seq<EntryView>,
    system: Seq<EntryView>,
    reading: Seq<char>,
    pending: Seq<char>,
    limit: int,
    predictive_limit: int,
    min_prefix_chars: int,
    i: int,
)
    requires
        limit >= 0,
        predictive_limit >= 0,
        0 <= i < lookup::dictionary_words(
            user,
            system,
            reading,
            pending,
            limit,
            predictive_limit,
            min_prefix_chars,
        ).len(),
    ensures
        ({
            let word = lookup::dictionary_words(
                user,
                system,
                reading,
                pending,
                limit,
                predictive_limit,
                min_prefix_chars,
            )[i];
            ||| word.source == CandidateSource::UserDictionary && user.len() > 0
            ||| word.source == CandidateSource::Dictionary && system.len() > 0
        }),
{
    let none = Seq::<AnnotatedView>::empty();
    let mine = lookup::exact_words(user, CandidateSource::UserDictionary, reading);
    let theirs = lookup::exact_words(system, CandidateSource::Dictionary, reading);
    let first = candidate::add_new_up_to(none, mine, limit);
    let exact = lookup::exact_part(user, system, reading, pending, limit);
    let tail = lookup::tail_of(pending);
    reveal(Seq::filter);
    lemma_add_up_to(none, mine, limit);
    lemma_add_up_to(first, theirs, limit);
    assert forall|k: int| 0 <= k < exact.len() implies {
        ||| (#[trigger] exact[k]).source == CandidateSource::UserDictionary && user.len() > 0
        ||| exact[k].source == CandidateSource::Dictionary && system.len() > 0
    } by {
        if k < first.len() {
            assert(exact[k] == first[k]);
            assert(mine.contains(first[k]));
        } else {
            assert(theirs.contains(exact[k]));
        }
    }
    if reading.len() >= min_prefix_chars && !(tail is Dead) {
        let ours = lookup::predicted_words(
            user,
            CandidateSource::UserDictionary,
            reading,
            tail,
            predictive_limit,
        );
        let grown = lookup::with_predicted(
            exact,
            user,
            CandidateSource::UserDictionary,
            reading,
            tail,
            limit,
            predictive_limit,
        );
        let budget = predictive_limit - (grown.len() - exact.len());
        let others = lookup::predicted_words(
            system,
            CandidateSource::Dictionary,
            reading,
            tail,
            budget,
        );
        let words = lookup::with_predicted(
            grown,
            system,
            CandidateSource::Dictionary,
            reading,
            tail,
            limit,
            budget,
        );
        lemma_add_up_to(exact, ours, lookup::smaller(limit, exact.len() + predictive_limit));
        lemma_add_up_to(grown, others, lookup::smaller(limit, grown.len() + budget));
        if i < exact.len() {
            assert(words[i] == grown[i] && grown[i] == exact[i]);
        } else if i < grown.len() {
            assert(words[i] == grown[i]);
            assert(ours.contains(grown[i]));
        } else {
            assert(others.contains(words[i]));
        }
    }
}

/// In emoji mode the reading itself is not among the candidates as a fallback:
/// it must not come before the emoji that it asks for.
pub proof fn law_emoji_mode_has_no_fallback(
    e: EngineView,
    reading: Seq<char>,
    base: Seq<char>,
    pending: Seq<char>,
    num: int,
    learning: LearningLookup,
    exact_only: bool,
)
    requires
        e.mode == InputMode::Emoji,
    ensures
        ({
            let mixed = e.mixed(reading, base, pending, num, learning, exact_only);
            forall|i: int|
                0 <= i < mixed.len() ==> (#[trigger] mixed[i]).source != CandidateSource::Fallback
        }),
{
    let mixed = e.mixed(reading, base, pending, num, learning, exact_only);
    assert forall|i: int| 0 <= i < mixed.len() implies (#[trigger] mixed[i]).source
        != CandidateSource::Fallback by {
        lemma_mixed_sources(e, reading, base, pending, num, learning, exact_only, i);
    }
}

/// The candidates for a part of the composition have no readings of their own:
/// none goes beyond the reading of the part.
pub proof fn law_part_candidates_keep_reading(e: EngineView, reading: Seq<char>)
    ensures
        ({
            let all = e.segment_candidates(reading);
            forall|i: int| 0 <= i < all.len() ==> (#[trigger] all[i]).reading is None
        }),
{
    let num = e.config.num_candidates as int;
    let learning = LearningLookup::Use;
    let mixed = e.mixed(reading, reading, Seq::empty(), num, learning, true);
    let described = lookup::all_described(mixed, e.outside);
    lemma_dictionary_parts(e, reading, Seq::empty(), true);
    assert forall|i: int| 0 <= i < described.len() implies (#[trigger] described[i]).reading
        is None by {
        lemma_mixed_sources(e, reading, reading, Seq::empty(), num, learning, true, i);
        let offered = offered_by(
            e,
            reading,
            reading,
            Seq::empty(),
            num,
            learning,
            true,
            mixed[i].source,
        );
        let k = choose|k: int| 0 <= k < offered.len() && offered[k] == mixed[i];
        assert(offered[k].reading is None);
    }
    if e.config.converts_dates() {
        let all = lookup::with_dates(described, e.outside.dates(reading));
        let at = candidate::date_position(described);
        text::lemma_find_first(described, candidate::from_model());
        let n = all.len() - described.len();
        assert forall|i: int| 0 <= i < all.len() implies (#[trigger] all[i]).reading is None by {
            if i < at {
                assert(all[i] == described[i]);
            } else if i >= at + n {
                assert(all[i] == described[i - n]);
            }
        }
    }
}

} // verus!
