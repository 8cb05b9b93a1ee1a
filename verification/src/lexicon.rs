//! Words with their readings: the dictionaries and the learning history.

use vstd::prelude::*;
use vstd::string::StrSliceExecFns;

use crate::text;
use crate::text::{begins_with, same_text, skip_chars};

verus! {

/// A word and its reading.
#[derive(Debug)]
pub struct Entry {
    pub reading: String,
    pub surface: String,
}

/// A word and its reading, as texts.
#[verifier::ext_equal]
pub struct EntryView {
    pub reading: Seq<char>,
    pub surface: Seq<char>,
}

impl View for Entry {
    type V = EntryView;

    open spec fn view(&self) -> EntryView {
        EntryView { reading: self.reading@, surface: self.surface@ }
    }
}

impl Clone for Entry {
    fn clone(&self) -> (copy: Self)
        ensures
            copy@ == self@,
    {
        Entry { reading: self.reading.clone(), surface: self.surface.clone() }
    }
}

/// Whether an entry is read exactly `reading`.
pub open spec fn reads(reading: Seq<char>) -> spec_fn(EntryView) -> bool {
    |entry: EntryView| entry.reading == reading
}

/// Whether the reading of an entry begins with `prefix` and goes on.
pub open spec fn extends(prefix: Seq<char>) -> spec_fn(EntryView) -> bool {
    |entry: EntryView| prefix.is_prefix_of(entry.reading) && entry.reading != prefix
}

/// Whether `text` begins with one of `heads`.
pub open spec fn begins_with_one(text: Seq<char>, heads: Seq<Seq<char>>) -> bool {
    exists|i: int| 0 <= i < heads.len() && (#[trigger] heads[i]).is_prefix_of(text)
}

/// Whether the reading of an entry begins with `prefix` and goes on with one of
/// `kana`.
pub open spec fn extends_with(prefix: Seq<char>, kana: Seq<Seq<char>>) -> spec_fn(
    EntryView,
) -> bool {
    |entry: EntryView|
        prefix.is_prefix_of(entry.reading) && entry.reading != prefix && begins_with_one(
            entry.reading.skip(prefix.len() as int),
            kana,
        )
}

/// Whether an entry gives `surface` under a reading that begins with `prefix`.
pub open spec fn suggests(prefix: Seq<char>, surface: Seq<char>) -> spec_fn(EntryView) -> bool {
    |entry: EntryView| prefix.is_prefix_of(entry.reading) && entry.surface == surface
}

/// What `suggests` does not hold of.
pub open spec fn not_suggests(prefix: Seq<char>, surface: Seq<char>) -> spec_fn(
    EntryView,
) -> bool {
    |entry: EntryView| !(prefix.is_prefix_of(entry.reading) && entry.surface == surface)
}

/// Whether an entry is another than `one`.
pub open spec fn other_than(one: EntryView) -> spec_fn(EntryView) -> bool {
    |entry: EntryView| entry != one
}

/// How the unresolved romaji tail constrains a predictive lookup.
pub enum TailConstraint {
    /// No tail: prediction is unconstrained
    Unconstrained,
    /// The tail can still become these kana: narrow to them
    Narrow(Vec<String>),
    /// The tail can no longer become kana: no reading extends it
    Dead,
}

/// A tail constraint as texts.
pub enum TailView {
    Unconstrained,
    Narrow(Seq<Seq<char>>),
    Dead,
}

impl View for TailConstraint {
    type V = TailView;

    open spec fn view(&self) -> TailView {
        match *self {
            TailConstraint::Unconstrained => TailView::Unconstrained,
            TailConstraint::Narrow(kana) => TailView::Narrow(text::views(kana@)),
            TailConstraint::Dead => TailView::Dead,
        }
    }
}

/// Whether the reading of an entry goes on from `prefix` as the tail lets it.
pub open spec fn continues(prefix: Seq<char>, tail: TailView) -> spec_fn(EntryView) -> bool {
    match tail {
        TailView::Unconstrained => extends(prefix),
        TailView::Narrow(kana) => extends_with(prefix, kana),
        TailView::Dead => |entry: EntryView| false,
    }
}

/// Whether a text begins with one of some others.
fn begins_with_any(text: &str, heads: &Vec<String>) -> (begins: bool)
    ensures
        begins == begins_with_one(text@, text::views(heads@)),
{
    let ghost all = text::views(heads@);
    for i in 0..heads.len()
        invariant
            all == text::views(heads@),
            forall|j: int| 0 <= j < i ==> !(#[trigger] all[j]).is_prefix_of(text@),
    {
        if begins_with(text, heads[i].as_str()) {
            assert(all[i as int].is_prefix_of(text@));
            return true;
        }
        assert(!all[i as int].is_prefix_of(text@));
    }
    false
}

/// Whether the reading of an entry goes on from `prefix` as the tail lets it.
fn does_continue(entry: &Entry, prefix: &str, tail: &TailConstraint) -> (goes_on: bool)
    ensures
        goes_on == continues(prefix@, tail@)(entry@),
{
    let reading = entry.reading.as_str();
    if !begins_with(reading, prefix) || same_text(reading, prefix) {
        return false;
    }
    match tail {
        TailConstraint::Unconstrained => true,
        TailConstraint::Narrow(kana) => {
            let rest = skip_chars(reading, prefix.unicode_len());
            begins_with_any(rest.as_str(), kana)
        },
        TailConstraint::Dead => false,
    }
}

/// The entries that go on from `prefix` as the tail lets them, in order, at most
/// `limit` of them.
pub fn continuations(
    entries: &Vec<Entry>,
    prefix: &str,
    tail: &TailConstraint,
    limit: usize,
) -> (found: Vec<Entry>)
    ensures
        text::views(found@) == text::at_most(
            text::views(entries@).filter(continues(prefix@, tail@)),
            limit as int,
        ),
{
    let mut found: Vec<Entry> = Vec::new();
    let ghost all = text::views(entries@);
    let ghost p = continues(prefix@, tail@);
    proof {
        text::lemma_filter_ends(all, p);
        assert(text::views(found@) =~= all.take(0).filter(p));
    }
    let n = entries.len();
    let mut i: usize = 0;
    while i < n && found.len() < limit
        invariant
            n == entries@.len(),
            i <= n,
            all == text::views(entries@),
            p == continues(prefix@, tail@),
            text::views(found@) == all.take(i as int).filter(p),
            found@.len() <= limit,
        decreases n - i,
    {
        let ghost before = text::views(found@);
        proof {
            text::lemma_filter_step(all, p, i as int);
        }
        if does_continue(&entries[i], prefix, tail) {
            let entry = entries[i].clone();
            found.push(entry);
            assert(text::views(found@) =~= before.push(entry@));
        }
        i = i + 1;
    }
    proof {
        if i == n {
            assert(all.take(i as int) =~= all);
        } else {
            lemma_filter_prefix(all, p, i as int);
            assert(text::views(found@) =~= text::at_most(all.filter(p), limit as int));
        }
    }
    found
}

/// Filtering a beginning gives a beginning of what filtering all gives.
proof fn lemma_filter_prefix(items: Seq<EntryView>, p: spec_fn(EntryView) -> bool, i: int)
    requires
        0 <= i <= items.len(),
    ensures
        items.take(i).filter(p).is_prefix_of(items.filter(p)),
    decreases items.len() - i,
{
    if i == items.len() {
        assert(items.take(i) =~= items);
    } else {
        text::lemma_filter_step(items, p, i);
        lemma_filter_prefix(items, p, i + 1);
        let small = items.take(i).filter(p);
        let mid = items.take(i + 1).filter(p);
        assert(small =~= mid.subrange(0, small.len() as int));
        assert(small =~= items.filter(p).subrange(0, small.len() as int));
    }
}

/// The words of the entries that are read exactly `reading`, in order.
pub open spec fn surfaces_of(entries: Seq<EntryView>, reading: Seq<char>) -> Seq<Seq<char>> {
    let exact = entries.filter(reads(reading));
    Seq::new(exact.len(), |i: int| exact[i].surface)
}

/// The words of the entries that are read exactly `reading`, in order.
fn exact_surfaces(entries: &Vec<Entry>, reading: &str) -> (found: Vec<String>)
    ensures
        text::views(found@) == surfaces_of(text::views(entries@), reading@),
{
    let mut found: Vec<String> = Vec::new();
    let ghost all = text::views(entries@);
    let ghost p = reads(reading@);
    proof {
        text::lemma_filter_ends(all, p);
    }
    for i in 0..entries.len()
        invariant
            all == text::views(entries@),
            p == reads(reading@),
            found@.len() == all.take(i as int).filter(p).len(),
            forall|j: int|
                0 <= j < found@.len() ==> (#[trigger] found@[j])@ == all.take(i as int).filter(
                    p,
                )[j].surface,
    {
        proof {
            text::lemma_filter_step(all, p, i as int);
        }
        if same_text(entries[i].reading.as_str(), reading) {
            found.push(entries[i].surface.clone());
        }
    }
    proof {
        text::lemma_filter_ends(all, p);
        assert(text::views(found@) =~= surfaces_of(all, reading@));
    }
    found
}

/// A dictionary: its entries, the best first.
#[derive(Clone, Debug)]
pub struct Dictionary {
    pub entries: Vec<Entry>,
}

impl View for Dictionary {
    type V = Seq<EntryView>;

    open spec fn view(&self) -> Seq<EntryView> {
        text::views(self.entries@)
    }
}

impl Dictionary {
    /// A dictionary of these entries, the best first.
    pub fn new(entries: Vec<Entry>) -> (dictionary: Self)
        ensures
            dictionary@ == text::views(entries@),
    {
        Dictionary { entries }
    }

    /// The words for a reading, the best first.
    pub fn exact_match_search(&self, reading: &str) -> (found: Vec<String>)
        ensures
            text::views(found@) == surfaces_of(self@, reading@),
    {
        exact_surfaces(&self.entries, reading)
    }

    /// The entries whose readings go on from `prefix` as the romaji tail lets
    /// them, the best first, at most `limit` of them.
    pub fn predictive_search(&self, prefix: &str, tail: &TailConstraint, limit: usize) -> (found:
        Vec<Entry>)
        ensures
            text::views(found@) == text::at_most(
                self@.filter(continues(prefix@, tail@)),
                limit as int,
            ),
    {
        continuations(&self.entries, prefix, tail, limit)
    }
}

/// The learning history: what was committed, the latest first.
#[derive(Clone, Debug)]
pub struct LearningCache {
    pub entries: Vec<Entry>,
}

impl View for LearningCache {
    type V = Seq<EntryView>;

    open spec fn view(&self) -> Seq<EntryView> {
        text::views(self.entries@)
    }
}

/// A history in which `entry` was recorded last.
pub open spec fn recorded(history: Seq<EntryView>, entry: EntryView) -> Seq<EntryView> {
    seq![entry] + history.filter(other_than(entry))
}

impl LearningCache {
    /// A history of these entries, the latest first.
    pub fn new(entries: Vec<Entry>) -> (cache: Self)
        ensures
            cache@ == text::views(entries@),
    {
        LearningCache { entries }
    }

    /// The words committed for a reading, the latest first.
    pub fn lookup(&self, reading: &str) -> (found: Vec<String>)
        ensures
            text::views(found@) == surfaces_of(self@, reading@),
    {
        exact_surfaces(&self.entries, reading)
    }

    /// The entries whose readings go on from `prefix` as the romaji tail lets
    /// them, the latest first.
    pub fn prefix_lookup(&self, prefix: &str, tail: &TailConstraint) -> (found: Vec<Entry>)
        ensures
            text::views(found@) == self@.filter(continues(prefix@, tail@)),
    {
        let n = self.entries.len();
        let found = continuations(&self.entries, prefix, tail, n);
        proof {
            text::lemma_filter_len(self@, continues(prefix@, tail@));
        }
        found
    }

    /// Record that `surface` was committed for `reading`.
    pub fn record(&mut self, reading: &str, surface: &str)
        ensures
            final(self)@ == recorded(
                old(self)@,
                EntryView { reading: reading@, surface: surface@ },
            ),
    {
        let one = Entry { reading: reading.to_owned(), surface: surface.to_owned() };
        let ghost entry = one@;
        let ghost all = self@;
        let ghost p = other_than(entry);
        let mut entries: Vec<Entry> = Vec::new();
        entries.push(one);
        proof {
            text::lemma_filter_ends(all, p);
            assert(text::views(entries@) =~= seq![entry] + all.take(0).filter(p));
        }
        let n = self.entries.len();
        for i in 0..n
            invariant
                n == self.entries@.len(),
                all == self@,
                entry == (EntryView { reading: reading@, surface: surface@ }),
                p == other_than(entry),
                text::views(entries@) == seq![entry] + all.take(i as int).filter(p),
        {
            let ghost before = text::views(entries@);
            proof {
                text::lemma_filter_step(all, p, i as int);
            }
            let same = same_text(self.entries[i].reading.as_str(), reading) && same_text(
                self.entries[i].surface.as_str(),
                surface,
            );
            if !same {
                let kept = self.entries[i].clone();
                entries.push(kept);
                assert(text::views(entries@) =~= before.push(kept@));
                assert(p(all[i as int]));
                assert(text::views(entries@) =~= seq![entry] + all.take(i + 1).filter(p));
            } else {
                assert(all[i as int] =~= entry);
            }
        }
        proof {
            text::lemma_filter_ends(all, p);
        }
        self.entries = entries;
    }

    /// Remove every entry that gives `surface` under a reading that begins with
    /// `prefix`; false where there is none.
    pub fn remove_suggestion(&mut self, prefix: &str, surface: &str) -> (removed: bool)
        ensures
            final(self)@ == old(self)@.filter(not_suggests(prefix@, surface@)),
            removed == exists|i: int|
                0 <= i < old(self)@.len() && suggests(prefix@, surface@)(
                    #[trigger] old(self)@[i],
                ),
    {
        let ghost all = self@;
        let ghost p = not_suggests(prefix@, surface@);
        let mut entries: Vec<Entry> = Vec::new();
        let mut removed = false;
        proof {
            text::lemma_filter_ends(all, p);
            assert(text::views(entries@) =~= all.take(0).filter(p));
        }
        let n = self.entries.len();
        for i in 0..n
            invariant
                n == self.entries@.len(),
                all == self@,
                p == not_suggests(prefix@, surface@),
                text::views(entries@) == all.take(i as int).filter(p),
                removed == exists|j: int|
                    0 <= j < i && suggests(prefix@, surface@)(#[trigger] all[j]),
        {
            let ghost before = text::views(entries@);
            proof {
                text::lemma_filter_step(all, p, i as int);
            }
            let hit = begins_with(self.entries[i].reading.as_str(), prefix) && same_text(
                self.entries[i].surface.as_str(),
                surface,
            );
            if hit {
                removed = true;
                assert(suggests(prefix@, surface@)(all[i as int]));
            } else {
                let kept = self.entries[i].clone();
                entries.push(kept);
                assert(text::views(entries@) =~= before.push(kept@));
                assert(!suggests(prefix@, surface@)(all[i as int]));
            }
        }
        proof {
            text::lemma_filter_ends(all, p);
        }
        self.entries = entries;
        removed
    }
}

/// Leaving items out brings in no item twice.
pub proof fn lemma_filter_no_duplicates(items: Seq<EntryView>, p: spec_fn(EntryView) -> bool)
    requires
        items.no_duplicates(),
    ensures
        items.filter(p).no_duplicates(),
    decreases items.len(),
{
    reveal(Seq::filter);
    if items.len() > 0 {
        let init = items.drop_last();
        lemma_filter_no_duplicates(init, p);
        let kept = init.filter(p);
        if kept.contains(items.last()) {
            text::lemma_filter_contains(init, p, items.last());
            let k = choose|k: int| 0 <= k < init.len() && init[k] == items.last();
            assert(items[k] == items[items.len() - 1]);
        }
    }
}

/// Recording and removing keep a history in which no entry is twice, and such a
/// history gives no word twice for a reading.
pub proof fn law_history_stays_distinct(
    history: Seq<EntryView>,
    entry: EntryView,
    prefix: Seq<char>,
    surface: Seq<char>,
)
    requires
        history.no_duplicates(),
    ensures
        surfaces_of(history, prefix).no_duplicates(),
        recorded(history, entry).no_duplicates(),
        history.filter(not_suggests(prefix, surface)).no_duplicates(),
{
    let p = reads(prefix);
    let exact = history.filter(p);
    let surfaces = surfaces_of(history, prefix);
    lemma_filter_no_duplicates(history, p);
    assert forall|i: int, j: int|
        0 <= i < surfaces.len() && 0 <= j < surfaces.len() && i != j implies surfaces[i]
        != surfaces[j] by {
        assert(exact.contains(exact[i]) && exact.contains(exact[j]));
        text::lemma_filter_contains(history, p, exact[i]);
        text::lemma_filter_contains(history, p, exact[j]);
        if exact[i].surface == exact[j].surface {
            assert(exact[i] =~= exact[j]);
        }
    }
    lemma_filter_no_duplicates(history, not_suggests(prefix, surface));
    lemma_filter_no_duplicates(history, other_than(entry));
    let rest = history.filter(other_than(entry));
    if rest.contains(entry) {
        text::lemma_filter_contains(history, other_than(entry), entry);
    }
    let all = recorded(history, entry);
    assert forall|i: int, j: int| 0 <= i < all.len() && 0 <= j < all.len() && i != j implies all[i]
        != all[j] by {
        if i > 0 {
            assert(rest.contains(rest[i - 1]));
        }
        if j > 0 {
            assert(rest.contains(rest[j - 1]));
        }
    }
}

/// What was recorded for a reading comes first when the reading is looked up,
/// and is there only once.
pub proof fn law_recorded_is_found(history: Seq<EntryView>, entry: EntryView)
    ensures
        surfaces_of(recorded(history, entry), entry.reading).len() > 0,
        surfaces_of(recorded(history, entry), entry.reading)[0] == entry.surface,
        forall|i: int|
            0 < i < surfaces_of(recorded(history, entry), entry.reading).len() ==> (
            #[trigger] surfaces_of(recorded(history, entry), entry.reading)[i]) != entry.surface,
{
    let p = reads(entry.reading);
    let rest = history.filter(other_than(entry));
    Seq::filter_distributes_over_add(seq![entry], rest, p);
    reveal_with_fuel(Seq::filter, 2);
    assert(seq![entry].drop_last() =~= Seq::<EntryView>::empty());
    assert(seq![entry].filter(p) =~= seq![entry]);
    let exact = recorded(history, entry).filter(p);
    assert(exact =~= seq![entry] + rest.filter(p));
    assert forall|i: int| 0 < i < exact.len() implies exact[i].surface != entry.surface by {
        let other = rest.filter(p)[i - 1];
        assert(exact[i] == other);
        assert(rest.filter(p).contains(other));
        text::lemma_filter_contains(rest, p, other);
        text::lemma_filter_contains(history, other_than(entry), other);
        if other.surface == entry.surface {
            assert(other =~= entry);
        }
    }
}

/// Once a suggestion is removed, no reading that begins with the prefix gives
/// it any more, and every other entry stays.
pub proof fn law_removed_is_gone(
    history: Seq<EntryView>,
    prefix: Seq<char>,
    surface: Seq<char>,
    entry: EntryView,
)
    ensures
        history.filter(not_suggests(prefix, surface)).contains(entry) <==> history.contains(entry)
            && !suggests(prefix, surface)(entry),
{
    text::lemma_filter_contains(history, not_suggests(prefix, surface), entry);
}

} // verus!
