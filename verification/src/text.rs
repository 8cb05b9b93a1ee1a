//! Text seen as sequences of characters: the mathematical vocabulary that the
//! contracts of this crate share, and the executable functions behind it.

use vstd::prelude::*;
use vstd::string::StrSliceExecFns;
use vstd::string::StringExecFns;

verus! {

/// The views of the items of a sequence, in order.
pub open spec fn views<T: View>(items: Seq<T>) -> Seq<T::V> {
    Seq::new(items.len(), |i: int| items[i]@)
}

/// The view of an optional value.
pub open spec fn opt_view<T: View>(item: Option<T>) -> Option<T::V> {
    match item {
        Some(t) => Some(t@),
        None => None,
    }
}

/// At most the first `n` items.
pub open spec fn at_most<A>(items: Seq<A>, n: int) -> Seq<A> {
    if n < items.len() {
        items.take(n)
    } else {
        items
    }
}

/// All parts joined, in order.
pub open spec fn concat(parts: Seq<Seq<char>>) -> Seq<char>
    decreases parts.len(),
{
    if parts.len() == 0 {
        Seq::empty()
    } else {
        concat(parts.drop_last()) + parts.last()
    }
}

/// The position of the first item that satisfies `p`.
pub open spec fn find_first<A>(items: Seq<A>, p: spec_fn(A) -> bool) -> Option<int>
    decreases items.len(),
{
    if items.len() == 0 {
        None
    } else {
        match find_first(items.drop_last(), p) {
            Some(i) => Some(i),
            None => if p(items.last()) {
                Some(items.len() - 1)
            } else {
                None
            },
        }
    }
}

/// `find_first` gives an index that satisfies the predicate, with none before it,
/// and gives nothing only where no item does.
pub proof fn lemma_find_first<A>(items: Seq<A>, p: spec_fn(A) -> bool)
    ensures
        match find_first(items, p) {
            Some(i) => {
                &&& 0 <= i < items.len()
                &&& p(items[i])
                &&& forall|j: int| 0 <= j < i ==> !p(#[trigger] items[j])
            },
            None => forall|j: int| 0 <= j < items.len() ==> !p(#[trigger] items[j]),
        },
    decreases items.len(),
{
    if items.len() > 0 {
        lemma_find_first(items.drop_last(), p);
        let init = items.drop_last();
        assert(forall|j: int| 0 <= j < init.len() ==> init[j] == items[j]);
        if find_first(init, p) is None && !p(items.last()) {
            assert forall|j: int| 0 <= j < items.len() implies !p(#[trigger] items[j]) by {
                if j < init.len() {
                    assert(!p(init[j]));
                }
            }
        } else if find_first(init, p) is None {
            assert forall|j: int| 0 <= j < items.len() - 1 implies !p(#[trigger] items[j]) by {
                assert(!p(init[j]));
            }
        } else {
            let i = find_first(init, p)->0;
            assert forall|j: int| 0 <= j < i implies !p(#[trigger] items[j]) by {
                assert(!p(init[j]));
            }
        }
    }
}

/// The first index that satisfies the predicate is what `find_first` gives.
pub proof fn lemma_find_first_is<A>(items: Seq<A>, p: spec_fn(A) -> bool, i: int)
    requires
        0 <= i < items.len(),
        p(items[i]),
        forall|j: int| 0 <= j < i ==> !p(#[trigger] items[j]),
    ensures
        find_first(items, p) == Some(i),
{
    lemma_find_first(items, p);
    match find_first(items, p) {
        Some(k) => {
            if k < i {
                assert(!p(items[k]));
            }
            if i < k {
                assert(!p(items[i]));
            }
        },
        None => {
            assert(!p(items[i]));
        },
    }
}

/// Where no item satisfies the predicate, `find_first` gives nothing.
pub proof fn lemma_find_first_none<A>(items: Seq<A>, p: spec_fn(A) -> bool)
    requires
        forall|j: int| 0 <= j < items.len() ==> !p(#[trigger] items[j]),
    ensures
        find_first(items, p) is None,
{
    lemma_find_first(items, p);
}

/// Joining distributes over concatenation of the lists of parts.
pub proof fn lemma_concat_add(a: Seq<Seq<char>>, b: Seq<Seq<char>>)
    ensures
        concat(a + b) == concat(a) + concat(b),
    decreases b.len(),
{
    if b.len() == 0 {
        assert(a + b =~= a);
    } else {
        assert((a + b).drop_last() =~= a + b.drop_last());
        lemma_concat_add(a, b.drop_last());
        assert((a + b).last() == b.last());
        assert(concat(a) + (concat(b.drop_last()) + b.last()) =~= (concat(a) + concat(
            b.drop_last(),
        )) + b.last());
    }
}

/// Joining one part gives the part.
pub proof fn lemma_concat_one(part: Seq<char>)
    ensures
        concat(seq![part]) == part,
{
    reveal_with_fuel(concat, 2);
    assert(seq![part].drop_last() =~= Seq::<Seq<char>>::empty());
    assert(Seq::<char>::empty() + part =~= part);
}

/// Filtering one item more either adds the item or changes nothing.
pub proof fn lemma_filter_step<A>(items: Seq<A>, p: spec_fn(A) -> bool, i: int)
    requires
        0 <= i < items.len(),
    ensures
        items.take(i + 1).filter(p) == if p(items[i]) {
            items.take(i).filter(p).push(items[i])
        } else {
            items.take(i).filter(p)
        },
{
    reveal(Seq::filter);
    assert(items.take(i + 1).drop_last() =~= items.take(i));
}

/// A filtered sequence holds exactly the items that satisfy the predicate.
pub proof fn lemma_filter_contains<A>(items: Seq<A>, p: spec_fn(A) -> bool, one: A)
    ensures
        items.filter(p).contains(one) <==> items.contains(one) && p(one),
    decreases items.len(),
{
    reveal(Seq::filter);
    if items.len() > 0 {
        let init = items.drop_last();
        lemma_filter_contains(init, p, one);
        let kept = init.filter(p);
        if items.contains(one) && p(one) {
            let i = choose|i: int| 0 <= i < items.len() && items[i] == one;
            if i < init.len() {
                assert(init[i] == one);
                let k = choose|k: int| 0 <= k < kept.len() && kept[k] == one;
                assert(items.filter(p)[k] == one);
            } else {
                assert(items.filter(p)[kept.len() as int] == one);
            }
        }
        if items.filter(p).contains(one) {
            let k = choose|k: int| 0 <= k < items.filter(p).len() && items.filter(p)[k] == one;
            if k < kept.len() {
                assert(kept[k] == one);
                let i = choose|i: int| 0 <= i < init.len() && init[i] == one;
                assert(items[i] == one);
            } else {
                assert(items[items.len() - 1] == one);
            }
        }
    }
}

/// Filtering by what all items satisfy changes nothing.
pub proof fn lemma_filter_all<A>(items: Seq<A>, p: spec_fn(A) -> bool)
    requires
        forall|i: int| 0 <= i < items.len() ==> p(#[trigger] items[i]),
    ensures
        items.filter(p) == items,
    decreases items.len(),
{
    reveal(Seq::filter);
    if items.len() > 0 {
        let init = items.drop_last();
        assert forall|i: int| 0 <= i < init.len() implies p(#[trigger] init[i]) by {
            assert(p(items[i]));
        }
        lemma_filter_all(init, p);
        assert(p(items[items.len() - 1]));
        assert(init.push(items.last()) =~= items);
    } else {
        assert(items.filter(p) =~= items);
    }
}

/// Filtering never gives more than there was.
pub proof fn lemma_filter_len<A>(items: Seq<A>, p: spec_fn(A) -> bool)
    ensures
        items.filter(p).len() <= items.len(),
    decreases items.len(),
{
    reveal(Seq::filter);
    if items.len() > 0 {
        lemma_filter_len(items.drop_last(), p);
    }
}

/// Filtering all of nothing gives nothing; a whole sequence is its own longest
/// beginning.
pub proof fn lemma_filter_ends<A>(items: Seq<A>, p: spec_fn(A) -> bool)
    ensures
        items.take(0).filter(p) == Seq::<A>::empty(),
        items.take(items.len() as int) == items,
{
    reveal(Seq::filter);
    assert(items.take(0) =~= Seq::<A>::empty());
    assert(items.take(items.len() as int) =~= items);
}

/// `String::push` appends the character to the end of the string.
pub assume_specification[ String::push ](s: &mut String, c: char)
    ensures
        final(s)@ == old(s)@.push(c),
;

/// `char::from_u32` gives the character with that code point: nothing for a
/// surrogate and for anything beyond the last code point.
pub assume_specification[ char::from_u32 ](code: u32) -> (r: Option<char>)
    ensures
        match r {
            Some(c) => c as int == code as int,
            None => 0xd800 <= code <= 0xdfff || code > 0x10ffff,
        },
;

/// The characters of a text.
pub fn chars_of(text: &str) -> (chars: Vec<char>)
    ensures
        chars@ == text@,
{
    let mut chars: Vec<char> = Vec::new();
    for c in it: text.chars()
        invariant
            chars@ == it.seq().take(it.index()),
            it.seq() == text@,
    {
        chars.push(c);
        assert(it.seq().take(it.index() + 1) =~= it.seq().take(it.index()).push(c));
    }
    assert(text@.take(text@.len() as int) =~= text@);
    chars
}

/// The text made of the characters `from..to`.
pub fn text_of(chars: &Vec<char>, from: usize, to: usize) -> (text: String)
    requires
        from <= to <= chars@.len(),
    ensures
        text@ == chars@.subrange(from as int, to as int),
{
    let mut text = String::new();
    let mut i: usize = from;
    while i < to
        invariant
            from <= i <= to <= chars@.len(),
            text@ == chars@.subrange(from as int, i as int),
        decreases to - i,
    {
        text.push(chars[i]);
        i = i + 1;
        assert(chars@.subrange(from as int, i as int) =~= chars@.subrange(
            from as int,
            i - 1,
        ).push(chars@[i - 1]));
    }
    text
}

/// Whether two texts hold the same characters.
pub fn same_text(a: &str, b: &str) -> (same: bool)
    ensures
        same == (a@ == b@),
{
    a.to_owned() == b.to_owned()
}

/// Whether `text` begins with `prefix`.
pub fn begins_with(text: &str, prefix: &str) -> (begins: bool)
    ensures
        begins == prefix@.is_prefix_of(text@),
{
    let n = prefix.unicode_len();
    if text.unicode_len() < n {
        return false;
    }
    same_text(text.substring_char(0, n), prefix)
}

/// Append a text to another.
pub fn append(text: &mut String, more: &str)
    ensures
        final(text)@ == old(text)@ + more@,
{
    text.append(more);
}

/// The first `n` characters of a text.
pub fn take_chars(text: &str, n: usize) -> (head: String)
    requires
        n <= text@.len(),
    ensures
        head@ == text@.take(n as int),
{
    text.substring_char(0, n).to_owned()
}

/// What follows the first `n` characters of a text.
pub fn skip_chars(text: &str, n: usize) -> (rest: String)
    requires
        n <= text@.len(),
    ensures
        rest@ == text@.skip(n as int),
{
    let rest = text.substring_char(n, text.unicode_len()).to_owned();
    assert(rest@ =~= text@.skip(n as int));
    rest
}

/// A text of one character.
pub fn char_text(c: char) -> (text: String)
    ensures
        text@ == seq![c],
{
    let mut text = String::new();
    text.push(c);
    assert(text@ =~= seq![c]);
    text
}

/// An optional text copied.
pub fn copy_opt(text: &Option<String>) -> (copy: Option<String>)
    ensures
        opt_view(copy) == opt_view(*text),
{
    match text {
        Some(t) => Some(t.clone()),
        None => None,
    }
}

/// All texts joined, in order.
pub fn join(parts: &Vec<String>, from: usize, to: usize) -> (text: String)
    requires
        from <= to <= parts@.len(),
    ensures
        text@ == concat(views(parts@).subrange(from as int, to as int)),
{
    let mut text = String::new();
    let mut i: usize = from;
    while i < to
        invariant
            from <= i <= to <= parts@.len(),
            text@ == concat(views(parts@).subrange(from as int, i as int)),
        decreases to - i,
    {
        text.append(parts[i].as_str());
        i = i + 1;
        let ghost grown = views(parts@).subrange(from as int, i as int);
        assert(grown.drop_last() =~= views(parts@).subrange(from as int, i - 1));
    }
    text
}

/// The digit that stands for `d`.
pub open spec fn digit_char(d: nat) -> char {
    (48 + d) as char
}

/// A number written in decimal.
pub open spec fn decimal_text(n: nat) -> Seq<char>
    decreases n,
{
    if n < 10 {
        seq![digit_char(n)]
    } else {
        decimal_text(n / 10).push(digit_char(n % 10))
    }
}

/// A number written in decimal.
pub fn decimal(n: usize) -> (text: String)
    ensures
        text@ == decimal_text(n as nat),
    decreases n,
{
    let d: u8 = (n % 10) as u8;
    let c = (48u8 + d) as char;
    if n < 10 {
        char_text(c)
    } else {
        let mut text = decimal(n / 10);
        text.push(c);
        text
    }
}

} // verus!
