//! The composition buffer: kana, the keys that made them, and the caret.

use vstd::prelude::*;

use crate::romaji;
use crate::romaji::{GroupView, KanaGroup};
use crate::text;
use crate::text::{char_text, chars_of, join, text_of};

verus! {

/// The text under composition. Each character has an entry for the keys that
/// were typed for it: the first character of a group (`き` of `きゃ`) has the
/// keys of the group (`kya`), the others have none.
#[derive(Clone, Debug)]
pub struct InputBuffer {
    pub text: Vec<char>,
    pub raw_inputs: Vec<String>,
    pub cursor_pos: usize,
}

/// A buffer as characters, the keys of each, and the position of the caret.
#[verifier::ext_equal]
pub struct BufferView {
    pub text: Seq<char>,
    pub raws: Seq<Seq<char>>,
    pub cursor: int,
}

/// The entries for the keys of a group of `n` characters.
pub open spec fn group_raws(n: nat, raw: Seq<char>) -> Seq<Seq<char>> {
    Seq::new(
        n,
        |i: int|
            if i == 0 {
                raw
            } else {
                Seq::empty()
            },
    )
}

/// Where the group of the character at `last` starts: at the nearest character,
/// from `last` backwards, that has keys, or else at the start.
pub open spec fn group_start(raws: Seq<Seq<char>>, last: int) -> int
    decreases last,
{
    if last <= 0 || raws[last].len() > 0 {
        last
    } else {
        group_start(raws, last - 1)
    }
}

/// A buffer without text.
pub open spec fn empty_buffer() -> BufferView {
    BufferView { text: Seq::empty(), raws: Seq::empty(), cursor: 0 }
}

impl BufferView {
    /// Every character has its entry, and the caret stands in the text.
    pub open spec fn wf(self) -> bool {
        self.raws.len() == self.text.len() && 0 <= self.cursor <= self.text.len()
    }

    /// The buffer with a group inserted at the caret, and the caret after it.
    pub open spec fn insert(self, kana: Seq<char>, raw: Seq<char>) -> BufferView {
        BufferView {
            text: self.text.take(self.cursor) + kana + self.text.skip(self.cursor),
            raws: self.raws.take(self.cursor) + group_raws(kana.len(), raw) + self.raws.skip(
                self.cursor,
            ),
            cursor: self.cursor + kana.len(),
        }
    }

    /// The buffer with groups inserted at the caret, one after the other.
    pub open spec fn insert_all(self, groups: Seq<GroupView>) -> BufferView
        decreases groups.len(),
    {
        if groups.len() == 0 {
            self
        } else {
            self.insert_all(groups.drop_last()).insert(groups.last().kana, groups.last().raw)
        }
    }

    /// The buffer without the characters `from..to`, and the caret where they
    /// were.
    pub open spec fn cut(self, from: int, to: int) -> BufferView {
        BufferView {
            text: self.text.take(from) + self.text.skip(to),
            raws: self.raws.take(from) + self.raws.skip(to),
            cursor: from,
        }
    }

    /// The keys typed for what stands before the caret.
    pub open spec fn raw_before(self) -> Seq<char> {
        text::concat(self.raws.take(self.cursor))
    }

    /// The keys typed for what stands after the caret.
    pub open spec fn raw_after(self) -> Seq<char> {
        text::concat(self.raws.skip(self.cursor))
    }
}

impl View for InputBuffer {
    type V = BufferView;

    open spec fn view(&self) -> BufferView {
        BufferView {
            text: self.text@,
            raws: text::views(self.raw_inputs@),
            cursor: self.cursor_pos as int,
        }
    }
}

/// The buffer that holds `chars`, each its own key, with the caret at the end.
pub open spec fn literal_buffer(chars: Seq<char>) -> BufferView {
    BufferView {
        text: chars,
        raws: Seq::new(chars.len(), |i: int| seq![chars[i]]),
        cursor: chars.len() as int,
    }
}

impl InputBuffer {
    /// A buffer without text.
    pub fn new() -> (buffer: Self)
        ensures
            buffer@ == empty_buffer(),
            buffer@.wf(),
    {
        let buffer = InputBuffer { text: Vec::new(), raw_inputs: Vec::new(), cursor_pos: 0 };
        assert(buffer@ =~= empty_buffer());
        buffer
    }

    /// Whether there is no text.
    pub fn is_empty(&self) -> (empty: bool)
        ensures
            empty == (self@.text.len() == 0),
    {
        self.text.len() == 0
    }

    /// Remove all text.
    pub fn clear(&mut self)
        ensures
            final(self)@ == empty_buffer(),
            final(self)@.wf(),
    {
        self.text.clear();
        self.raw_inputs.clear();
        self.cursor_pos = 0;
        assert(self@ =~= empty_buffer());
    }

    /// The text.
    pub fn reading(&self) -> (text: String)
        ensures
            text@ == self@.text,
    {
        let text = text_of(&self.text, 0, self.text.len());
        assert(text@ =~= self@.text);
        text
    }

    /// Insert one character at the caret, with the keys typed for it.
    fn insert_one(&mut self, c: char, raw: String)
        requires
            old(self)@.wf(),
        ensures
            final(self)@ == old(self)@.insert(seq![c], raw@),
            final(self)@.wf(),
    {
        let ghost was = self@;
        self.text.insert(self.cursor_pos, c);
        self.raw_inputs.insert(self.cursor_pos, raw);
        assert(self.text@.len() == self.text.len());
        self.cursor_pos = self.cursor_pos + 1;
        assert(self@.text =~= was.insert(seq![c], raw@).text);
        assert(self@.raws =~= was.insert(seq![c], raw@).raws);
    }

    /// Insert a group at the caret, and put the caret after it.
    pub fn insert_group(&mut self, group: &KanaGroup)
        requires
            old(self)@.wf(),
        ensures
            final(self)@ == old(self)@.insert(group@.kana, group@.raw),
            final(self)@.wf(),
    {
        let ghost was = self@;
        assert(was.insert(Seq::empty(), group@.raw) =~= was);
        for i in 0..group.kana.len()
            invariant
                was.wf(),
                self@.wf(),
                self@ == was.insert(group@.kana.take(i as int), group@.raw),
        {
            let raw = if i == 0 {
                group.raw.clone()
            } else {
                String::new()
            };
            let ghost partial = self@;
            self.insert_one(group.kana[i], raw);
            let ghost grown = was.insert(group@.kana.take(i + 1), group@.raw);
            assert(self@.text =~= grown.text);
            assert(self@.raws =~= grown.raws);
        }
        assert(group@.kana.take(group@.kana.len() as int) =~= group@.kana);
    }

    /// Insert groups at the caret, one after the other.
    pub fn insert_groups(&mut self, groups: &Vec<KanaGroup>)
        requires
            old(self)@.wf(),
        ensures
            final(self)@ == old(self)@.insert_all(text::views(groups@)),
            final(self)@.wf(),
    {
        let ghost was = self@;
        let ghost all = text::views(groups@);
        assert(all.take(0) =~= Seq::<GroupView>::empty());
        for i in 0..groups.len()
            invariant
                was.wf(),
                self@.wf(),
                all == text::views(groups@),
                self@ == was.insert_all(all.take(i as int)),
        {
            self.insert_group(&groups[i]);
            assert(all.take(i + 1).drop_last() =~= all.take(i as int));
        }
        assert(all.take(all.len() as int) =~= all);
    }

    /// Insert a character that stands for itself at the caret.
    pub fn push_direct(&mut self, c: char)
        requires
            old(self)@.wf(),
        ensures
            final(self)@ == old(self)@.insert(seq![c], seq![c]),
            final(self)@.wf(),
    {
        self.insert_one(c, char_text(c));
    }

    /// Replace all text by characters that stand for themselves.
    pub fn set_direct(&mut self, chars: &str)
        ensures
            final(self)@ == literal_buffer(chars@),
            final(self)@.wf(),
    {
        self.clear();
        let list = chars_of(chars);
        assert(self@ =~= literal_buffer(list@.take(0)));
        for i in 0..list.len()
            invariant
                self@.wf(),
                list@ == chars@,
                self@ == literal_buffer(list@.take(i as int)),
        {
            self.push_direct(list[i]);
            let ghost grown = literal_buffer(list@.take(i + 1));
            assert(self@.text =~= grown.text);
            assert(self@.raws =~= grown.raws);
        }
        assert(chars@.take(chars@.len() as int) =~= chars@);
    }

    /// Remove the characters `from..to`, and put the caret where they were.
    fn cut(&mut self, from: usize, to: usize)
        requires
            old(self)@.wf(),
            from <= to <= old(self)@.text.len(),
        ensures
            final(self)@ == old(self)@.cut(from as int, to as int),
            final(self)@.wf(),
    {
        let ghost was = self@;
        let mut text_rest = self.text.split_off(to);
        let mut raws_rest = self.raw_inputs.split_off(to);
        self.text.truncate(from);
        self.raw_inputs.truncate(from);
        self.text.append(&mut text_rest);
        self.raw_inputs.append(&mut raws_rest);
        self.cursor_pos = from;
        assert(self@.text =~= was.cut(from as int, to as int).text);
        assert(self@.raws =~= was.cut(from as int, to as int).raws);
    }

    /// Where the group of the character before the caret starts.
    fn group_before_cursor(&self) -> (start: usize)
        requires
            self@.wf(),
            self@.cursor > 0,
        ensures
            start == group_start(self@.raws, self@.cursor - 1),
            start < self@.cursor,
    {
        let mut start = self.cursor_pos - 1;
        while start > 0 && self.raw_inputs[start].as_str().is_empty()
            invariant
                self@.wf(),
                start < self@.cursor,
                group_start(self@.raws, self@.cursor - 1) == group_start(self@.raws, start as int),
            decreases start,
        {
            start = start - 1;
        }
        start
    }

    /// Remove the character before the caret. If it is a later character of a
    /// group, the whole group before the caret goes with it.
    pub fn remove_group_before_cursor(&mut self)
        requires
            old(self)@.wf(),
            old(self)@.cursor > 0,
        ensures
            final(self)@ == old(self)@.cut(
                group_start(old(self)@.raws, old(self)@.cursor - 1),
                old(self)@.cursor,
            ),
            final(self)@.wf(),
    {
        let start = self.group_before_cursor();
        let end = self.cursor_pos;
        self.cut(start, end);
    }

    /// Remove the character at the caret; false where the caret is at the end.
    pub fn remove_char_at_cursor(&mut self) -> (removed: bool)
        requires
            old(self)@.wf(),
        ensures
            removed == (old(self)@.cursor < old(self)@.text.len()),
            final(self)@ == if removed {
                old(self)@.cut(old(self)@.cursor, old(self)@.cursor + 1)
            } else {
                old(self)@
            },
            final(self)@.wf(),
    {
        if self.cursor_pos >= self.text.len() {
            return false;
        }
        let at = self.cursor_pos;
        self.cut(at, at + 1);
        true
    }

    /// The keys typed for the text, with `pending` where the caret is.
    pub fn raw_text(&self, pending: &str) -> (keys: String)
        requires
            self@.wf(),
        ensures
            keys@ == self@.raw_before() + pending@ + self@.raw_after(),
    {
        let mut keys = join(&self.raw_inputs, 0, self.cursor_pos);
        text::append(&mut keys, pending);
        let after = join(&self.raw_inputs, self.cursor_pos, self.raw_inputs.len());
        text::append(&mut keys, after.as_str());
        assert(self@.raws.subrange(0, self@.cursor) =~= self@.raws.take(self@.cursor));
        assert(self@.raws.subrange(self@.cursor, self@.raws.len() as int) =~= self@.raws.skip(
            self@.cursor,
        ));
        keys
    }
}

/// The keys typed before the caret gain the keys of the groups inserted there,
/// and those after it stay: nothing typed is lost, nor put out of order.
pub proof fn law_insert_keeps_keys(buffer: BufferView, groups: Seq<GroupView>)
    requires
        buffer.wf(),
        romaji::visible(groups),
    ensures
        buffer.insert_all(groups).wf(),
        buffer.insert_all(groups).raw_before() == buffer.raw_before() + romaji::raw_of(groups),
        buffer.insert_all(groups).raw_after() == buffer.raw_after(),
        buffer.insert_all(groups).text == buffer.text.take(buffer.cursor) + romaji::kana_of(groups)
            + buffer.text.skip(buffer.cursor),
        buffer.insert_all(groups).cursor == buffer.cursor + romaji::kana_of(groups).len(),
    decreases groups.len(),
{
    let raws = Seq::new(groups.len(), |i: int| groups[i].raw);
    let kanas = Seq::new(groups.len(), |i: int| groups[i].kana);
    if groups.len() == 0 {
        assert(buffer.raw_before() + romaji::raw_of(groups) =~= buffer.raw_before());
        assert(buffer.text.take(buffer.cursor) + romaji::kana_of(groups) + buffer.text.skip(
            buffer.cursor,
        ) =~= buffer.text);
    } else {
        let init = groups.drop_last();
        let last = groups.last();
        assert(romaji::visible(init)) by {
            assert forall|i: int| 0 <= i < init.len() implies (#[trigger] init[i]).kana.len()
                > 0 by {
                assert(init[i] == groups[i]);
            }
        }
        law_insert_keeps_keys(buffer, init);
        let mid = buffer.insert_all(init);
        let end = buffer.insert_all(groups);
        assert(last.kana.len() > 0) by {
            assert(groups[groups.len() - 1].kana.len() > 0);
        }
        lemma_concat_group(last.kana.len(), last.raw);
        assert(end.raws.take(end.cursor) =~= mid.raws.take(mid.cursor) + group_raws(
            last.kana.len(),
            last.raw,
        ));
        text::lemma_concat_add(mid.raws.take(mid.cursor), group_raws(last.kana.len(), last.raw));
        assert(end.raws.skip(end.cursor) =~= mid.raws.skip(mid.cursor));
        let init_raws = Seq::new(init.len(), |i: int| init[i].raw);
        let init_kanas = Seq::new(init.len(), |i: int| init[i].kana);
        assert(raws.drop_last() =~= init_raws);
        assert(kanas.drop_last() =~= init_kanas);
        assert(buffer.raw_before() + romaji::raw_of(init) + last.raw =~= buffer.raw_before()
            + romaji::raw_of(groups));
        let before = buffer.text.take(buffer.cursor);
        let after = buffer.text.skip(buffer.cursor);
        assert(mid.text.take(mid.cursor) =~= before + romaji::kana_of(init));
        assert(mid.text.skip(mid.cursor) =~= after);
        assert(before + romaji::kana_of(init) + last.kana + after =~= before + romaji::kana_of(
            groups,
        ) + after);
    }
}

/// The entries of a group hold its keys.
proof fn lemma_concat_group(n: nat, raw: Seq<char>)
    requires
        n > 0,
    ensures
        text::concat(group_raws(n, raw)) == raw,
    decreases n,
{
    let raws = group_raws(n, raw);
    if n == 1 {
        assert(raws =~= seq![raw]);
        text::lemma_concat_one(raw);
    } else {
        assert(raws.drop_last() =~= group_raws((n - 1) as nat, raw));
        lemma_concat_group((n - 1) as nat, raw);
        assert(raw + Seq::<char>::empty() =~= raw);
    }
}

/// A group ends at its first character: everything between that and the
/// character asked about has no keys of its own.
pub proof fn lemma_group_start(raws: Seq<Seq<char>>, last: int)
    requires
        0 <= last < raws.len(),
    ensures
        0 <= group_start(raws, last) <= last,
        raws[group_start(raws, last)].len() > 0 || group_start(raws, last) == 0,
        forall|i: int| group_start(raws, last) < i <= last ==> (#[trigger] raws[i]).len() == 0,
    decreases last,
{
    if last > 0 && raws[last].len() == 0 {
        lemma_group_start(raws, last - 1);
    }
}

} // verus!
