//! What holds of texts, scripts and lists by themselves.

use vstd::prelude::*;

use crate::candidate;
use crate::candidate::ListView;
use crate::editing_laws;
use crate::engine;
use crate::kana;
use crate::key;
use crate::romaji;
use crate::settle;
use crate::state::{CharWidth, InputMode};
use crate::text;

verus! {

/// Whether `c` has a full-width form of ASCII.
pub open spec fn is_full_ascii(c: char) -> bool {
    '！' <= c <= '～' || c == '\u{3000}'
}

/// Only printable ASCII has another full-width form, and only the full-width
/// forms of it another half-width form; each is as far from the other as `！` from
/// `!`, but for the space.
pub proof fn law_width_of_character(c: char)
    ensures
        if '!' <= c <= '~' {
            kana::fullwidth_char(c) as int == c as int + ('！' as int - '!' as int)
        } else if c == ' ' {
            kana::fullwidth_char(c) == '\u{3000}'
        } else {
            kana::fullwidth_char(c) == c
        },
        if '！' <= c <= '～' {
            kana::halfwidth_char(c) as int == c as int - ('！' as int - '!' as int)
        } else if c == '\u{3000}' {
            kana::halfwidth_char(c) == ' '
        } else {
            kana::halfwidth_char(c) == c
        },
{
    let x = c as u32;
    assert(x as int == c as int);
    if 0x21 <= x <= 0x7e {
        let y = (x + 0xfee0) as char;
        assert(y as int == x + 0xfee0);
    }
    if 0xff01 <= x <= 0xff5e {
        let y = (x - 0xfee0) as char;
        assert(y as int == x - 0xfee0);
    }
}

/// What is shown in half width has no full-width ASCII, what is shown in full
/// width no ASCII, and what is shown as it is stays; the length stays in each, and
/// no other character changes.
pub proof fn law_width_shown(t: Seq<char>)
    ensures
        settle::in_width(t, CharWidth::AsIs) == t,
        settle::in_width(t, CharWidth::Half).len() == t.len(),
        settle::in_width(t, CharWidth::Full).len() == t.len(),
        forall|i: int|
            0 <= i < t.len() ==> !is_full_ascii(
                #[trigger] settle::in_width(t, CharWidth::Half)[i],
            ) && (!is_full_ascii(t[i]) ==> settle::in_width(t, CharWidth::Half)[i] == t[i]),
        forall|i: int|
            0 <= i < t.len() ==> !(' ' <= (#[trigger] settle::in_width(t, CharWidth::Full)[i])
                <= '~') && (!(' ' <= t[i] <= '~') ==> settle::in_width(t, CharWidth::Full)[i]
                == t[i]),
{
    let half = settle::in_width(t, CharWidth::Half);
    let full = settle::in_width(t, CharWidth::Full);
    assert forall|i: int| 0 <= i < t.len() implies !is_full_ascii(#[trigger] half[i]) && (
    !is_full_ascii(t[i]) ==> half[i] == t[i]) by {
        law_width_of_character(t[i]);
    }
    assert forall|i: int| 0 <= i < t.len() implies !(' ' <= (#[trigger] full[i]) <= '~') && (!(' '
        <= t[i] <= '~') ==> full[i] == t[i]) by {
        law_width_of_character(t[i]);
    }
}

/// Half-width katakana of a text is made up of that of its parts, and a text in
/// hiragana has the same as the text in katakana.
pub proof fn law_half_katakana_of_parts(a: Seq<char>, b: Seq<char>)
    ensures
        kana::half_katakana_text(a + b) == kana::half_katakana_text(a) + kana::half_katakana_text(
            b,
        ),
        kana::half_katakana_text(kana::katakana_text(b)) == kana::half_katakana_text(b),
    decreases b.len(),
{
    if b.len() > 0 {
        let init = b.drop_last();
        law_half_katakana_of_parts(a, init);
        assert((a + b).drop_last() =~= a + init);
        assert((a + b).last() == b.last());
        editing_laws::law_katakana_of_text(seq![b.last()]);
        let k = kana::katakana_char(b.last());
        assert(kana::katakana_text(seq![b.last()]) =~= seq![k]);
        assert(kana::katakana_text(seq![k])[0] == k);
        assert(kana::katakana_text(b).drop_last() =~= kana::katakana_text(init));
        assert(kana::katakana_text(b).last() == k);
        assert(kana::half_katakana_text(a + b) =~= kana::half_katakana_text(a)
            + kana::half_katakana_text(b));
    } else {
        assert(a + b =~= a);
        assert(kana::half_katakana_text(a + b) =~= kana::half_katakana_text(a)
            + kana::half_katakana_text(b));
        assert(kana::katakana_text(b) =~= b);
    }
}

/// A hiragana letter or iteration mark, or the long vowel mark.
pub open spec fn is_hiragana_letter(c: char) -> bool {
    'ぁ' <= c <= 'ゖ' || c == 'ゝ' || c == 'ゞ' || c == 'ー'
}

/// A katakana letter or iteration mark, or the long vowel mark.
pub open spec fn is_katakana_letter(c: char) -> bool {
    'ァ' <= c <= 'ヺ' || c == 'ヽ' || c == 'ヾ' || c == 'ー'
}

/// The script of one character.
proof fn lemma_letter(c: char)
    ensures
        kana::is_hiragana(c) || c == kana::LONG_VOWEL_MARK <==> is_hiragana_letter(c),
        kana::is_full_katakana(c) || c == kana::LONG_VOWEL_MARK <==> is_katakana_letter(c),
        kana::is_half_katakana(c) <==> 'ｦ' <= c <= 'ﾟ',
{
    let x = c as u32;
    assert(x as int == c as int);
}

/// The label of a candidate names its script: a text of hiragana alone, of
/// full-width katakana alone, or of half-width katakana alone has one, and no
/// other has.
pub proof fn law_script_is_named(t: Seq<char>)
    ensures
        ({
            let hiragana = t.len() > 0 && forall|i: int|
                0 <= i < t.len() ==> is_hiragana_letter(#[trigger] t[i]);
            let katakana = t.len() > 0 && forall|i: int|
                0 <= i < t.len() ==> is_katakana_letter(#[trigger] t[i]);
            let half = t.len() > 0 && forall|i: int|
                0 <= i < t.len() ==> 'ｦ' <= (#[trigger] t[i]) <= 'ﾟ';
            candidate::script_label(t) == if hiragana {
                Some("[全]ひらがな"@)
            } else if katakana {
                Some("[全]カタカナ"@)
            } else if half {
                Some("[半]カタカナ"@)
            } else {
                None
            }
        }),
{
    let hiragana = t.len() > 0 && forall|i: int|
        0 <= i < t.len() ==> is_hiragana_letter(#[trigger] t[i]);
    let katakana = t.len() > 0 && forall|i: int|
        0 <= i < t.len() ==> is_katakana_letter(#[trigger] t[i]);
    let half = t.len() > 0 && forall|i: int|
        0 <= i < t.len() ==> 'ｦ' <= (#[trigger] t[i]) <= 'ﾟ';
    assert forall|i: int| 0 <= i < t.len() implies {
        &&& kana::is_hiragana(#[trigger] t[i]) || t[i] == kana::LONG_VOWEL_MARK
            <==> is_hiragana_letter(t[i])
        &&& kana::is_full_katakana(t[i]) || t[i] == kana::LONG_VOWEL_MARK <==> is_katakana_letter(
            t[i],
        )
        &&& kana::is_half_katakana(t[i]) <==> 'ｦ' <= t[i] <= 'ﾟ'
    } by {
        lemma_letter(t[i]);
    }
    assert(kana::pure_hiragana(t) <==> hiragana);
    assert(kana::pure_full_katakana(t) <==> katakana);
    assert(kana::pure_half_katakana(t) <==> half);
}

/// The number that digits stand for.
pub open spec fn number_of(digits: Seq<char>) -> int
    decreases digits.len(),
{
    if digits.len() == 0 {
        0
    } else {
        10 * number_of(digits.drop_last()) + (digits.last() as int - '0' as int)
    }
}

/// A number in decimal is written in digits that stand for it, without a leading
/// zero.
pub proof fn law_decimal_stands_for_number(n: nat)
    ensures
        ({
            let digits = text::decimal_text(n);
            &&& number_of(digits) == n
            &&& digits.len() > 0
            &&& forall|i: int| 0 <= i < digits.len() ==> '0' <= (#[trigger] digits[i]) <= '9'
            &&& n > 0 ==> digits[0] != '0'
        }),
    decreases n,
{
    let digits = text::decimal_text(n);
    let d = n % 10;
    let c = text::digit_char(d);
    assert(c as int == 48 + d);
    reveal_with_fuel(number_of, 2);
    if n < 10 {
        assert(digits.drop_last() =~= Seq::<char>::empty());
    } else {
        law_decimal_stands_for_number(n / 10);
        assert(digits.drop_last() =~= text::decimal_text(n / 10));
        assert(digits[0] == text::decimal_text(n / 10)[0]);
    }
}

/// A character can stand in a text unless it is an ASCII control character.
pub proof fn law_printable(c: char)
    ensures
        key::is_printable(c) <==> ' ' <= c && c != '\u{7f}',
{
    let x = c as u32;
    assert(x as int == c as int);
}

/// Selecting a text selects the first row that has it, and none where none has.
pub proof fn law_first_of_text_is_selected(list: ListView, t: Seq<char>, at: int)
    ensures
        list.select_text(t).candidates == list.candidates,
        0 <= at < list.candidates.len() && list.candidates[at].text == t && (forall|k: int|
            0 <= k < at ==> (#[trigger] list.candidates[k]).text != t) ==> list.select_text(
            t,
        ).cursor == at,
        (forall|k: int| 0 <= k < list.candidates.len() ==> (#[trigger] list.candidates[k]).text != t)
            ==> list.select_text(t) == list,
{
    let p = candidate::with_text(t);
    text::lemma_find_first(list.candidates, p);
    if 0 <= at < list.candidates.len() && list.candidates[at].text == t && (forall|k: int|
        0 <= k < at ==> (#[trigger] list.candidates[k]).text != t) {
        assert forall|k: int| 0 <= k < at implies !p(#[trigger] list.candidates[k]) by {}
        text::lemma_find_first_is(list.candidates, p, at);
    }
    if let Some(i) = text::find_first(list.candidates, p) {
        assert(p(list.candidates[i]));
    }
}

/// Joining texts joins them in order: a text joined to others comes after them,
/// character by character.
pub proof fn law_joining_keeps_order(parts: Seq<Seq<char>>, last: Seq<char>)
    ensures
        text::concat(parts.push(last)) == text::concat(parts) + last,
        text::concat(Seq::empty()) == Seq::<char>::empty(),
{
    assert(parts.push(last).drop_last() =~= parts);
}

/// A new engine is at rest in hiragana mode, knows no words, asks nine
/// conversions of the model, converts no dates and shows candidates as they are.
pub proof fn law_new_engine()
    ensures
        ({
            let e = engine::new_engine();
            &&& e.wf()
            &&& editing_laws::at_rest(e)
            &&& e.mode == InputMode::Hiragana
            &&& e.user is None
            &&& e.system is None
            &&& e.learning is None
            &&& e.requested.len() == 0
            &&& e.outside.readings.len() == 0
            &&& e.config.num_candidates == 9
            &&& !e.config.date_conversion
            &&& e.config.date_formats.len() == 0
            &&& e.config.width == CharWidth::AsIs
            &&& !e.suppress_suggest
        }),
{
}

/// The sign of a mode.
pub open spec fn sign(mode: InputMode) -> char {
    match mode {
        InputMode::Hiragana => 'あ',
        InputMode::Katakana => 'ア',
        InputMode::Alphabet => 'A',
        InputMode::Emoji => ':',
    }
}

/// Each mode is told by its own sign.
pub proof fn law_modes_have_signs(mode: InputMode)
    ensures
        engine::mode_label(mode) == seq![sign(mode)],
{
    reveal_strlit("あ");
    reveal_strlit("ア");
    reveal_strlit("A");
    reveal_strlit(":");
    assert("あ"@ =~= seq!['あ']);
    assert("ア"@ =~= seq!['ア']);
    assert("A"@ =~= seq!['A']);
    assert(":"@ =~= seq![':']);
}

/// The kana that a rule of the romaji table gives.
pub open spec fn kana_given(rule: int) -> Seq<char> {
    if romaji::RULES@[rule].2 == '\0' {
        seq![romaji::RULES@[rule].1]
    } else {
        seq![romaji::RULES@[rule].1, romaji::RULES@[rule].2]
    }
}

/// Whether a rule of the romaji table needs more keys than these, beginning with
/// them.
pub open spec fn rule_goes_on(rule: int, keys: Seq<char>) -> bool {
    &&& 0 <= rule < romaji::RULES@.len()
    &&& keys.len() < romaji::RULES@[rule].0@.len()
    &&& romaji::RULES@[rule].0@.take(keys.len() as int) == keys
}

/// Whether some rule that needs more keys than these gives these kana.
pub open spec fn comes_of_rule(kana: Seq<char>, keys: Seq<char>) -> bool {
    exists|rule: int| #[trigger] rule_goes_on(rule, keys) && kana_given(rule) == kana
}

/// What waiting keys can still become is the kana of the rules that need more
/// keys than these and begin with them, and nothing else.
pub proof fn law_expansions_go_on(keys: Seq<char>)
    ensures
        forall|rule: int| #[trigger]
            rule_goes_on(rule, keys) ==> romaji::expansions(keys).contains(kana_given(rule)),
        forall|k: int|
            0 <= k < romaji::expansions(keys).len() ==> comes_of_rule(
                #[trigger] romaji::expansions(keys)[k],
                keys,
            ),
{
    let p = romaji::rule_beyond(keys);
    let kept = romaji::RULES@.filter(p);
    let all = romaji::expansions(keys);
    assert forall|rule: int| #[trigger] rule_goes_on(rule, keys) implies all.contains(
        kana_given(rule),
    ) by {
        let one = romaji::RULES@[rule];
        assert(keys =~= one.0@.subrange(0, keys.len() as int));
        assert(romaji::RULES@.contains(one));
        text::lemma_filter_contains(romaji::RULES@, p, one);
        let k = choose|k: int| 0 <= k < kept.len() && kept[k] == one;
        assert(all[k] == kana_given(rule));
    }
    assert forall|k: int| 0 <= k < all.len() implies comes_of_rule(#[trigger] all[k], keys) by {
        assert(kept.contains(kept[k]));
        text::lemma_filter_contains(romaji::RULES@, p, kept[k]);
        let rule = choose|rule: int|
            0 <= rule < romaji::RULES@.len() && romaji::RULES@[rule] == kept[k];
        assert(romaji::RULES@[rule].0@.take(keys.len() as int) =~= keys);
        assert(rule_goes_on(rule, keys));
        assert(kana_given(rule) == all[k]);
    }
}

} // verus!
