//! Scripts and widths: hiragana, full-width and half-width katakana, and the
//! full-width forms of ASCII.

use vstd::prelude::*;

use crate::text;
use crate::text::chars_of;

verus! {

/// The half-width form of each full-width katakana: one character, or a base
/// followed by a voicing mark (`'\0'` where there is none).
pub const HALF_KATAKANA: [(char, char, char); 87] = [
    ('ア', 'ｱ', '\0'),
    ('イ', 'ｲ', '\0'),
    ('ウ', 'ｳ', '\0'),
    ('エ', 'ｴ', '\0'),
    ('オ', 'ｵ', '\0'),
    ('カ', 'ｶ', '\0'),
    ('キ', 'ｷ', '\0'),
    ('ク', 'ｸ', '\0'),
    ('ケ', 'ｹ', '\0'),
    ('コ', 'ｺ', '\0'),
    ('サ', 'ｻ', '\0'),
    ('シ', 'ｼ', '\0'),
    ('ス', 'ｽ', '\0'),
    ('セ', 'ｾ', '\0'),
    ('ソ', 'ｿ', '\0'),
    ('タ', 'ﾀ', '\0'),
    ('チ', 'ﾁ', '\0'),
    ('ツ', 'ﾂ', '\0'),
    ('テ', 'ﾃ', '\0'),
    ('ト', 'ﾄ', '\0'),
    ('ナ', 'ﾅ', '\0'),
    ('ニ', 'ﾆ', '\0'),
    ('ヌ', 'ﾇ', '\0'),
    ('ネ', 'ﾈ', '\0'),
    ('ノ', 'ﾉ', '\0'),
    ('ハ', 'ﾊ', '\0'),
    ('ヒ', 'ﾋ', '\0'),
    ('フ', 'ﾌ', '\0'),
    ('ヘ', 'ﾍ', '\0'),
    ('ホ', 'ﾎ', '\0'),
    ('マ', 'ﾏ', '\0'),
    ('ミ', 'ﾐ', '\0'),
    ('ム', 'ﾑ', '\0'),
    ('メ', 'ﾒ', '\0'),
    ('モ', 'ﾓ', '\0'),
    ('ヤ', 'ﾔ', '\0'),
    ('ユ', 'ﾕ', '\0'),
    ('ヨ', 'ﾖ', '\0'),
    ('ラ', 'ﾗ', '\0'),
    ('リ', 'ﾘ', '\0'),
    ('ル', 'ﾙ', '\0'),
    ('レ', 'ﾚ', '\0'),
    ('ロ', 'ﾛ', '\0'),
    ('ワ', 'ﾜ', '\0'),
    ('ヲ', 'ｦ', '\0'),
    ('ン', 'ﾝ', '\0'),
    ('ァ', 'ｧ', '\0'),
    ('ィ', 'ｨ', '\0'),
    ('ゥ', 'ｩ', '\0'),
    ('ェ', 'ｪ', '\0'),
    ('ォ', 'ｫ', '\0'),
    ('ャ', 'ｬ', '\0'),
    ('ュ', 'ｭ', '\0'),
    ('ョ', 'ｮ', '\0'),
    ('ッ', 'ｯ', '\0'),
    ('ー', 'ｰ', '\0'),
    ('。', '｡', '\0'),
    ('、', '､', '\0'),
    ('「', '｢', '\0'),
    ('」', '｣', '\0'),
    ('・', '･', '\0'),
    ('ガ', 'ｶ', 'ﾞ'),
    ('ギ', 'ｷ', 'ﾞ'),
    ('グ', 'ｸ', 'ﾞ'),
    ('ゲ', 'ｹ', 'ﾞ'),
    ('ゴ', 'ｺ', 'ﾞ'),
    ('ザ', 'ｻ', 'ﾞ'),
    ('ジ', 'ｼ', 'ﾞ'),
    ('ズ', 'ｽ', 'ﾞ'),
    ('ゼ', 'ｾ', 'ﾞ'),
    ('ゾ', 'ｿ', 'ﾞ'),
    ('ダ', 'ﾀ', 'ﾞ'),
    ('ヂ', 'ﾁ', 'ﾞ'),
    ('ヅ', 'ﾂ', 'ﾞ'),
    ('デ', 'ﾃ', 'ﾞ'),
    ('ド', 'ﾄ', 'ﾞ'),
    ('バ', 'ﾊ', 'ﾞ'),
    ('ビ', 'ﾋ', 'ﾞ'),
    ('ブ', 'ﾌ', 'ﾞ'),
    ('ベ', 'ﾍ', 'ﾞ'),
    ('ボ', 'ﾎ', 'ﾞ'),
    ('ヴ', 'ｳ', 'ﾞ'),
    ('パ', 'ﾊ', 'ﾟ'),
    ('ピ', 'ﾋ', 'ﾟ'),
    ('プ', 'ﾌ', 'ﾟ'),
    ('ペ', 'ﾍ', 'ﾟ'),
    ('ポ', 'ﾎ', 'ﾟ'),
];

/// Whether `c` is a hiragana letter or iteration mark that has a katakana
/// counterpart.
pub open spec fn is_hiragana(c: char) -> bool {
    0x3041 <= c as u32 <= 0x3096 || 0x309d <= c as u32 <= 0x309e
}

/// Whether `c` is a full-width katakana letter or iteration mark.
pub open spec fn is_full_katakana(c: char) -> bool {
    0x30a1 <= c as u32 <= 0x30fa || 0x30fd <= c as u32 <= 0x30fe
}

/// The prolonged sound mark, at home in both scripts.
pub const LONG_VOWEL_MARK: char = 'ー';

/// The katakana counterpart of a hiragana character; any other character is
/// itself.
pub open spec fn katakana_char(c: char) -> char {
    if is_hiragana(c) {
        (c as u32 + 0x60) as char
    } else {
        c
    }
}

/// A text with every hiragana character replaced by its katakana counterpart.
pub open spec fn katakana_text(text: Seq<char>) -> Seq<char> {
    Seq::new(text.len(), |i: int| katakana_char(text[i]))
}

/// A non-empty text of hiragana.
pub open spec fn pure_hiragana(text: Seq<char>) -> bool {
    text.len() > 0 && forall|i: int|
        0 <= i < text.len() ==> is_hiragana(#[trigger] text[i]) || text[i] == LONG_VOWEL_MARK
}

/// A non-empty text of full-width katakana.
pub open spec fn pure_full_katakana(text: Seq<char>) -> bool {
    text.len() > 0 && forall|i: int|
        0 <= i < text.len() ==> is_full_katakana(#[trigger] text[i]) || text[i] == LONG_VOWEL_MARK
}

/// Whether `c` is a half-width katakana: a letter, the prolonged sound mark or a
/// voicing mark.
pub open spec fn is_half_katakana(c: char) -> bool {
    0xff66 <= c as u32 <= 0xff9f
}

/// A non-empty text of half-width katakana.
pub open spec fn pure_half_katakana(text: Seq<char>) -> bool {
    text.len() > 0 && forall|i: int|
        0 <= i < text.len() ==> is_half_katakana(#[trigger] text[i])
}

/// Whether a row of the table is that of `c`.
pub open spec fn half_row_of(c: char) -> spec_fn((char, char, char)) -> bool {
    |row: (char, char, char)| row.0 == c
}

/// The half-width form of one character: that of the table for a katakana, the
/// character itself for any other.
pub open spec fn half_chars(c: char) -> Seq<char> {
    match text::find_first(HALF_KATAKANA@, half_row_of(c)) {
        Some(i) => if HALF_KATAKANA@[i].2 == '\0' {
            seq![HALF_KATAKANA@[i].1]
        } else {
            seq![HALF_KATAKANA@[i].1, HALF_KATAKANA@[i].2]
        },
        None => seq![c],
    }
}

/// A text in half-width katakana, hiragana counting as the katakana that it
/// stands for.
pub open spec fn half_katakana_text(text: Seq<char>) -> Seq<char>
    decreases text.len(),
{
    if text.len() == 0 {
        Seq::empty()
    } else {
        half_katakana_text(text.drop_last()) + half_chars(katakana_char(text.last()))
    }
}

/// The full-width form of an ASCII character: the ideographic space for the
/// space, and any other character itself.
pub open spec fn fullwidth_char(c: char) -> char {
    if 0x21 <= c as u32 <= 0x7e {
        (c as u32 + 0xfee0) as char
    } else if c == ' ' {
        '\u{3000}'
    } else {
        c
    }
}

/// A text with every ASCII character in its full-width form.
pub open spec fn fullwidth_text(text: Seq<char>) -> Seq<char> {
    Seq::new(text.len(), |i: int| fullwidth_char(text[i]))
}

/// The ASCII character that a full-width character stands for; any other
/// character is itself.
pub open spec fn halfwidth_char(c: char) -> char {
    if 0xff01 <= c as u32 <= 0xff5e {
        (c as u32 - 0xfee0) as char
    } else if c == '\u{3000}' {
        ' '
    } else {
        c
    }
}

/// A text with every full-width ASCII form in its half-width form.
pub open spec fn halfwidth_text(text: Seq<char>) -> Seq<char> {
    Seq::new(text.len(), |i: int| halfwidth_char(text[i]))
}

/// The character with a given code point.
fn char_with_code(code: u32) -> (c: char)
    requires
        code < 0xd800 || 0xe000 <= code <= 0x10ffff,
    ensures
        c == code as char,
{
    match char::from_u32(code) {
        Some(c) => c,
        None => '\0',
    }
}

fn to_katakana_char(c: char) -> (k: char)
    ensures
        k == katakana_char(c),
{
    let code: u32 = c as u32;
    if (0x3041 <= code && code <= 0x3096) || (0x309d <= code && code <= 0x309e) {
        char_with_code(code + 0x60)
    } else {
        c
    }
}

/// Replace every hiragana character by its katakana counterpart.
pub fn hiragana_to_katakana(text: &str) -> (katakana: String)
    ensures
        katakana@ == katakana_text(text@),
{
    let chars = chars_of(text);
    let mut katakana = String::new();
    for i in 0..chars.len()
        invariant
            chars@ == text@,
            katakana@ == katakana_text(text@.take(i as int)),
    {
        katakana.push(to_katakana_char(chars[i]));
        assert(katakana_text(text@.take(i + 1)) =~= katakana_text(text@.take(i as int)).push(
            katakana_char(text@[i as int]),
        ));
    }
    assert(text@.take(text@.len() as int) =~= text@);
    katakana
}

/// Whether a text is made of hiragana, and not empty.
pub fn is_pure_hiragana(text: &str) -> (pure: bool)
    ensures
        pure == pure_hiragana(text@),
{
    let chars = chars_of(text);
    for i in 0..chars.len()
        invariant
            chars@ == text@,
            forall|j: int|
                0 <= j < i ==> is_hiragana(#[trigger] text@[j]) || text@[j] == LONG_VOWEL_MARK,
    {
        let code: u32 = chars[i] as u32;
        let letter = (0x3041 <= code && code <= 0x3096) || (0x309d <= code && code <= 0x309e);
        if !letter && chars[i] != LONG_VOWEL_MARK {
            assert(!is_hiragana(text@[i as int]) && text@[i as int] != LONG_VOWEL_MARK);
            return false;
        }
    }
    chars.len() > 0
}

/// Whether a text is made of full-width katakana, and not empty.
pub fn is_pure_full_katakana(text: &str) -> (pure: bool)
    ensures
        pure == pure_full_katakana(text@),
{
    let chars = chars_of(text);
    for i in 0..chars.len()
        invariant
            chars@ == text@,
            forall|j: int|
                0 <= j < i ==> is_full_katakana(#[trigger] text@[j]) || text@[j]
                    == LONG_VOWEL_MARK,
    {
        let code: u32 = chars[i] as u32;
        let letter = (0x30a1 <= code && code <= 0x30fa) || (0x30fd <= code && code <= 0x30fe);
        if !letter && chars[i] != LONG_VOWEL_MARK {
            assert(!is_full_katakana(text@[i as int]) && text@[i as int] != LONG_VOWEL_MARK);
            return false;
        }
    }
    chars.len() > 0
}

/// Whether a text is made of half-width katakana, and not empty.
pub fn is_pure_half_katakana(text: &str) -> (pure: bool)
    ensures
        pure == pure_half_katakana(text@),
{
    let chars = chars_of(text);
    for i in 0..chars.len()
        invariant
            chars@ == text@,
            forall|j: int| 0 <= j < i ==> is_half_katakana(#[trigger] text@[j]),
    {
        let code: u32 = chars[i] as u32;
        if code < 0xff66 || code > 0xff9f {
            assert(!is_half_katakana(text@[i as int]));
            return false;
        }
    }
    chars.len() > 0
}

fn push_half(half: &mut String, c: char)
    ensures
        final(half)@ == old(half)@ + half_chars(c),
{
    let ghost p = half_row_of(c);
    let ghost start = half@;
    let mut i: usize = 0;
    while i < HALF_KATAKANA.len()
        invariant
            i <= HALF_KATAKANA@.len(),
            half@ == start,
            start == old(half)@,
            p == half_row_of(c),
            forall|j: int| 0 <= j < i ==> !p(#[trigger] HALF_KATAKANA@[j]),
        decreases HALF_KATAKANA@.len() - i,
    {
        let row = HALF_KATAKANA[i];
        if row.0 == c {
            proof {
                text::lemma_find_first_is(HALF_KATAKANA@, p, i as int);
            }
            half.push(row.1);
            if row.2 != '\0' {
                half.push(row.2);
            }
            assert(half@ =~= start + half_chars(c));
            return;
        }
        i = i + 1;
    }
    proof {
        text::lemma_find_first_none(HALF_KATAKANA@, p);
    }
    half.push(c);
    assert(half@ =~= start + half_chars(c));
}

/// Put kana in half-width katakana.
pub fn to_half_katakana(text: &str) -> (half: String)
    ensures
        half@ == half_katakana_text(text@),
{
    let chars = chars_of(text);
    let mut half = String::new();
    for i in 0..chars.len()
        invariant
            chars@ == text@,
            half@ == half_katakana_text(text@.take(i as int)),
    {
        push_half(&mut half, to_katakana_char(chars[i]));
        assert(text@.take(i + 1).drop_last() =~= text@.take(i as int));
    }
    assert(text@.take(text@.len() as int) =~= text@);
    half
}

/// Put ASCII characters in their full-width form.
pub fn to_fullwidth(text: &str) -> (full: String)
    ensures
        full@ == fullwidth_text(text@),
{
    let chars = chars_of(text);
    let mut full = String::new();
    for i in 0..chars.len()
        invariant
            chars@ == text@,
            full@ == fullwidth_text(text@.take(i as int)),
    {
        let c = chars[i];
        let code: u32 = c as u32;
        let wide = if 0x21 <= code && code <= 0x7e {
            char_with_code(code + 0xfee0)
        } else if c == ' ' {
            '\u{3000}'
        } else {
            c
        };
        full.push(wide);
        assert(fullwidth_text(text@.take(i + 1)) =~= fullwidth_text(text@.take(i as int)).push(
            fullwidth_char(text@[i as int]),
        ));
    }
    assert(text@.take(text@.len() as int) =~= text@);
    full
}

/// Put full-width ASCII forms in their half-width form.
pub fn to_halfwidth(text: &str) -> (half: String)
    ensures
        half@ == halfwidth_text(text@),
{
    let chars = chars_of(text);
    let mut half = String::new();
    for i in 0..chars.len()
        invariant
            chars@ == text@,
            half@ == halfwidth_text(text@.take(i as int)),
    {
        let c = chars[i];
        let code: u32 = c as u32;
        let narrow = if 0xff01 <= code && code <= 0xff5e {
            char_with_code(code - 0xfee0)
        } else if c == '\u{3000}' {
            ' '
        } else {
            c
        };
        half.push(narrow);
        assert(halfwidth_text(text@.take(i + 1)) =~= halfwidth_text(text@.take(i as int)).push(
            halfwidth_char(text@[i as int]),
        ));
    }
    assert(text@.take(text@.len() as int) =~= text@);
    half
}

} // verus!
