//! Romaji typed key by key, and the kana that it becomes.

use vstd::prelude::*;

use crate::text;
use crate::text::{char_text, text_of};

verus! {

/// The kana of each romaji syllable: one character or two (`'\0'` for none).
pub const RULES: [(&'static str, char, char); 261] = [
    ("a", 'あ', '\0'), ("i", 'い', '\0'), ("u", 'う', '\0'), ("e", 'え', '\0'), ("o", 'お', '\0'),
    ("ka", 'か', '\0'), ("ki", 'き', '\0'), ("ku", 'く', '\0'), ("ke", 'け', '\0'),
    ("ko", 'こ', '\0'), ("ca", 'か', '\0'), ("ci", 'し', '\0'), ("cu", 'く', '\0'),
    ("ce", 'せ', '\0'), ("co", 'こ', '\0'), ("sa", 'さ', '\0'), ("si", 'し', '\0'),
    ("su", 'す', '\0'), ("se", 'せ', '\0'), ("so", 'そ', '\0'), ("ta", 'た', '\0'),
    ("ti", 'ち', '\0'), ("tu", 'つ', '\0'), ("te", 'て', '\0'), ("to", 'と', '\0'),
    ("na", 'な', '\0'), ("ni", 'に', '\0'), ("nu", 'ぬ', '\0'), ("ne", 'ね', '\0'),
    ("no", 'の', '\0'), ("ha", 'は', '\0'), ("hi", 'ひ', '\0'), ("hu", 'ふ', '\0'),
    ("he", 'へ', '\0'), ("ho", 'ほ', '\0'), ("fa", 'ふ', 'ぁ'), ("fi", 'ふ', 'ぃ'), ("fu", 'ふ', '\0'),
    ("fe", 'ふ', 'ぇ'), ("fo", 'ふ', 'ぉ'), ("ma", 'ま', '\0'), ("mi", 'み', '\0'), ("mu", 'む', '\0'),
    ("me", 'め', '\0'), ("mo", 'も', '\0'), ("ya", 'や', '\0'), ("yu", 'ゆ', '\0'),
    ("ye", 'い', 'ぇ'), ("yo", 'よ', '\0'), ("ra", 'ら', '\0'), ("ri", 'り', '\0'),
    ("ru", 'る', '\0'), ("re", 'れ', '\0'), ("ro", 'ろ', '\0'), ("wa", 'わ', '\0'),
    ("wi", 'う', 'ぃ'), ("wu", 'う', '\0'), ("we", 'う', 'ぇ'), ("wo", 'を', '\0'), ("ga", 'が', '\0'),
    ("gi", 'ぎ', '\0'), ("gu", 'ぐ', '\0'), ("ge", 'げ', '\0'), ("go", 'ご', '\0'),
    ("za", 'ざ', '\0'), ("zi", 'じ', '\0'), ("zu", 'ず', '\0'), ("ze", 'ぜ', '\0'),
    ("zo", 'ぞ', '\0'), ("ja", 'じ', 'ゃ'), ("ji", 'じ', '\0'), ("ju", 'じ', 'ゅ'), ("je", 'じ', 'ぇ'),
    ("jo", 'じ', 'ょ'), ("da", 'だ', '\0'), ("di", 'ぢ', '\0'), ("du", 'づ', '\0'),
    ("de", 'で', '\0'), ("do", 'ど', '\0'), ("ba", 'ば', '\0'), ("bi", 'び', '\0'),
    ("bu", 'ぶ', '\0'), ("be", 'べ', '\0'), ("bo", 'ぼ', '\0'), ("pa", 'ぱ', '\0'),
    ("pi", 'ぴ', '\0'), ("pu", 'ぷ', '\0'), ("pe", 'ぺ', '\0'), ("po", 'ぽ', '\0'),
    ("va", 'ゔ', 'ぁ'), ("vi", 'ゔ', 'ぃ'), ("vu", 'ゔ', '\0'), ("ve", 'ゔ', 'ぇ'), ("vo", 'ゔ', 'ぉ'),
    ("qa", 'く', 'ぁ'), ("qi", 'く', 'ぃ'), ("qu", 'く', '\0'), ("qe", 'く', 'ぇ'), ("qo", 'く', 'ぉ'),
    ("kya", 'き', 'ゃ'), ("kyi", 'き', 'ぃ'), ("kyu", 'き', 'ゅ'), ("kye", 'き', 'ぇ'),
    ("kyo", 'き', 'ょ'), ("sya", 'し', 'ゃ'), ("syi", 'し', 'ぃ'), ("syu", 'し', 'ゅ'),
    ("sye", 'し', 'ぇ'), ("syo", 'し', 'ょ'), ("tya", 'ち', 'ゃ'), ("tyi", 'ち', 'ぃ'),
    ("tyu", 'ち', 'ゅ'), ("tye", 'ち', 'ぇ'), ("tyo", 'ち', 'ょ'), ("cya", 'ち', 'ゃ'),
    ("cyi", 'ち', 'ぃ'), ("cyu", 'ち', 'ゅ'), ("cye", 'ち', 'ぇ'), ("cyo", 'ち', 'ょ'),
    ("nya", 'に', 'ゃ'), ("nyi", 'に', 'ぃ'), ("nyu", 'に', 'ゅ'), ("nye", 'に', 'ぇ'),
    ("nyo", 'に', 'ょ'), ("hya", 'ひ', 'ゃ'), ("hyi", 'ひ', 'ぃ'), ("hyu", 'ひ', 'ゅ'),
    ("hye", 'ひ', 'ぇ'), ("hyo", 'ひ', 'ょ'), ("mya", 'み', 'ゃ'), ("myi", 'み', 'ぃ'),
    ("myu", 'み', 'ゅ'), ("mye", 'み', 'ぇ'), ("myo", 'み', 'ょ'), ("rya", 'り', 'ゃ'),
    ("ryi", 'り', 'ぃ'), ("ryu", 'り', 'ゅ'), ("rye", 'り', 'ぇ'), ("ryo", 'り', 'ょ'),
    ("gya", 'ぎ', 'ゃ'), ("gyi", 'ぎ', 'ぃ'), ("gyu", 'ぎ', 'ゅ'), ("gye", 'ぎ', 'ぇ'),
    ("gyo", 'ぎ', 'ょ'), ("zya", 'じ', 'ゃ'), ("zyi", 'じ', 'ぃ'), ("zyu", 'じ', 'ゅ'),
    ("zye", 'じ', 'ぇ'), ("zyo", 'じ', 'ょ'), ("jya", 'じ', 'ゃ'), ("jyi", 'じ', 'ぃ'),
    ("jyu", 'じ', 'ゅ'), ("jye", 'じ', 'ぇ'), ("jyo", 'じ', 'ょ'), ("dya", 'ぢ', 'ゃ'),
    ("dyi", 'ぢ', 'ぃ'), ("dyu", 'ぢ', 'ゅ'), ("dye", 'ぢ', 'ぇ'), ("dyo", 'ぢ', 'ょ'),
    ("bya", 'び', 'ゃ'), ("byi", 'び', 'ぃ'), ("byu", 'び', 'ゅ'), ("bye", 'び', 'ぇ'),
    ("byo", 'び', 'ょ'), ("pya", 'ぴ', 'ゃ'), ("pyi", 'ぴ', 'ぃ'), ("pyu", 'ぴ', 'ゅ'),
    ("pye", 'ぴ', 'ぇ'), ("pyo", 'ぴ', 'ょ'), ("fya", 'ふ', 'ゃ'), ("fyi", 'ふ', 'ぃ'),
    ("fyu", 'ふ', 'ゅ'), ("fye", 'ふ', 'ぇ'), ("fyo", 'ふ', 'ょ'), ("vya", 'ゔ', 'ゃ'),
    ("vyi", 'ゔ', 'ぃ'), ("vyu", 'ゔ', 'ゅ'), ("vye", 'ゔ', 'ぇ'), ("vyo", 'ゔ', 'ょ'),
    ("sha", 'し', 'ゃ'), ("shi", 'し', '\0'), ("shu", 'し', 'ゅ'), ("she", 'し', 'ぇ'),
    ("sho", 'し', 'ょ'), ("cha", 'ち', 'ゃ'), ("chi", 'ち', '\0'), ("chu", 'ち', 'ゅ'),
    ("che", 'ち', 'ぇ'), ("cho", 'ち', 'ょ'), ("tsa", 'つ', 'ぁ'), ("tsi", 'つ', 'ぃ'),
    ("tsu", 'つ', '\0'), ("tse", 'つ', 'ぇ'), ("tso", 'つ', 'ぉ'), ("tha", 'て', 'ゃ'),
    ("thi", 'て', 'ぃ'), ("thu", 'て', 'ゅ'), ("the", 'て', 'ぇ'), ("tho", 'て', 'ょ'),
    ("dha", 'で', 'ゃ'), ("dhi", 'で', 'ぃ'), ("dhu", 'で', 'ゅ'), ("dhe", 'で', 'ぇ'),
    ("dho", 'で', 'ょ'), ("twa", 'と', 'ぁ'), ("twi", 'と', 'ぃ'), ("twu", 'と', 'ぅ'),
    ("twe", 'と', 'ぇ'), ("two", 'と', 'ぉ'), ("dwa", 'ど', 'ぁ'), ("dwi", 'ど', 'ぃ'),
    ("dwu", 'ど', 'ぅ'), ("dwe", 'ど', 'ぇ'), ("dwo", 'ど', 'ぉ'), ("kwa", 'く', 'ぁ'),
    ("kwi", 'く', 'ぃ'), ("kwu", 'く', 'ぅ'), ("kwe", 'く', 'ぇ'), ("kwo", 'く', 'ぉ'),
    ("gwa", 'ぐ', 'ぁ'), ("gwi", 'ぐ', 'ぃ'), ("gwu", 'ぐ', 'ぅ'), ("gwe", 'ぐ', 'ぇ'),
    ("gwo", 'ぐ', 'ぉ'), ("wha", 'う', 'ぁ'), ("whi", 'う', 'ぃ'), ("whu", 'う', '\0'),
    ("whe", 'う', 'ぇ'), ("who", 'う', 'ぉ'), ("xa", 'ぁ', '\0'), ("xi", 'ぃ', '\0'),
    ("xu", 'ぅ', '\0'), ("xe", 'ぇ', '\0'), ("xo", 'ぉ', '\0'), ("xya", 'ゃ', '\0'),
    ("xyu", 'ゅ', '\0'), ("xyo", 'ょ', '\0'), ("xtu", 'っ', '\0'), ("xtsu", 'っ', '\0'),
    ("xwa", 'ゎ', '\0'), ("la", 'ぁ', '\0'), ("li", 'ぃ', '\0'), ("lu", 'ぅ', '\0'),
    ("le", 'ぇ', '\0'), ("lo", 'ぉ', '\0'), ("lya", 'ゃ', '\0'), ("lyu", 'ゅ', '\0'),
    ("lyo", 'ょ', '\0'), ("ltu", 'っ', '\0'), ("ltsu", 'っ', '\0'), ("lwa", 'ゎ', '\0'),
    ("nn", 'ん', '\0'), ("n'", 'ん', '\0'), ("xn", 'ん', '\0'), ("-", 'ー', '\0'), (",", '、', '\0'),
    (".", '。', '\0'), ("[", '「', '\0'), ("]", '」', '\0'), ("/", '・', '\0'), ("~", '〜', '\0'),
];

/// The kana that a run of typed keys became, with the keys themselves.
pub struct KanaGroup {
    pub kana: Vec<char>,
    pub raw: String,
}

/// A group as kana and keys.
pub struct GroupView {
    pub kana: Seq<char>,
    pub raw: Seq<char>,
}

impl View for KanaGroup {
    type V = GroupView;

    open spec fn view(&self) -> GroupView {
        GroupView { kana: self.kana@, raw: self.raw@ }
    }
}

/// The kana of a rule.
pub open spec fn rule_kana(rule: (&'static str, char, char)) -> Seq<char> {
    if rule.2 == '\0' {
        seq![rule.1]
    } else {
        seq![rule.1, rule.2]
    }
}

/// Whether a rule is for exactly the keys `keys`.
pub open spec fn rule_for(keys: Seq<char>) -> spec_fn((&'static str, char, char)) -> bool {
    |rule: (&'static str, char, char)| rule.0@ == keys
}

/// Whether a rule is for more keys than `keys`, and begins with them.
pub open spec fn rule_beyond(keys: Seq<char>) -> spec_fn((&'static str, char, char)) -> bool {
    |rule: (&'static str, char, char)| keys.len() < rule.0@.len() && keys.is_prefix_of(rule.0@)
}

/// The kana that `keys` stand for, if they are a whole syllable.
pub open spec fn syllable(keys: Seq<char>) -> Option<Seq<char>> {
    match text::find_first(RULES@, rule_for(keys)) {
        Some(i) => Some(rule_kana(RULES@[i])),
        None => None,
    }
}

/// Whether more keys can still make `keys` a syllable.
pub open spec fn is_open(keys: Seq<char>) -> bool {
    text::find_first(RULES@, rule_beyond(keys)) is Some
}

/// The kana that `keys` can still become, in the order of the rules.
pub open spec fn expansions(keys: Seq<char>) -> Seq<Seq<char>> {
    RULES@.filter(rule_beyond(keys)).map_values(
        |rule: (&'static str, char, char)| rule_kana(rule),
    )
}

/// Whether doubling `c` asks for a small tsu.
pub open spec fn is_consonant(c: char) -> bool {
    'a' <= c <= 'z' && c != 'a' && c != 'i' && c != 'u' && c != 'e' && c != 'o' && c != 'n'
}

/// What the first of `keys` becomes once the keys can no longer be a syllable:
/// `n` before another key is the syllabic n, the first of a doubled consonant
/// is the small tsu, and any other key stands for itself.
pub open spec fn stranded(keys: Seq<char>) -> GroupView
    recommends
        keys.len() > 0,
{
    let kana = if keys[0] == 'n' && keys.len() >= 2 {
        'ん'
    } else if keys.len() >= 2 && keys[0] == keys[1] && is_consonant(keys[0]) {
        'っ'
    } else {
        keys[0]
    };
    GroupView { kana: seq![kana], raw: seq![keys[0]] }
}

/// The groups that `keys` become.
pub open spec fn fed_groups(keys: Seq<char>) -> Seq<GroupView>
    decreases keys.len(),
{
    if keys.len() == 0 {
        Seq::empty()
    } else if syllable(keys) is Some {
        seq![GroupView { kana: syllable(keys)->0, raw: keys }]
    } else if is_open(keys) {
        Seq::empty()
    } else {
        seq![stranded(keys)] + fed_groups(keys.drop_first())
    }
}

/// The keys at the end of `keys` that still wait for more.
pub open spec fn fed_rest(keys: Seq<char>) -> Seq<char>
    decreases keys.len(),
{
    if keys.len() == 0 {
        Seq::empty()
    } else if syllable(keys) is Some {
        Seq::empty()
    } else if is_open(keys) {
        keys
    } else {
        fed_rest(keys.drop_first())
    }
}

/// What waiting keys become when nothing more is typed: a lone `n` is the
/// syllabic n, anything else stands for itself.
pub open spec fn settled_groups(keys: Seq<char>) -> Seq<GroupView> {
    if keys == seq!['n'] {
        seq![GroupView { kana: seq!['ん'], raw: keys }]
    } else {
        Seq::new(keys.len(), |i: int| GroupView { kana: seq![keys[i]], raw: seq![keys[i]] })
    }
}

/// The kana of groups, joined.
pub open spec fn kana_of(groups: Seq<GroupView>) -> Seq<char> {
    text::concat(Seq::new(groups.len(), |i: int| groups[i].kana))
}

/// The keys of groups, joined.
pub open spec fn raw_of(groups: Seq<GroupView>) -> Seq<char> {
    text::concat(Seq::new(groups.len(), |i: int| groups[i].raw))
}

/// No group is without kana.
pub open spec fn visible(groups: Seq<GroupView>) -> bool {
    forall|i: int| 0 <= i < groups.len() ==> (#[trigger] groups[i]).kana.len() > 0
}

/// The keys of one group put before those of others.
proof fn lemma_raw_of_cons(first: GroupView, others: Seq<GroupView>)
    ensures
        raw_of(seq![first] + others) == first.raw + raw_of(others),
{
    let raws = Seq::new(others.len(), |i: int| others[i].raw);
    let all = seq![first] + others;
    assert(Seq::new(all.len(), |i: int| all[i].raw) =~= seq![first.raw] + raws);
    text::lemma_concat_add(seq![first.raw], raws);
    text::lemma_concat_one(first.raw);
}

/// No key is lost: the keys of the groups, and then the keys that still wait,
/// are the keys that were typed. Every group has kana, and keys that still wait
/// can still become kana.
pub proof fn lemma_feeding_keeps_keys(keys: Seq<char>)
    ensures
        raw_of(fed_groups(keys)) + fed_rest(keys) == keys,
        visible(fed_groups(keys)),
        fed_rest(keys).len() > 0 ==> is_open(fed_rest(keys)),
    decreases keys.len(),
{
    if keys.len() == 0 {
        assert(raw_of(fed_groups(keys)) + fed_rest(keys) =~= keys);
    } else if syllable(keys) is Some {
        let one = GroupView { kana: syllable(keys)->0, raw: keys };
        lemma_raw_of_cons(one, Seq::empty());
        assert(fed_groups(keys) =~= seq![one] + Seq::<GroupView>::empty());
        assert(raw_of(fed_groups(keys)) + fed_rest(keys) =~= keys);
    } else if is_open(keys) {
        assert(raw_of(fed_groups(keys)) + fed_rest(keys) =~= keys);
    } else {
        let rest = keys.drop_first();
        lemma_feeding_keeps_keys(rest);
        lemma_raw_of_cons(stranded(keys), fed_groups(rest));
        assert(seq![keys[0]] + (raw_of(fed_groups(rest)) + fed_rest(rest)) =~= keys);
        assert(raw_of(fed_groups(keys)) + fed_rest(keys) =~= seq![keys[0]] + (raw_of(
            fed_groups(rest),
        ) + fed_rest(rest)));
        let groups = fed_groups(keys);
        assert forall|i: int| 0 <= i < groups.len() implies (#[trigger] groups[i]).kana.len() > 0 by {
            if i > 0 {
                assert(groups[i] == fed_groups(rest)[i - 1]);
            }
        }
    }
}

/// Settling loses no key either, and gives every group kana.
pub proof fn lemma_settling_keeps_keys(keys: Seq<char>)
    ensures
        raw_of(settled_groups(keys)) == keys,
        visible(settled_groups(keys)),
    decreases keys.len(),
{
    let groups = settled_groups(keys);
    let raws = Seq::new(groups.len(), |i: int| groups[i].raw);
    if keys == seq!['n'] {
        assert(raws =~= seq![keys]);
        text::lemma_concat_one(keys);
    } else {
        lemma_concat_singletons(keys, raws);
    }
}

/// Single characters, joined.
pub proof fn lemma_concat_singletons(keys: Seq<char>, parts: Seq<Seq<char>>)
    requires
        parts.len() == keys.len(),
        forall|i: int| 0 <= i < parts.len() ==> #[trigger] parts[i] == seq![keys[i]],
    ensures
        text::concat(parts) == keys,
    decreases keys.len(),
{
    if keys.len() > 0 {
        lemma_concat_singletons(keys.drop_last(), parts.drop_last());
        assert(keys.drop_last() + seq![keys.last()] =~= keys);
    } else {
        assert(text::concat(parts) =~= keys);
    }
}

/// What is open stays open when its last key goes, unless nothing is left.
pub proof fn lemma_open_prefix(keys: Seq<char>)
    requires
        keys.len() > 0,
        is_open(keys),
    ensures
        is_open(keys.drop_last()),
{
    text::lemma_find_first(RULES@, rule_beyond(keys));
    let i = text::find_first(RULES@, rule_beyond(keys))->0;
    let rule = RULES@[i];
    assert(rule_beyond(keys)(rule));
    assert(keys.drop_last() =~= rule.0@.subrange(0, keys.len() - 1));
    assert(rule_beyond(keys.drop_last())(RULES@[i]));
    text::lemma_find_first(RULES@, rule_beyond(keys.drop_last()));
}

/// The kana that the keys stand for, if they are a whole syllable.
fn find_syllable(keys: &Vec<char>) -> (kana: Option<Vec<char>>)
    ensures
        text::opt_view(kana) == syllable(keys@),
{
    let typed = text_of(keys, 0, keys.len());
    assert(keys@.subrange(0, keys@.len() as int) =~= keys@);
    let mut i: usize = 0;
    while i < RULES.len()
        invariant
            i <= RULES@.len(),
            typed@ == keys@,
            forall|j: int| 0 <= j < i ==> !rule_for(keys@)(#[trigger] RULES@[j]),
        decreases RULES@.len() - i,
    {
        let rule = RULES[i];
        if text::same_text(rule.0, typed.as_str()) {
            proof {
                text::lemma_find_first_is(RULES@, rule_for(keys@), i as int);
            }
            let mut kana: Vec<char> = Vec::new();
            kana.push(rule.1);
            if rule.2 != '\0' {
                kana.push(rule.2);
            }
            assert(kana@ =~= rule_kana(RULES@[i as int]));
            return Some(kana);
        }
        i = i + 1;
    }
    proof {
        text::lemma_find_first_none(RULES@, rule_for(keys@));
    }
    None
}

/// Whether more keys can still make the keys a syllable.
fn can_grow(keys: &Vec<char>) -> (open: bool)
    ensures
        open == is_open(keys@),
{
    let typed = text_of(keys, 0, keys.len());
    assert(keys@.subrange(0, keys@.len() as int) =~= keys@);
    let mut i: usize = 0;
    while i < RULES.len()
        invariant
            i <= RULES@.len(),
            typed@ == keys@,
            forall|j: int| 0 <= j < i ==> !rule_beyond(keys@)(#[trigger] RULES@[j]),
        decreases RULES@.len() - i,
    {
        let rule = RULES[i];
        if text::begins_with(rule.0, typed.as_str()) && !text::same_text(rule.0, typed.as_str()) {
            proof {
                assert(keys@.len() < rule.0@.len()) by {
                    if keys@.len() == rule.0@.len() {
                        assert(rule.0@ =~= keys@);
                    }
                }
                text::lemma_find_first_is(RULES@, rule_beyond(keys@), i as int);
            }
            return true;
        }
        i = i + 1;
    }
    proof {
        text::lemma_find_first_none(RULES@, rule_beyond(keys@));
    }
    false
}

fn find_stranded(keys: &Vec<char>) -> (group: KanaGroup)
    requires
        keys@.len() > 0,
    ensures
        group@ == stranded(keys@),
{
    let c = keys[0];
    let doubled = keys.len() >= 2 && c == keys[1] && 'a' <= c && c <= 'z' && c != 'a' && c != 'i'
        && c != 'u' && c != 'e' && c != 'o' && c != 'n';
    let kana = if c == 'n' && keys.len() >= 2 {
        'ん'
    } else if doubled {
        'っ'
    } else {
        c
    };
    let mut chars: Vec<char> = Vec::new();
    chars.push(kana);
    let group = KanaGroup { kana: chars, raw: char_text(c) };
    assert(group@.kana =~= stranded(keys@).kana);
    group
}

/// Romaji on its way to kana: the keys that wait for more.
#[derive(Clone, Debug)]
pub struct RomajiConverter {
    pub buffer: Vec<char>,
}

impl View for RomajiConverter {
    type V = Seq<char>;

    open spec fn view(&self) -> Seq<char> {
        self.buffer@
    }
}

impl RomajiConverter {
    /// A converter in which nothing waits.
    pub fn new() -> (converter: Self)
        ensures
            converter@ == Seq::<char>::empty(),
    {
        RomajiConverter { buffer: Vec::new() }
    }

    /// The keys that wait.
    pub fn buffer(&self) -> (keys: String)
        ensures
            keys@ == self@,
    {
        let keys = text_of(&self.buffer, 0, self.buffer.len());
        assert(keys@ =~= self@);
        keys
    }

    /// Whether nothing waits.
    pub fn is_empty(&self) -> (empty: bool)
        ensures
            empty == (self@.len() == 0),
    {
        self.buffer.len() == 0
    }

    /// Type one key. The groups that it completes come out, and the keys that
    /// still wait for more stay.
    pub fn push(&mut self, key: char) -> (groups: Vec<KanaGroup>)
        ensures
            text::views(groups@) == fed_groups(old(self)@.push(key)),
            final(self)@ == fed_rest(old(self)@.push(key)),
    {
        self.buffer.push(key);
        let ghost keys = self@;
        let mut groups: Vec<KanaGroup> = Vec::new();
        while self.buffer.len() > 0
            invariant
                fed_groups(keys) == text::views(groups@) + fed_groups(self@),
                fed_rest(keys) == fed_rest(self@),
                keys == old(self)@.push(key),
            ensures
                fed_groups(keys) == text::views(groups@),
                fed_rest(keys) == self@,
            decreases self.buffer@.len(),
        {
            let ghost before = text::views(groups@);
            match find_syllable(&self.buffer) {
                Some(kana) => {
                    let group = KanaGroup { kana, raw: self.buffer() };
                    groups.push(group);
                    assert(text::views(groups@) =~= before.push(group@));
                    assert(text::views(groups@) =~= before + fed_groups(self@));
                    self.buffer.clear();
                    break;
                },
                None => {},
            }
            if can_grow(&self.buffer) {
                assert(fed_groups(self@) =~= Seq::<GroupView>::empty());
                assert(before + fed_groups(self@) =~= before);
                break;
            }
            let group = find_stranded(&self.buffer);
            groups.push(group);
            let ghost was = self@;
            self.buffer.remove(0);
            assert(self@ =~= was.drop_first());
            assert(text::views(groups@) =~= before.push(stranded(was)));
            assert(before + (seq![stranded(was)] + fed_groups(self@)) =~= text::views(groups@)
                + fed_groups(self@));
        }
        groups
    }

    /// What the waiting keys become when nothing more is typed.
    pub fn settle(&self) -> (groups: Vec<KanaGroup>)
        ensures
            text::views(groups@) == settled_groups(self@),
    {
        let mut groups: Vec<KanaGroup> = Vec::new();
        if self.buffer.len() == 1 && self.buffer[0] == 'n' {
            let mut kana: Vec<char> = Vec::new();
            kana.push('ん');
            groups.push(KanaGroup { kana, raw: self.buffer() });
            assert(self@ =~= seq!['n']);
            assert(groups@[0]@.kana =~= seq!['ん']);
            assert(text::views(groups@) =~= settled_groups(self@));
            return groups;
        }
        assert(self@ != seq!['n']);
        for i in 0..self.buffer.len()
            invariant
                groups@.len() == i,
                forall|j: int|
                    0 <= j < i ==> (#[trigger] groups@[j])@ == (GroupView {
                        kana: seq![self@[j]],
                        raw: seq![self@[j]],
                    }),
        {
            let mut kana: Vec<char> = Vec::new();
            kana.push(self.buffer[i]);
            let group = KanaGroup { kana, raw: char_text(self.buffer[i]) };
            assert(group@.kana =~= seq![self@[i as int]]);
            groups.push(group);
        }
        assert(text::views(groups@) =~= settled_groups(self@));
        groups
    }

    /// The kana that the waiting keys become when nothing more is typed.
    pub fn settled_kana(&self) -> (kana: String)
        ensures
            kana@ == kana_of(settled_groups(self@)),
    {
        let groups = self.settle();
        let ghost all = settled_groups(self@);
        let ghost parts = Seq::new(all.len(), |i: int| all[i].kana);
        let mut kana = String::new();
        assert(parts.take(0) =~= Seq::<Seq<char>>::empty());
        for i in 0..groups.len()
            invariant
                all == text::views(groups@),
                parts == Seq::new(all.len(), |i: int| all[i].kana),
                kana@ == text::concat(parts.take(i as int)),
        {
            let part = text_of(&groups[i].kana, 0, groups[i].kana.len());
            assert(part@ =~= parts[i as int]);
            text::append(&mut kana, part.as_str());
            assert(parts.take(i + 1).drop_last() =~= parts.take(i as int));
        }
        assert(parts.take(parts.len() as int) =~= parts);
        kana
    }

    /// Take back the last waiting key.
    pub fn backspace(&mut self)
        ensures
            final(self)@ == if old(self)@.len() == 0 {
                old(self)@
            } else {
                old(self)@.drop_last()
            },
    {
        self.buffer.pop();
        assert(old(self)@.len() > 0 ==> self@ =~= old(self)@.drop_last());
    }

    /// Forget the waiting keys.
    pub fn reset(&mut self)
        ensures
            final(self)@ == Seq::<char>::empty(),
    {
        self.buffer.clear();
    }

    /// The kana that the keys `pending` can still become, in the order of the
    /// rules.
    pub fn pending_expansions(&self, pending: &str) -> (kana: Vec<String>)
        ensures
            text::views(kana@) == expansions(pending@),
    {
        let mut kana: Vec<String> = Vec::new();
        let ghost beyond = rule_beyond(pending@);
        let ghost to_kana = |rule: (&'static str, char, char)| rule_kana(rule);
        let mut i: usize = 0;
        assert(text::views(kana@) =~= RULES@.take(0).filter(beyond).map_values(to_kana)) by {
            reveal(Seq::filter);
        }
        while i < RULES.len()
            invariant
                i <= RULES@.len(),
                beyond == rule_beyond(pending@),
                to_kana == (|rule: (&'static str, char, char)| rule_kana(rule)),
                text::views(kana@) == RULES@.take(i as int).filter(beyond).map_values(to_kana),
            decreases RULES@.len() - i,
        {
            let rule = RULES[i];
            let ghost before = text::views(kana@);
            let ghost grown = RULES@.take(i + 1);
            assert(grown.drop_last() =~= RULES@.take(i as int));
            reveal(Seq::filter);
            if text::begins_with(rule.0, pending) && !text::same_text(rule.0, pending) {
                assert(beyond(grown.last())) by {
                    if pending@.len() == rule.0@.len() {
                        assert(rule.0@ =~= pending@);
                    }
                }
                let mut one = String::new();
                one.push(rule.1);
                if rule.2 != '\0' {
                    one.push(rule.2);
                }
                assert(one@ =~= rule_kana(rule));
                kana.push(one);
                assert(text::views(kana@) =~= before.push(one@));
                assert(grown.filter(beyond).map_values(to_kana) =~= before.push(one@));
            } else {
                assert(!beyond(grown.last()));
            }
            i = i + 1;
        }
        assert(RULES@.take(i as int) =~= RULES@);
        assert(text::views(kana@) =~= expansions(pending@));
        kana
    }
}

} // verus!
