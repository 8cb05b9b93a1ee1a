//! Dictionaries, the learning history, and candidate lists.

use karukan_im::candidate::{
    any_has_text, date_insert_index, width_annotation, AnnotatedCandidate, Candidate,
    CandidateBuilder, CandidateList, CandidateSource,
};
use karukan_im::engine::InputMethodEngine;
use karukan_im::key::{KeyEvent, Keysym, Modifiers};
use karukan_im::lexicon::{Dictionary, Entry, LearningCache, TailConstraint};
use karukan_im::lookup::{MAX_LEARNING_CANDIDATES, MIN_PREDICTIVE_PREFIX_CHARS};
use karukan_im::outside::{ReadingAnswer, RewriteOutput};
use karukan_im::state::LearningLookup;

fn entries(pairs: &[(&str, &str)]) -> Vec<Entry> {
    pairs
        .iter()
        .map(|(reading, surface)| Entry {
            reading: reading.to_string(),
            surface: surface.to_string(),
        })
        .collect()
}

fn type_on(engine: &mut InputMethodEngine, keys: &str) {
    for c in keys.chars() {
        engine.process_key(&KeyEvent {
            keysym: Keysym::Character(c),
            modifiers: Modifiers { shift_key: false, control_key: false, alt_key: false },
        });
    }
}

fn engine() -> InputMethodEngine {
    let mut engine = InputMethodEngine::new();
    engine.dicts.user = Some(Dictionary::new(entries(&[
        ("わせ", "早生"),
        ("わせだ", "早稲田"),
    ])));
    engine.dicts.system = Some(Dictionary::new(entries(&[
        ("わせ", "早稲"),
        ("わせ", "早生"),
        ("わせり", "和芹"),
        ("わせだだい", "早大"),
        ("わせだ", "早稲田"),
        ("わせでん", "早電"),
    ])));
    engine
}

fn found(candidates: &[AnnotatedCandidate]) -> Vec<(String, CandidateSource, Option<String>)> {
    candidates.iter().map(|c| (c.text.clone(), c.source, c.reading.clone())).collect()
}

fn word(text: &str, source: CandidateSource, reading: Option<&str>) -> (String, CandidateSource, Option<String>) {
    (text.to_string(), source, reading.map(|r| r.to_string()))
}

const USER: CandidateSource = CandidateSource::UserDictionary;
const SYSTEM: CandidateSource = CandidateSource::Dictionary;

#[test]
fn dictionary_search_gives_exact_words_and_then_predictions() {
    let words = engine().search_dictionaries("わせ", "", 100, 100, 2, None);
    assert_eq!(
        found(&words),
        vec![
            word("早生", USER, None),
            word("早稲", SYSTEM, None),
            word("早稲田", USER, Some("わせだ")),
            word("和芹", SYSTEM, Some("わせり")),
            word("早大", SYSTEM, Some("わせだだい")),
            word("早電", SYSTEM, Some("わせでん")),
        ]
    );
}

#[test]
fn dictionary_search_is_narrowed_by_the_romaji_tail() {
    let words = engine().search_dictionaries("わせ", "d", 100, 100, 2, None);
    assert_eq!(
        found(&words),
        vec![
            word("早稲田", USER, Some("わせだ")),
            word("早大", SYSTEM, Some("わせだだい")),
            word("早電", SYSTEM, Some("わせでん")),
        ]
    );
    assert!(engine().search_dictionaries("わせ", "yk", 100, 100, 2, None).is_empty());
}

#[test]
fn dictionary_search_keeps_its_limits() {
    let words = engine().search_dictionaries("わせ", "", 3, 100, 2, None);
    assert_eq!(words.len(), 3);
    let words = engine().search_dictionaries("わせ", "", 100, 2, 2, None);
    assert_eq!(words.len(), 4);
    let words = engine().search_dictionaries("わせ", "", 100, 0, 2, None);
    assert_eq!(words.len(), 2);
    let words = engine().search_dictionaries("わ", "", 100, 100, MIN_PREDICTIVE_PREFIX_CHARS, None);
    assert!(words.is_empty());
}

#[test]
fn narrowed_search_shows_shared_words() {
    let words = engine().search_dictionaries("わせ", "", 100, 100, 2, Some(SYSTEM));
    assert_eq!(
        found(&words),
        vec![
            word("早稲", SYSTEM, None),
            word("早生", SYSTEM, None),
            word("和芹", SYSTEM, Some("わせり")),
            word("早大", SYSTEM, Some("わせだだい")),
            word("早稲田", SYSTEM, Some("わせだ")),
            word("早電", SYSTEM, Some("わせでん")),
        ]
    );
    let words = engine().search_dictionaries("わせ", "", 100, 100, 2, Some(USER));
    assert_eq!(
        found(&words),
        vec![word("早生", USER, None), word("早稲田", USER, Some("わせだ"))]
    );
    assert!(engine()
        .search_dictionaries("わせ", "", 100, 100, 2, Some(CandidateSource::Model))
        .is_empty());
}

#[test]
fn suggestions_of_the_dictionaries_are_few() {
    let mut engine = engine();
    type_on(&mut engine, "wase");
    let words: Vec<String> =
        engine.lookup_dict_candidates("わせ").into_iter().map(|c| c.text).collect();
    assert_eq!(words, vec!["早生", "早稲", "早稲田", "和芹", "早大"]);
}

#[test]
fn tail_constraint_of_waiting_keys() {
    let engine = InputMethodEngine::new();
    assert!(matches!(engine.tail_constraint(""), TailConstraint::Unconstrained));
    assert!(matches!(engine.tail_constraint("yk"), TailConstraint::Dead));
    match engine.tail_constraint("d") {
        TailConstraint::Narrow(kana) => assert!(kana.contains(&"だ".to_string())),
        _ => panic!("d can become kana"),
    }
}

#[test]
fn history_gives_exact_words_first_and_each_word_once() {
    let mut engine = InputMethodEngine::new();
    assert!(engine.lookup_learning_candidates("かん").is_empty());
    engine.learning = Some(LearningCache::new(entries(&[
        ("かんじ", "漢字"),
        ("かん", "缶"),
        ("かんづめ", "缶"),
        ("かん", "勘"),
        ("かんだ", "神田"),
    ])));
    let words: Vec<(String, Option<String>)> = engine
        .lookup_learning_history("かん", "")
        .into_iter()
        .map(|c| (c.text, c.reading))
        .collect();
    let expected = [("缶", "かん"), ("勘", "かん"), ("漢字", "かんじ"), ("神田", "かんだ")];
    assert_eq!(
        words,
        expected
            .iter()
            .map(|(text, reading)| (text.to_string(), Some(reading.to_string())))
            .collect::<Vec<_>>()
    );
    assert_eq!(engine.lookup_learning_candidates("かん").len(), MAX_LEARNING_CANDIDATES);
    let narrowed: Vec<String> =
        engine.lookup_learning_history("かん", "d").into_iter().map(|c| c.text).collect();
    assert_eq!(narrowed, vec!["缶", "神田"]);
    assert!(engine.lookup_learning_history("かん", "yk").is_empty());
    let exact: Vec<String> =
        engine.lookup_learning_candidates_exact("かん").into_iter().map(|c| c.text).collect();
    assert_eq!(exact, vec!["缶", "勘"]);
}

#[test]
fn recording_and_removing() {
    let mut cache = LearningCache::new(vec![]);
    cache.record("かん", "缶");
    cache.record("かん", "勘");
    cache.record("かん", "缶");
    assert_eq!(cache.lookup("かん"), vec!["缶", "勘"]);
    assert_eq!(cache.entries.len(), 2);
    assert!(!cache.remove_suggestion("き", "缶"));
    assert!(cache.remove_suggestion("か", "缶"));
    assert_eq!(cache.lookup("かん"), vec!["勘"]);
    assert!(cache.lookup("か").is_empty());
    assert_eq!(cache.prefix_lookup("か", &TailConstraint::Unconstrained).len(), 1);
    assert!(cache.prefix_lookup("かん", &TailConstraint::Unconstrained).is_empty());
}

#[test]
fn rewriter_variants_of_a_reading() {
    let mut engine = InputMethodEngine::new();
    engine.outside.readings.push(ReadingAnswer {
        reading: "「".to_string(),
        chunk_breaks: vec![],
        model: vec![],
        rewrites: vec![RewriteOutput {
            text: "『".to_string(),
            description: Some("二重鉤括弧".to_string()),
        }],
        emoji: vec![],
    });
    let variants = engine.lookup_rewriter_variants("「");
    assert_eq!(variants.len(), 1);
    assert_eq!(variants[0].text, "『");
    assert_eq!(variants[0].reading, Some("「".to_string()));
    assert_eq!(variants[0].source, Some(CandidateSource::Rewriter));
    assert_eq!(variants[0].description, Some("二重鉤括弧".to_string()));
    assert!(engine.lookup_rewriter_variants("」").is_empty());
}

#[test]
fn conversion_list_is_uncapped_and_without_duplicates() {
    let mut engine = engine();
    let candidates =
        engine.build_conversion_candidates("わせ", "わせ", "", 9, LearningLookup::Use);
    let texts: Vec<String> = candidates.iter().map(|c| c.text.clone()).collect();
    assert_eq!(
        texts,
        vec!["早生", "早稲田", "早稲", "和芹", "早大", "早電", "わせ", "ワセ"]
    );
    for text in &texts {
        assert_eq!(texts.iter().filter(|t| *t == text).count(), 1);
    }
}

#[test]
fn segment_candidates_do_not_go_beyond_the_reading() {
    let mut engine = engine();
    let texts: Vec<String> = engine
        .build_segment_conversion_candidates("わせ")
        .into_iter()
        .map(|c| c.text)
        .collect();
    assert_eq!(texts, vec!["早生", "早稲", "わせ", "ワセ"]);
}

#[test]
fn builder_drops_duplicates_unless_forced() {
    let mut builder = CandidateBuilder::new();
    assert!(builder.is_empty());
    let of = |text: &str, source| AnnotatedCandidate::new(text.to_string(), source);
    builder.push_force(of("a", CandidateSource::Learning));
    builder.push_force(of("a", CandidateSource::Learning));
    builder.push(of("a", CandidateSource::Model));
    builder.push(of("b", CandidateSource::Model));
    let candidates = builder.into_candidates();
    let texts: Vec<&str> = candidates.iter().map(|c| c.text.as_str()).collect();
    assert_eq!(texts, vec!["a", "a", "b"]);
    assert!(any_has_text(&candidates, "b"));
    assert!(!any_has_text(&candidates, "c"));
}

#[test]
fn place_of_dates() {
    let of = |source| AnnotatedCandidate::new("x".to_string(), source);
    assert_eq!(date_insert_index(&vec![]), 0);
    assert_eq!(date_insert_index(&vec![of(CandidateSource::Fallback), of(CandidateSource::Dictionary)]), 1);
    assert_eq!(
        date_insert_index(&vec![
            of(CandidateSource::Learning),
            of(CandidateSource::Model),
            of(CandidateSource::Model)
        ]),
        2
    );
}

#[test]
fn script_labels() {
    assert_eq!(width_annotation("あー"), Some("[全]ひらがな"));
    assert_eq!(width_annotation("アー"), Some("[全]カタカナ"));
    assert_eq!(width_annotation("ｱ"), Some("[半]カタカナ"));
    assert_eq!(width_annotation("ｶﾞｰ"), Some("[半]カタカナ"));
    assert_eq!(width_annotation("ｱア"), None);
    assert_eq!(width_annotation("ｱ｡"), None);
    assert_eq!(width_annotation("あ亜"), None);
    assert_eq!(width_annotation(""), None);
}

fn list_of(n: usize) -> CandidateList {
    CandidateList::new(
        (0..n)
            .map(|i| Candidate {
                text: format!("{}", i),
                reading: None,
                source: None,
                description: None,
            })
            .collect(),
    )
}

#[test]
fn list_navigation_goes_round_and_back() {
    let mut list = list_of(3);
    for expected in [1, 2, 0] {
        list.move_next();
        assert_eq!(list.cursor(), expected);
    }
    for expected in [2, 1, 0] {
        list.move_prev();
        assert_eq!(list.cursor(), expected);
    }
}

#[test]
fn list_pages() {
    let mut list = list_of(19);
    assert_eq!((list.page(), list.pages()), (1, 3));
    list.set_cursor(13);
    assert_eq!(list.page(), 2);
    assert!(list.next_page());
    assert_eq!(list.cursor(), 18);
    assert!(!list.next_page());
    assert!(list.prev_page());
    assert_eq!(list.cursor(), 9);
    list.set_cursor(100);
    assert_eq!(list.cursor(), 18);
    assert_eq!(list_of(0).pages(), 1);
    assert_eq!(list_of(9).pages(), 1);
    assert_eq!(list_of(10).pages(), 2);
}

#[test]
fn list_selection() {
    let mut list = list_of(3);
    assert!(list.select(2));
    assert!(!list.select(3));
    assert_eq!(list.selected().unwrap().text, "2");
    assert!(list.select_text("1"));
    assert!(!list.select_text("7"));
    assert_eq!(list.cursor(), 1);
    assert!(list_of(0).selected().is_none());
    assert_eq!(list_of(0).selected_text_or("x"), "x");
}
