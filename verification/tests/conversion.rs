//! Conversions: starting, moving, committing, and their parts.

use karukan_im::action::{EngineAction, EngineResult};
use karukan_im::candidate::CandidateSource;
use karukan_im::engine::InputMethodEngine;
use karukan_im::key::{KeyEvent, Keysym, Modifiers};
use karukan_im::lexicon::{Dictionary, Entry, LearningCache};
use karukan_im::outside::{DateAnswer, ReadingAnswer, RewriteOutput, SymbolName};
use karukan_im::state::{CharWidth, FilterDirection, InputMode, InputState, LearningLookup};

fn key(keysym: Keysym) -> KeyEvent {
    KeyEvent {
        keysym,
        modifiers: Modifiers { shift_key: false, control_key: false, alt_key: false },
    }
}

fn with(keysym: Keysym, shift_key: bool, control_key: bool, alt_key: bool) -> KeyEvent {
    KeyEvent { keysym, modifiers: Modifiers { shift_key, control_key, alt_key } }
}

fn press(engine: &mut InputMethodEngine, keysym: Keysym) -> EngineResult {
    engine.process_key(&key(keysym))
}

fn press_shift(engine: &mut InputMethodEngine, keysym: Keysym) -> EngineResult {
    engine.process_key(&with(keysym, true, false, false))
}

fn press_control(engine: &mut InputMethodEngine, c: char) -> EngineResult {
    engine.process_key(&with(Keysym::Character(c), false, true, false))
}

fn type_on(engine: &mut InputMethodEngine, keys: &str) {
    for c in keys.chars() {
        press(engine, Keysym::Character(c));
    }
}

fn entry(reading: &str, surface: &str) -> Entry {
    Entry { reading: reading.to_string(), surface: surface.to_string() }
}

fn entries(pairs: &[(&str, &str)]) -> Vec<Entry> {
    pairs.iter().map(|(reading, surface)| entry(reading, surface)).collect()
}

fn answer(reading: &str, model: &[&str]) -> ReadingAnswer {
    ReadingAnswer {
        reading: reading.to_string(),
        chunk_breaks: vec![],
        model: model.iter().map(|text| text.to_string()).collect(),
        rewrites: vec![],
        emoji: vec![],
    }
}

fn output(text: &str, description: Option<&str>) -> RewriteOutput {
    RewriteOutput { text: text.to_string(), description: description.map(|d| d.to_string()) }
}

fn engine_with(pairs: &[(&str, &str)]) -> InputMethodEngine {
    let mut engine = InputMethodEngine::new();
    engine.dicts.system = Some(Dictionary::new(entries(pairs)));
    engine.learning = Some(LearningCache::new(vec![]));
    engine
}

fn texts(engine: &InputMethodEngine) -> Vec<String> {
    match engine.state().candidates() {
        Some(list) => list.candidates().iter().map(|c| c.text.clone()).collect(),
        None => vec![],
    }
}

fn sources(engine: &InputMethodEngine) -> Vec<CandidateSource> {
    match engine.state().candidates() {
        Some(list) => list.candidates().iter().map(|c| c.source.unwrap()).collect(),
        None => vec![],
    }
}

fn shown(engine: &InputMethodEngine) -> String {
    engine.preedit().unwrap().text()
}

fn selected(engine: &InputMethodEngine) -> String {
    engine.selected_conversion_info().unwrap().0
}

fn committed(result: &EngineResult) -> Option<String> {
    for action in &result.actions {
        if let EngineAction::Commit(text) = action {
            return Some(text.clone());
        }
    }
    None
}

fn aux(result: &EngineResult) -> Option<String> {
    for action in &result.actions {
        if let EngineAction::UpdateAuxText(text) = action {
            return Some(text.clone());
        }
    }
    None
}

fn history(engine: &InputMethodEngine) -> Vec<(String, String)> {
    match &engine.learning {
        Some(cache) => {
            cache.entries.iter().map(|e| (e.reading.clone(), e.surface.clone())).collect()
        }
        None => vec![],
    }
}

fn pair(reading: &str, surface: &str) -> (String, String) {
    (reading.to_string(), surface.to_string())
}

#[test]
fn candidates_come_in_priority_order() {
    let mut engine = engine_with(&[("かんじ", "幹事"), ("かんじょう", "感情")]);
    engine.dicts.user = Some(Dictionary::new(entries(&[("かんじ", "莞爾")])));
    engine.learning = Some(LearningCache::new(entries(&[("かんじ", "監事")])));
    let mut found = answer("かんじ", &["漢字", "感じ", "幹事"]);
    found.rewrites = vec![output("ｶﾝｼﾞ", Some("[半]カタカナ"))];
    engine.outside.readings.push(found);
    type_on(&mut engine, "kanji");
    press(&mut engine, Keysym::SPACE);
    assert_eq!(
        texts(&engine),
        vec!["監事", "莞爾", "漢字", "感じ", "幹事", "感情", "かんじ", "カンジ", "ｶﾝｼﾞ"]
    );
    assert_eq!(
        sources(&engine),
        vec![
            CandidateSource::Learning,
            CandidateSource::UserDictionary,
            CandidateSource::Model,
            CandidateSource::Model,
            CandidateSource::Model,
            CandidateSource::Dictionary,
            CandidateSource::Fallback,
            CandidateSource::Fallback,
            CandidateSource::Rewriter,
        ]
    );
}

#[test]
fn reading_stands_in_for_a_model_without_answer() {
    let mut engine = engine_with(&[("かんじ", "幹事")]);
    type_on(&mut engine, "kanji");
    press(&mut engine, Keysym::SPACE);
    assert_eq!(texts(&engine), vec!["かんじ", "幹事", "カンジ"]);
    assert_eq!(engine.requested, vec!["かんじ".to_string()]);
}

#[test]
fn answered_reading_is_not_requested() {
    let mut engine = engine_with(&[]);
    engine.outside.readings.push(answer("かんじ", &["漢字"]));
    type_on(&mut engine, "kanji");
    press(&mut engine, Keysym::SPACE);
    assert!(engine.requested.is_empty());
    assert_eq!(texts(&engine), vec!["漢字", "かんじ", "カンジ"]);
}

#[test]
fn model_candidates_are_capped() {
    let mut engine = engine_with(&[]);
    engine.config.num_candidates = 1;
    engine.outside.readings.push(answer("かんじ", &["漢字", "感じ"]));
    type_on(&mut engine, "kanji");
    press(&mut engine, Keysym::SPACE);
    assert_eq!(texts(&engine), vec!["漢字", "かんじ", "カンジ"]);
}

#[test]
fn descriptions_are_filled_in() {
    let mut engine = engine_with(&[]);
    engine.outside.symbols.push(SymbolName { symbol: "「".to_string(), name: "始め鉤括弧".to_string() });
    engine.outside.readings.push(answer("あ", &["亜", "ア"]));
    type_on(&mut engine, "a");
    press(&mut engine, Keysym::SPACE);
    let described: Vec<Option<String>> = engine
        .state()
        .candidates()
        .unwrap()
        .candidates()
        .iter()
        .map(|c| c.description.clone())
        .collect();
    assert_eq!(
        described,
        vec![None, Some("[全]カタカナ".to_string()), Some("[全]ひらがな".to_string())]
    );

    let mut engine = engine_with(&[]);
    engine.outside.symbols.push(SymbolName { symbol: "%".to_string(), name: "百分率".to_string() });
    type_on(&mut engine, "%");
    press(&mut engine, Keysym::SPACE);
    let first = engine.state().candidates().unwrap().candidates()[0].clone();
    assert_eq!(first.text, "%");
    assert_eq!(first.description, Some("百分率".to_string()));
}

#[test]
fn dates_stand_after_the_first_of_the_model_and_are_not_learned() {
    let mut engine = engine_with(&[]);
    engine.config.date_conversion = true;
    engine.config.date_formats = vec!["%Y/%m/%d".to_string()];
    engine.outside.readings.push(answer("きょう", &["今日", "京"]));
    engine.outside.dates.push(DateAnswer {
        reading: "きょう".to_string(),
        dates: vec![output("2026/11/16", Some("日付")), output("京", None)],
    });
    type_on(&mut engine, "kyou");
    press(&mut engine, Keysym::SPACE);
    assert_eq!(texts(&engine), vec!["今日", "2026/11/16", "京", "きょう", "キョウ"]);
    assert_eq!(sources(&engine)[1], CandidateSource::Date);
    assert!(engine.is_date_surface("きょう", "2026/11/16"));
    press(&mut engine, Keysym::SPACE);
    let result = press(&mut engine, Keysym::RETURN);
    assert_eq!(committed(&result), Some("2026/11/16".to_string()));
    assert!(history(&engine).is_empty());
}

#[test]
fn dates_are_left_out_where_they_are_not_configured() {
    let mut engine = engine_with(&[]);
    engine.config.date_conversion = true;
    engine.outside.readings.push(answer("きょう", &["今日"]));
    engine.outside.dates.push(DateAnswer {
        reading: "きょう".to_string(),
        dates: vec![output("2026/11/16", None)],
    });
    type_on(&mut engine, "kyou");
    press(&mut engine, Keysym::SPACE);
    assert_eq!(texts(&engine), vec!["今日", "きょう", "キョウ"]);
    assert!(!engine.is_date_surface("きょう", "2026/11/16"));
}

#[test]
fn emoji_mode_offers_emoji_alone_and_learns_nothing() {
    let mut engine = engine_with(&[]);
    let mut found = answer(":smile", &[]);
    found.emoji = vec![output("😄", Some("smile"))];
    found.rewrites = vec![output("：ｓｍｉｌｅ", None)];
    engine.outside.readings.push(found);
    engine.set_input_mode(InputMode::Emoji);
    type_on(&mut engine, ":smile");
    press(&mut engine, Keysym::SPACE);
    assert_eq!(texts(&engine), vec!["😄"]);
    let result = press(&mut engine, Keysym::RETURN);
    assert_eq!(committed(&result), Some("😄".to_string()));
    assert!(history(&engine).is_empty());
    assert_eq!(engine.input_mode, InputMode::Hiragana);
}

#[test]
fn emoji_query_without_match_stays_composing() {
    let mut engine = engine_with(&[]);
    engine.set_input_mode(InputMode::Emoji);
    type_on(&mut engine, ":zzz");
    let result = press(&mut engine, Keysym::SPACE);
    assert!(result.consumed);
    assert!(matches!(engine.state(), InputState::Composing { .. }));
    assert_eq!(shown(&engine), ":zzz");
}

#[test]
fn escape_returns_to_the_composition_with_its_waiting_keys() {
    let mut engine = engine_with(&[("かん", "缶")]);
    type_on(&mut engine, "kan");
    press(&mut engine, Keysym::SPACE);
    assert_eq!(engine.state().reading(), Some("かん".to_string()));
    press(&mut engine, Keysym::ESCAPE);
    assert!(matches!(engine.state(), InputState::Composing { .. }));
    assert_eq!(shown(&engine), "かn");
    type_on(&mut engine, "a");
    assert_eq!(shown(&engine), "かな");
}

#[test]
fn backspace_cancels_like_escape() {
    let mut engine = engine_with(&[]);
    type_on(&mut engine, "kana");
    press(&mut engine, Keysym::SPACE);
    press(&mut engine, Keysym::BACKSPACE);
    assert_eq!(shown(&engine), "かな");
    assert!(matches!(engine.state(), InputState::Composing { .. }));
}

#[test]
fn commit_learns_the_selection_first() {
    let mut engine = engine_with(&[]);
    engine.learning = Some(LearningCache::new(entries(&[("かんじ", "監事")])));
    engine.outside.readings.push(answer("かんじ", &["漢字"]));
    type_on(&mut engine, "kanji");
    press(&mut engine, Keysym::SPACE);
    press(&mut engine, Keysym::SPACE);
    let result = press(&mut engine, Keysym::RETURN);
    assert_eq!(committed(&result), Some("漢字".to_string()));
    assert_eq!(history(&engine), vec![pair("かんじ", "漢字"), pair("かんじ", "監事")]);
    assert!(matches!(engine.state(), InputState::Empty));
}

#[test]
fn predicted_word_is_learned_under_its_own_reading() {
    let mut engine = engine_with(&[("わせだだいがく", "早稲田大学"), ("わせり", "早生り")]);
    type_on(&mut engine, "wased");
    press(&mut engine, Keysym::SPACE);
    assert_eq!(texts(&engine), vec!["わせd", "早稲田大学", "ワセd"]);
    press(&mut engine, Keysym::DOWN);
    press(&mut engine, Keysym::RETURN);
    assert_eq!(history(&engine), vec![pair("わせだだいがく", "早稲田大学")]);
}

#[test]
fn tab_converts_without_the_history() {
    let mut engine = engine_with(&[]);
    engine.learning = Some(LearningCache::new(entries(&[("かんじ", "監事")])));
    type_on(&mut engine, "kanji");
    press(&mut engine, Keysym::TAB);
    assert_eq!(texts(&engine), vec!["かんじ", "カンジ"]);
}

#[test]
fn navigation_wraps_and_pages() {
    let mut engine = engine_with(&[]);
    let model: Vec<String> = (0..11).map(|i| format!("候補{}", i)).collect();
    let model: Vec<&str> = model.iter().map(|s| s.as_str()).collect();
    engine.config.num_candidates = 11;
    engine.outside.readings.push(answer("か", &model));
    type_on(&mut engine, "ka");
    let result = press(&mut engine, Keysym::SPACE);
    assert_eq!(aux(&result), Some("か 1/2".to_string()));
    press(&mut engine, Keysym::UP);
    assert_eq!(selected(&engine), "カ");
    press(&mut engine, Keysym::DOWN);
    assert_eq!(selected(&engine), "候補0");
    let result = press(&mut engine, Keysym::PAGE_DOWN);
    assert_eq!(selected(&engine), "候補9");
    assert_eq!(aux(&result), Some("か 2/2".to_string()));
    press(&mut engine, Keysym::PAGE_DOWN);
    assert_eq!(selected(&engine), "候補9");
    press(&mut engine, Keysym::PAGE_UP);
    assert_eq!(selected(&engine), "候補0");
    press_control(&mut engine, 'n');
    assert_eq!(selected(&engine), "候補1");
    press_control(&mut engine, 'P');
    assert_eq!(selected(&engine), "候補0");
    press_shift(&mut engine, Keysym::TAB);
    assert_eq!(selected(&engine), "カ");
    press(&mut engine, Keysym::TAB);
    assert_eq!(selected(&engine), "候補0");
}

#[test]
fn digit_with_control_selects_on_the_page() {
    let mut engine = engine_with(&[]);
    engine.outside.readings.push(answer("か", &["火", "蚊"]));
    type_on(&mut engine, "ka");
    press(&mut engine, Keysym::SPACE);
    let out_of_page = press_control(&mut engine, '9');
    assert!(out_of_page.consumed);
    assert!(out_of_page.actions.is_empty());
    let result = press_control(&mut engine, '2');
    assert_eq!(committed(&result), Some("蚊".to_string()));
}

#[test]
fn select_candidate_on_page_commits_and_measures() {
    let mut engine = engine_with(&[]);
    engine.metrics.conversion_ms = 7;
    assert!(!engine.select_candidate_on_page(0).consumed);
    assert_eq!(engine.metrics.conversion_ms, 0);
    engine.outside.readings.push(answer("か", &["火", "蚊"]));
    type_on(&mut engine, "ka");
    assert!(!engine.select_candidate_on_page(0).consumed);
    press(&mut engine, Keysym::SPACE);
    engine.metrics.process_key_ms = u64::MAX;
    let result = engine.select_candidate_on_page(1);
    assert_eq!(committed(&result), Some("蚊".to_string()));
    assert!(engine.metrics.process_key_ms < 20_000);
}

#[test]
fn typing_commits_and_continues() {
    let mut engine = engine_with(&[]);
    engine.outside.readings.push(answer("か", &["火"]));
    type_on(&mut engine, "ka");
    press(&mut engine, Keysym::SPACE);
    let result = press(&mut engine, Keysym::Character('n'));
    assert_eq!(committed(&result), Some("火".to_string()));
    assert!(matches!(engine.state(), InputState::Composing { .. }));
    assert_eq!(shown(&engine), "n");
    assert_eq!(engine.raw_text(), "n");
}

#[test]
fn alt_chords_pass_through_and_other_chords_do_not() {
    let mut engine = engine_with(&[]);
    type_on(&mut engine, "ka");
    press(&mut engine, Keysym::SPACE);
    let before = shown(&engine);
    let alt = engine.process_key(&with(Keysym::RETURN, false, false, true));
    assert!(!alt.consumed);
    assert_eq!(shown(&engine), before);
    assert!(matches!(engine.state(), InputState::Conversion { .. }));
    for c in ['q', 'w', 'x', '0'] {
        let result = press_control(&mut engine, c);
        assert!(result.consumed);
        assert!(result.actions.is_empty());
    }
    assert!(press(&mut engine, Keysym::Other(0xffe1)).consumed);
    assert!(press(&mut engine, Keysym::DELETE).consumed);
    assert_eq!(shown(&engine), before);
}

fn two_parts() -> InputMethodEngine {
    let mut engine = engine_with(&[]);
    engine.outside.readings.push(answer("わたし", &["私", "渡し"]));
    engine.outside.readings.push(answer("です", &["death"]));
    type_on(&mut engine, "watashidesu");
    press(&mut engine, Keysym::LEFT);
    press(&mut engine, Keysym::LEFT);
    press(&mut engine, Keysym::SPACE);
    engine
}

#[test]
fn conversion_before_the_caret_leaves_a_tail() {
    let mut engine = two_parts();
    assert_eq!(engine.state().reading(), Some("わたし".to_string()));
    assert_eq!(engine.conversion_tail, Some("です".to_string()));
    assert_eq!(shown(&engine), "私です");
    assert_eq!(engine.preedit().unwrap().caret(), 1);
    let result = press(&mut engine, Keysym::RETURN);
    assert_eq!(committed(&result), Some("私".to_string()));
    assert!(matches!(engine.state(), InputState::Composing { .. }));
    assert_eq!(shown(&engine), "です");
    assert_eq!(engine.raw_text(), "です");
}

#[test]
fn typing_with_a_tail_goes_on_after_the_tail() {
    let mut engine = two_parts();
    let result = press(&mut engine, Keysym::Character('u'));
    assert_eq!(committed(&result), Some("私".to_string()));
    assert_eq!(engine.raw_text(), "ですu");
    assert_eq!(shown(&engine), "ですう");
}

#[test]
fn advance_and_return_keep_the_selections() {
    let mut engine = two_parts();
    press(&mut engine, Keysym::SPACE);
    assert_eq!(selected(&engine), "渡し");
    press(&mut engine, Keysym::RIGHT);
    assert_eq!(engine.confirmed_segments.len(), 1);
    assert_eq!(engine.state().reading(), Some("です".to_string()));
    assert_eq!(shown(&engine), "渡しdeath");
    press(&mut engine, Keysym::LEFT);
    assert_eq!(selected(&engine), "渡し");
    assert!(engine.confirmed_segments.is_empty());
    assert_eq!(engine.upcoming_segments.len(), 1);
    assert_eq!(shown(&engine), "渡しdeath");
    let result = press(&mut engine, Keysym::RETURN);
    assert_eq!(committed(&result), Some("渡しdeath".to_string()));
    assert_eq!(history(&engine), vec![pair("です", "death"), pair("わたし", "渡し")]);
}

#[test]
fn return_restores_parts_tail_and_display() {
    let mut engine = engine_with(&[]);
    engine.outside.readings.push(answer("わたし", &["私", "渡し"]));
    engine.outside.readings.push(answer("で", &["出", "手"]));
    type_on(&mut engine, "watashidesu");
    press(&mut engine, Keysym::LEFT);
    press(&mut engine, Keysym::LEFT);
    press(&mut engine, Keysym::SPACE);
    press(&mut engine, Keysym::RIGHT);
    press_shift(&mut engine, Keysym::LEFT);
    press(&mut engine, Keysym::SPACE);
    press(&mut engine, Keysym::LEFT);
    assert_eq!(shown(&engine), "私手す");
    assert_eq!(engine.upcoming_segments.len(), 1);
    assert_eq!(engine.conversion_tail, Some("す".to_string()));
    press(&mut engine, Keysym::RIGHT);
    assert_eq!(selected(&engine), "手");
    press(&mut engine, Keysym::LEFT);
    assert_eq!(selected(&engine), "私");
    assert_eq!(shown(&engine), "私手す");
    assert_eq!(engine.upcoming_segments[0].text, "手");
    assert_eq!(engine.upcoming_segments[0].reading, "で");
    assert_eq!(engine.conversion_tail, Some("す".to_string()));
    assert!(engine.confirmed_segments.is_empty());
}

#[test]
fn escape_after_moves_gives_the_composition_back() {
    let mut engine = two_parts();
    press(&mut engine, Keysym::SPACE);
    press(&mut engine, Keysym::RIGHT);
    press_shift(&mut engine, Keysym::LEFT);
    press(&mut engine, Keysym::LEFT);
    press_shift(&mut engine, Keysym::RIGHT);
    press_control(&mut engine, 't');
    let result = press(&mut engine, Keysym::ESCAPE);
    assert!(result.consumed);
    assert_eq!(committed(&result), None);
    assert!(matches!(engine.state(), InputState::Composing { .. }));
    assert_eq!(shown(&engine), "わたしです");
    assert_eq!(engine.raw_text(), "watashidesu");
    assert_eq!(engine.input_buf.cursor_pos, 3);
    assert_eq!(engine.conversion_tail, None);
    assert!(engine.confirmed_segments.is_empty());
    assert!(engine.upcoming_segments.is_empty());
    assert!(history(&engine).is_empty());
}

#[test]
fn page_selection_agrees_with_the_digit_key() {
    let mut by_key = engine_with(&[]);
    by_key.outside.readings.push(answer("か", &["火", "蚊", "課"]));
    type_on(&mut by_key, "ka");
    press(&mut by_key, Keysym::SPACE);
    press(&mut by_key, Keysym::DOWN);
    let mut on_page = by_key.clone();
    let key_result = press_control(&mut by_key, '3');
    let page_result = on_page.select_candidate_on_page(2);
    assert_eq!(committed(&key_result), Some("課".to_string()));
    assert_eq!(committed(&page_result), committed(&key_result));
    assert_eq!(page_result.consumed, key_result.consumed);
    assert_eq!(page_result.actions.len(), key_result.actions.len());
    assert_eq!(history(&on_page), history(&by_key));
    assert!(matches!(on_page.state(), InputState::Empty));
}

#[test]
fn text_of_several_sources_stands_under_the_first() {
    let mut engine = engine_with(&[("かんじ", "漢字"), ("かんじ", "感じ")]);
    engine.dicts.user = Some(Dictionary::new(entries(&[("かんじ", "感じ")])));
    engine.outside.readings.push(answer("かんじ", &["漢字", "感じ", "かんじ"]));
    type_on(&mut engine, "kanji");
    press(&mut engine, Keysym::SPACE);
    assert_eq!(texts(&engine), vec!["感じ", "漢字", "かんじ", "カンジ"]);
    assert_eq!(
        sources(&engine),
        vec![
            CandidateSource::UserDictionary,
            CandidateSource::Model,
            CandidateSource::Model,
            CandidateSource::Fallback,
        ]
    );
}

#[test]
fn half_width_katakana_is_labelled() {
    let mut engine = engine_with(&[]);
    let mut found = answer("あ", &[]);
    found.rewrites = vec![output("ｱ", None)];
    engine.outside.readings.push(found);
    type_on(&mut engine, "a");
    press(&mut engine, Keysym::SPACE);
    let list = engine.state().candidates().unwrap().candidates().clone();
    assert_eq!(list[2].text, "ｱ");
    assert_eq!(list[2].description, Some("[半]カタカナ".to_string()));
}

#[test]
fn part_keys_do_nothing_at_the_ends() {
    let mut engine = engine_with(&[]);
    type_on(&mut engine, "a");
    press(&mut engine, Keysym::SPACE);
    for keysym in [Keysym::LEFT, Keysym::RIGHT] {
        let result = press(&mut engine, keysym);
        assert!(result.consumed);
        assert!(result.actions.is_empty());
        let result = press_shift(&mut engine, keysym);
        assert!(result.consumed);
        assert!(result.actions.is_empty());
    }
    assert_eq!(selected(&engine), "あ");
}

#[test]
fn border_moves_undo_each_other() {
    let mut engine = two_parts();
    press_shift(&mut engine, Keysym::LEFT);
    assert_eq!(engine.state().reading(), Some("わた".to_string()));
    assert_eq!(engine.conversion_tail, Some("しです".to_string()));
    press_shift(&mut engine, Keysym::RIGHT);
    assert_eq!(engine.state().reading(), Some("わたし".to_string()));
    assert_eq!(engine.conversion_tail, Some("です".to_string()));
    press_shift(&mut engine, Keysym::RIGHT);
    press_shift(&mut engine, Keysym::RIGHT);
    assert_eq!(engine.state().reading(), Some("わたしです".to_string()));
    assert_eq!(engine.conversion_tail, None);
}

#[test]
fn border_move_puts_later_parts_into_the_tail() {
    let mut engine = two_parts();
    press(&mut engine, Keysym::RIGHT);
    press(&mut engine, Keysym::LEFT);
    assert_eq!(engine.upcoming_segments.len(), 1);
    press_shift(&mut engine, Keysym::LEFT);
    assert!(engine.upcoming_segments.is_empty());
    assert_eq!(engine.state().reading(), Some("わた".to_string()));
    assert_eq!(engine.conversion_tail, Some("しです".to_string()));
}

#[test]
fn home_drops_back_to_editing() {
    let mut engine = engine_with(&[]);
    type_on(&mut engine, "kana");
    press(&mut engine, Keysym::SPACE);
    press(&mut engine, Keysym::HOME);
    assert!(matches!(engine.state(), InputState::Composing { .. }));
    assert_eq!(engine.input_buf.cursor_pos, 0);
    assert!(!engine.suppress_suggest);
}

#[test]
fn displayed_live_text_stays_selected() {
    let mut engine = engine_with(&[]);
    engine.outside.readings.push(answer("かんじ", &["漢字", "感じ"]));
    type_on(&mut engine, "kanji");
    engine.show_live_text("感じ".to_string());
    engine.start_conversion_keep_display();
    assert_eq!(selected(&engine), "感じ");
    assert_eq!(texts(&engine)[0], "漢字");

    press(&mut engine, Keysym::ESCAPE);
    engine.show_live_text("完字".to_string());
    engine.start_conversion_keep_display();
    assert_eq!(selected(&engine), "完字");
    assert_eq!(texts(&engine)[0], "完字");

    press(&mut engine, Keysym::ESCAPE);
    engine.show_live_text("完字".to_string());
    engine.start_conversion(LearningLookup::Use);
    assert!(texts(&engine).contains(&"完字".to_string()));
}

#[test]
fn filters_go_round() {
    let mut engine = engine_with(&[("かんじ", "幹事")]);
    engine.dicts.user = Some(Dictionary::new(entries(&[("かんじ", "莞爾"), ("かんじ", "幹事")])));
    engine.learning = Some(LearningCache::new(entries(&[("かんじ", "監事")])));
    engine.outside.readings.push(answer("かんじ", &["漢字"]));
    type_on(&mut engine, "kanji");
    press(&mut engine, Keysym::SPACE);
    let all = texts(&engine);
    let rounds: Vec<(Option<CandidateSource>, Vec<&str>)> = vec![
        (Some(CandidateSource::Learning), vec!["監事"]),
        (Some(CandidateSource::UserDictionary), vec!["莞爾", "幹事"]),
        (Some(CandidateSource::Model), vec!["漢字"]),
        (Some(CandidateSource::Dictionary), vec!["幹事"]),
    ];
    for (filter, expected) in rounds {
        press_control(&mut engine, 't');
        assert_eq!(engine.state().filter(), filter);
        assert_eq!(texts(&engine), expected);
    }
    press_control(&mut engine, 't');
    assert_eq!(engine.state().filter(), None);
    assert_eq!(texts(&engine), all);
    let result = press_control(&mut engine, 'r');
    assert_eq!(engine.state().filter(), Some(CandidateSource::Dictionary));
    assert_eq!(aux(&result), Some("[辞書] かんじ 1/1".to_string()));
    let result = press_control(&mut engine, 'y');
    assert_eq!(aux(&result), Some("[学習] かんじ 1/1".to_string()));
    engine.cycle_candidate_filter(FilterDirection::Backward);
    assert_eq!(engine.state().filter(), None);
}

#[test]
fn empty_view_commits_the_reading() {
    let mut engine = engine_with(&[]);
    type_on(&mut engine, "kana");
    press(&mut engine, Keysym::SPACE);
    press_control(&mut engine, 'u');
    assert!(texts(&engine).is_empty());
    assert_eq!(shown(&engine), "かな");
    let moved = press(&mut engine, Keysym::DOWN);
    assert!(moved.consumed);
    assert!(moved.actions.is_empty());
    let result = press(&mut engine, Keysym::RETURN);
    assert_eq!(committed(&result), Some("かな".to_string()));
    assert!(history(&engine).is_empty());
}

#[test]
fn typing_in_a_view_refines_it() {
    let mut engine = engine_with(&[("かんじ", "幹事"), ("かんじょう", "感情")]);
    type_on(&mut engine, "kanji");
    press(&mut engine, Keysym::SPACE);
    press_control(&mut engine, 'o');
    assert_eq!(texts(&engine), vec!["幹事", "感情"]);
    type_on(&mut engine, "xyo");
    assert_eq!(engine.state().filter(), Some(CandidateSource::Dictionary));
    assert_eq!(texts(&engine), vec!["感情"]);
    press(&mut engine, Keysym::BACKSPACE);
    assert_eq!(engine.state().filter(), Some(CandidateSource::Dictionary));
    assert_eq!(texts(&engine), vec!["幹事", "感情"]);
    assert!(!engine.suppress_suggest);
}

#[test]
fn split_for_the_model_keeps_the_view() {
    let mut engine = engine_with(&[("かんじ", "幹事")]);
    type_on(&mut engine, "kanji");
    press(&mut engine, Keysym::SPACE);
    press_control(&mut engine, 'o');
    press_control(&mut engine, 'j');
    assert_eq!(engine.state().filter(), Some(CandidateSource::Dictionary));
    assert_eq!(engine.chunk_breaks, vec![3]);
}

#[test]
fn deleting_a_learned_candidate_brings_back_other_copies() {
    let mut engine = engine_with(&[("かん", "缶")]);
    engine.learning = Some(LearningCache::new(entries(&[
        ("かん", "缶"),
        ("かんづめ", "缶"),
        ("かん", "勘"),
        ("き", "缶"),
    ])));
    type_on(&mut engine, "kann");
    press(&mut engine, Keysym::SPACE);
    assert_eq!(texts(&engine), vec!["缶", "勘", "かん", "カン"]);
    engine.process_key(&with(Keysym::BACKSPACE, false, true, false));
    assert_eq!(history(&engine), vec![pair("かん", "勘"), pair("き", "缶")]);
    assert_eq!(texts(&engine), vec!["勘", "缶", "かん", "カン"]);
    assert_eq!(sources(&engine)[1], CandidateSource::Dictionary);
    assert!(engine.selected_is_deletable());
    engine.process_key(&with(Keysym::DELETE, false, true, false));
    assert_eq!(history(&engine), vec![pair("き", "缶")]);
    let before = texts(&engine);
    let result = engine.process_key(&with(Keysym::DELETE, false, true, false));
    assert!(result.consumed);
    assert!(result.actions.is_empty());
    assert_eq!(texts(&engine), before);
}

#[test]
fn deleting_in_the_learning_view_works_while_keys_wait() {
    let mut engine = engine_with(&[]);
    engine.learning = Some(LearningCache::new(entries(&[
        ("わせだ", "早稲田"),
        ("わせだだい", "早稲田"),
        ("わせでん", "早電"),
        ("わせり", "和芹"),
    ])));
    type_on(&mut engine, "wased");
    press(&mut engine, Keysym::SPACE);
    press_control(&mut engine, 'y');
    assert_eq!(texts(&engine), vec!["早稲田", "早電"]);
    assert!(engine.selected_is_deletable());
    engine.process_key(&with(Keysym::DELETE, false, true, false));
    assert_eq!(history(&engine), vec![pair("わせでん", "早電"), pair("わせり", "和芹")]);
    assert_eq!(engine.state().filter(), Some(CandidateSource::Learning));
    assert_eq!(texts(&engine), vec!["早電"]);
}

#[test]
fn deleting_with_a_waiting_n_takes_twins_of_other_readings() {
    let mut engine = engine_with(&[]);
    engine.learning = Some(LearningCache::new(entries(&[("かんじ", "感"), ("かなめ", "感")])));
    type_on(&mut engine, "kan");
    press(&mut engine, Keysym::SPACE);
    press_control(&mut engine, 'y');
    assert_eq!(texts(&engine), vec!["感"]);
    engine.process_key(&with(Keysym::BACKSPACE, false, true, false));
    assert!(history(&engine).is_empty());
    assert!(texts(&engine).is_empty());
}

#[test]
fn committing_and_going_on_gives_the_actions_of_both() {
    let mut whole = engine_with(&[]);
    whole.outside.readings.push(answer("か", &["火"]));
    type_on(&mut whole, "ka");
    press(&mut whole, Keysym::SPACE);
    let mut stepwise = whole.clone();
    let next = key(Keysym::Character('n'));
    let result = whole.commit_conversion_and_continue(&next, false);
    let commit = stepwise.commit_conversion();
    let typed = stepwise.process_key(&next);
    assert_eq!(result.actions.len(), commit.actions.len() + typed.actions.len());
    assert_eq!(committed(&result), committed(&commit));
    assert_eq!(shown(&whole), shown(&stepwise));
    assert_eq!(whole.raw_text(), stepwise.raw_text());
}

#[test]
fn candidates_are_shown_in_the_configured_width() {
    let mut engine = engine_with(&[]);
    engine.config.width = CharWidth::Full;
    engine.outside.readings.push(answer("えー", &["A1"]));
    type_on(&mut engine, "e-");
    press(&mut engine, Keysym::SPACE);
    assert_eq!(selected(&engine), "Ａ１");
    let mut engine = engine_with(&[]);
    engine.config.width = CharWidth::Half;
    engine.outside.readings.push(answer("えー", &["Ａ１"]));
    type_on(&mut engine, "e-");
    press(&mut engine, Keysym::SPACE);
    assert_eq!(selected(&engine), "A1");
}

#[test]
fn conversion_functions_refuse_other_states() {
    let mut engine = InputMethodEngine::new();
    assert!(!engine.commit_conversion().consumed);
    assert!(!engine.cancel_conversion().consumed);
    assert!(!engine.next_candidate().consumed);
    assert!(!engine.select_shown_candidate(1).consumed);
    assert!(!engine.apply_candidate_filter(CandidateSource::Model).consumed);
    assert_eq!(engine.selected_conversion_info(), None);
    let nothing = engine.start_conversion(LearningLookup::Use);
    assert!(nothing.consumed);
    assert!(nothing.actions.is_empty());
}
