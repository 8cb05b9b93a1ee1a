//! Typing, the caret, deletion, and scripts.

use karukan_im::action::{EngineAction, EngineResult};
use karukan_im::engine::InputMethodEngine;
use karukan_im::kana::{
    hiragana_to_katakana, is_pure_full_katakana, is_pure_hiragana, to_fullwidth, to_half_katakana,
    to_halfwidth,
};
use karukan_im::key::{KeyEvent, Keysym, Modifiers};
use karukan_im::romaji::RomajiConverter;
use karukan_im::state::{InputMode, InputState};
use karukan_im::text::{append, begins_with, char_text, decimal, join, skip_chars, take_chars};

fn key(keysym: Keysym) -> KeyEvent {
    KeyEvent {
        keysym,
        modifiers: Modifiers { shift_key: false, control_key: false, alt_key: false },
    }
}

fn control(c: char) -> KeyEvent {
    KeyEvent {
        keysym: Keysym::Character(c),
        modifiers: Modifiers { shift_key: false, control_key: true, alt_key: false },
    }
}

fn press(engine: &mut InputMethodEngine, keysym: Keysym) -> EngineResult {
    engine.process_key(&key(keysym))
}

fn typed(keys: &str) -> InputMethodEngine {
    let mut engine = InputMethodEngine::new();
    type_on(&mut engine, keys);
    engine
}

fn type_on(engine: &mut InputMethodEngine, keys: &str) {
    for c in keys.chars() {
        engine.process_key(&key(Keysym::Character(c)));
    }
}

fn shown(engine: &InputMethodEngine) -> String {
    engine.preedit().unwrap().text()
}

fn committed(result: &EngineResult) -> Option<String> {
    for action in &result.actions {
        if let EngineAction::Commit(text) = action {
            return Some(text.clone());
        }
    }
    None
}

#[test]
fn romaji_becomes_kana() {
    assert_eq!(shown(&typed("kyakka")), "きゃっか");
    assert_eq!(shown(&typed("konnnichiha")), "こんにちは");
    assert_eq!(shown(&typed("kanji")), "かんじ");
    assert_eq!(shown(&typed("shinnbunn")), "しんぶん");
    assert_eq!(shown(&typed("ra-men")), "らーめn");
}

#[test]
fn keys_without_kana_stand_for_themselves() {
    assert_eq!(shown(&typed("1")), "1");
    let engine = typed("q1");
    assert_eq!(engine.settled_reading(), "q1");
    assert_eq!(engine.raw_text(), "q1");
}

#[test]
fn waiting_keys_settle_where_the_caret_is() {
    let engine = typed("kan");
    assert_eq!(shown(&engine), "かn");
    assert_eq!(engine.romaji.buffer(), "n");
    assert_eq!(engine.settled_reading(), "かん");
    assert_eq!(engine.settled_cursor(), 2);
    assert_eq!(engine.raw_text(), "kan");
}

#[test]
fn pending_keys_expand_to_kana_in_the_order_of_the_rules() {
    let converter = RomajiConverter::new();
    let kana = converter.pending_expansions("dh");
    assert!(kana.contains(&"でぃ".to_string()));
    assert!(!kana.contains(&"だ".to_string()));
    let wide = converter.pending_expansions("d");
    assert!(wide.contains(&"だ".to_string()));
    assert!(converter.pending_expansions("yk").is_empty());
}

#[test]
fn typing_keeps_every_key_in_order() {
    let keys = "xtsukyaq-Zn1";
    let mut engine = typed(keys);
    assert_eq!(engine.raw_text(), keys);
    let result = press(&mut engine, Keysym::F10);
    assert_eq!(committed(&result), Some(keys.to_string()));
}

#[test]
fn caret_moves_keep_keys_and_reading() {
    let mut engine = typed("nihon");
    let reading = engine.settled_reading();
    for keysym in [Keysym::LEFT, Keysym::HOME, Keysym::RIGHT, Keysym::END, Keysym::LEFT] {
        press(&mut engine, keysym);
        assert_eq!(engine.settled_reading(), reading);
        assert_eq!(engine.raw_text(), "nihon");
    }
}

#[test]
fn home_and_end_reach_the_borders() {
    let mut engine = typed("kakikun");
    press(&mut engine, Keysym::HOME);
    assert_eq!(engine.input_buf.cursor_pos, 0);
    assert_eq!(engine.preedit().unwrap().caret(), 0);
    press(&mut engine, Keysym::END);
    assert_eq!(engine.input_buf.cursor_pos, 4);
}

#[test]
fn end_goes_after_the_kana_of_waiting_keys() {
    let mut engine = typed("kan");
    press(&mut engine, Keysym::END);
    assert_eq!(engine.input_buf.cursor_pos, 2);
    assert_eq!(shown(&engine), "かん");
}

#[test]
fn left_and_right_go_from_after_the_kana_of_waiting_keys() {
    let mut engine = typed("nihon");
    press(&mut engine, Keysym::RIGHT);
    assert_eq!(shown(&engine), "にほん");
    assert_eq!(engine.input_buf.cursor_pos, 3);

    let mut engine = typed("nihon");
    press(&mut engine, Keysym::LEFT);
    assert_eq!(shown(&engine), "にほん");
    assert_eq!(engine.input_buf.cursor_pos, 2);

    let mut engine = typed("aiu");
    press(&mut engine, Keysym::HOME);
    type_on(&mut engine, "n");
    press(&mut engine, Keysym::RIGHT);
    assert_eq!(shown(&engine), "んあいう");
    assert_eq!(engine.input_buf.cursor_pos, 2);
}

#[test]
fn left_and_right_stay_in_the_input() {
    let mut engine = typed("ai");
    for _ in 0..5 {
        press(&mut engine, Keysym::LEFT);
    }
    assert_eq!(engine.input_buf.cursor_pos, 0);
    for _ in 0..5 {
        press(&mut engine, Keysym::RIGHT);
    }
    assert_eq!(engine.input_buf.cursor_pos, 2);
}

#[test]
fn emacs_caret_keys_work_while_composing() {
    let mut engine = typed("aiu");
    engine.process_key(&control('a'));
    assert_eq!(engine.input_buf.cursor_pos, 0);
    engine.process_key(&control('f'));
    assert_eq!(engine.input_buf.cursor_pos, 1);
    engine.process_key(&control('e'));
    assert_eq!(engine.input_buf.cursor_pos, 3);
    engine.process_key(&control('b'));
    assert_eq!(engine.input_buf.cursor_pos, 2);
}

#[test]
fn backspace_takes_back_a_waiting_key_first() {
    let mut engine = typed("kak");
    press(&mut engine, Keysym::BACKSPACE);
    assert_eq!(shown(&engine), "か");
    assert_eq!(engine.raw_text(), "ka");
}

#[test]
fn backspace_undoes_the_group_typed_last() {
    let mut engine = typed("ka");
    type_on(&mut engine, "kyu");
    assert_eq!(shown(&engine), "かきゅ");
    press(&mut engine, Keysym::BACKSPACE);
    assert_eq!(shown(&engine), "か");
    assert_eq!(engine.raw_text(), "ka");
    assert_eq!(engine.input_buf.cursor_pos, 1);
}

#[test]
fn backspace_in_the_middle_keeps_what_follows() {
    let mut engine = typed("kyakiku");
    press(&mut engine, Keysym::LEFT);
    press(&mut engine, Keysym::LEFT);
    press(&mut engine, Keysym::BACKSPACE);
    assert_eq!(shown(&engine), "きく");
    assert_eq!(engine.raw_text(), "kiku");
}

#[test]
fn backspace_at_the_start_does_nothing() {
    let mut engine = typed("ai");
    press(&mut engine, Keysym::HOME);
    let result = press(&mut engine, Keysym::BACKSPACE);
    assert!(result.consumed);
    assert!(result.actions.is_empty());
    assert_eq!(shown(&engine), "あい");
}

#[test]
fn last_backspace_ends_the_composition() {
    let mut engine = typed("k");
    let result = press(&mut engine, Keysym::BACKSPACE);
    assert!(result.consumed);
    assert!(matches!(engine.state(), InputState::Empty));
    assert_eq!(result.actions.len(), 3);
}

#[test]
fn delete_removes_the_character_at_the_caret() {
    let mut engine = typed("aiu");
    press(&mut engine, Keysym::HOME);
    press(&mut engine, Keysym::DELETE);
    assert_eq!(shown(&engine), "いう");
    assert_eq!(engine.raw_text(), "iu");
    assert_eq!(engine.input_buf.cursor_pos, 0);
}

#[test]
fn delete_does_nothing_while_keys_wait_or_at_the_end() {
    let mut engine = typed("ai");
    assert!(press(&mut engine, Keysym::DELETE).actions.is_empty());
    press(&mut engine, Keysym::HOME);
    type_on(&mut engine, "k");
    assert!(press(&mut engine, Keysym::DELETE).actions.is_empty());
    assert_eq!(shown(&engine), "kあい");
}

#[test]
fn toggling_twice_comes_back() {
    let mut engine = typed("kan");
    press(&mut engine, Keysym::MUHENKAN);
    assert_eq!(shown(&engine), "カン");
    press(&mut engine, Keysym::MUHENKAN);
    assert_eq!(shown(&engine), "かん");
    assert_eq!(engine.input_mode, InputMode::Hiragana);
    assert_eq!(engine.raw_text(), "kan");
}

#[test]
fn enter_commits_and_escape_clears() {
    let mut engine = typed("kan");
    let result = press(&mut engine, Keysym::RETURN);
    assert_eq!(committed(&result), Some("かん".to_string()));
    assert!(matches!(engine.state(), InputState::Empty));

    let mut engine = typed("kan");
    let result = press(&mut engine, Keysym::ESCAPE);
    assert_eq!(committed(&result), None);
    assert!(matches!(engine.state(), InputState::Empty));
}

#[test]
fn upper_case_letter_goes_to_alphabet_mode_for_one_composition() {
    let mut engine = typed("kA");
    assert_eq!(engine.input_mode, InputMode::Alphabet);
    assert_eq!(shown(&engine), "kA");
    press(&mut engine, Keysym::RETURN);
    assert_eq!(engine.input_mode, InputMode::Hiragana);
}

#[test]
fn input_mode_change_resolves_waiting_keys() {
    let mut engine = typed("kan");
    engine.set_input_mode(InputMode::Katakana);
    assert_eq!(shown(&engine), "カン");
    assert!(engine.romaji.is_empty());
}

#[test]
fn live_conversion_is_shown_and_committed() {
    let mut engine = typed("kanjin");
    let result = engine.show_live_text("漢字".to_string());
    assert!(result.consumed);
    assert_eq!(shown(&engine), "漢字n");
    assert_eq!(engine.live_text_with_pending(), "漢字n");
    let result = press(&mut engine, Keysym::RETURN);
    assert_eq!(committed(&result), Some("漢字ん".to_string()));
}

#[test]
fn caret_move_ends_the_live_conversion() {
    let mut engine = typed("kanji");
    engine.show_live_text("漢字".to_string());
    press(&mut engine, Keysym::LEFT);
    assert_eq!(shown(&engine), "かんじ");
    assert!(!engine.live.shown);
    assert!(engine.live.text.is_empty());
}

#[test]
fn live_text_is_refused_at_rest() {
    let mut engine = InputMethodEngine::new();
    assert!(!engine.show_live_text("漢字".to_string()).consumed);
}

#[test]
fn keys_at_rest_go_to_the_application() {
    let mut engine = InputMethodEngine::new();
    for keysym in [Keysym::RETURN, Keysym::SPACE, Keysym::BACKSPACE, Keysym::F6, Keysym::LEFT] {
        assert!(!press(&mut engine, keysym).consumed);
        assert!(matches!(engine.state(), InputState::Empty));
    }
}

#[test]
fn katakana_and_widths() {
    assert_eq!(hiragana_to_katakana("きゃらメルゔゝ漢"), "キャラメルヴヽ漢");
    assert_eq!(to_half_katakana("がぱー。ヴん漢a"), "ｶﾞﾊﾟｰ｡ｳﾞﾝ漢a");
    assert_eq!(to_fullwidth("Az09~ !あ"), "Ａｚ０９～　！あ");
    assert_eq!(to_halfwidth("Ａｚ０９～　！あ"), "Az09~ !あ");
}

#[test]
fn pure_scripts() {
    assert!(is_pure_hiragana("らーめん"));
    assert!(!is_pure_hiragana("らーメン"));
    assert!(!is_pure_hiragana(""));
    assert!(is_pure_full_katakana("ラーメン"));
    assert!(!is_pure_full_katakana("ﾗｰﾒﾝ"));
    assert!(!is_pure_full_katakana("漢"));
}

#[test]
fn texts_by_characters() {
    assert_eq!(decimal(0), "0");
    assert_eq!(decimal(90210), "90210");
    assert_eq!(take_chars("かな漢字", 2), "かな");
    assert_eq!(skip_chars("かな漢字", 3), "字");
    assert!(begins_with("かな漢字", "かな"));
    assert!(!begins_with("か", "かな"));
    assert_eq!(char_text('漢'), "漢");
    let mut text = "漢".to_string();
    append(&mut text, "字");
    assert_eq!(text, "漢字");
    let parts = vec!["a".to_string(), "b".to_string(), "c".to_string()];
    assert_eq!(join(&parts, 1, 3), "bc");
}
