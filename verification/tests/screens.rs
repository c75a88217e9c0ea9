use typing_tui::app::{App, Effect, Screen, WordRequest};
use typing_tui::input::{KeyCode, KeyEvent};
use typing_tui::layout::{
    area_fits, centered_left, centered_top, centered_top_defined, middle_top, middle_top_defined,
    row_in_area, time_label, Area, TimeLabel,
};

fn key(code: KeyCode) -> KeyEvent {
    KeyEvent { code, control: false }
}

fn app() -> App {
    App::new(vec!["en_1000".to_string(), "ru_5000".to_string()], "en_1000".to_string(), 30)
}

fn words(list: &[&str]) -> Option<Vec<String>> {
    Some(list.iter().map(|s| s.to_string()).collect())
}

#[test]
fn app_starts_on_menu() {
    let a = app();
    assert!(a.is_running());
    assert_eq!(a.screen(), Screen::Menu);
    assert_eq!(a.quick_start_wordset(), "en_1000");
    assert_eq!(a.quick_start_time(), 30);
    assert_eq!(a.settings_widget().current_time(), 30);
    assert_eq!(a.typing_widget().get_target(), "");
}

#[test]
fn control_c_quits_everywhere() {
    let mut a = app();
    assert_eq!(a.on_key_event(KeyEvent { code: KeyCode::Char('c'), control: true }), Effect::Nothing);
    assert!(!a.is_running());
    assert_eq!(a.screen(), Screen::Menu);
}

#[test]
fn plain_c_is_typed() {
    let mut a = app();
    a.on_key_event(key(KeyCode::Enter));
    a.on_words_loaded(WordRequest::QuickStart, words(&["cat"]));
    assert_eq!(a.on_key_event(key(KeyCode::Char('c'))), Effect::Nothing);
    assert!(a.is_running());
    assert_eq!(a.typing_widget().get_input(), "c");
}

#[test]
fn quick_start_asks_for_words_then_types() {
    let mut a = app();
    assert_eq!(a.on_key_event(key(KeyCode::Enter)), Effect::LoadWords(WordRequest::QuickStart));
    assert_eq!(a.screen(), Screen::Menu);
    a.on_words_loaded(WordRequest::QuickStart, words(&["hi", "yo"]));
    assert_eq!(a.screen(), Screen::Typing);
    assert_eq!(a.typing_widget().get_target(), "hi yo");
    assert_eq!(a.typing_widget().time_limit(), Some(30));
}

#[test]
fn failed_load_stays_on_menu() {
    let mut a = app();
    a.on_key_event(key(KeyCode::Enter));
    a.on_words_loaded(WordRequest::QuickStart, None);
    assert_eq!(a.screen(), Screen::Menu);
}

#[test]
fn select_mode_then_start() {
    let mut a = app();
    a.on_key_event(key(KeyCode::Down));
    assert_eq!(a.on_key_event(key(KeyCode::Enter)), Effect::Nothing);
    assert_eq!(a.screen(), Screen::ModeSelect);
    a.on_key_event(key(KeyCode::Right));
    a.on_key_event(key(KeyCode::Down));
    a.on_key_event(key(KeyCode::Right));
    let effect = a.on_key_event(key(KeyCode::Enter));
    let req = WordRequest::Start { wordset: "ru_5000".to_string(), time: 30 };
    assert_eq!(effect, Effect::LoadWords(req.clone()));
    a.on_words_loaded(req, words(&["да", "нет"]));
    assert_eq!(a.screen(), Screen::Typing);
    assert_eq!(a.typing_widget().get_target(), "да нет");
    assert_eq!(a.typing_widget().time_limit(), Some(30));
}

#[test]
fn mode_select_escape_returns_to_menu() {
    let mut a = app();
    a.on_key_event(key(KeyCode::Down));
    a.on_key_event(key(KeyCode::Enter));
    a.on_key_event(key(KeyCode::Esc));
    assert_eq!(a.screen(), Screen::Menu);
}

#[test]
fn exit_entry_stops_the_app() {
    let mut a = app();
    a.on_key_event(key(KeyCode::Down));
    a.on_key_event(key(KeyCode::Down));
    a.on_key_event(key(KeyCode::Enter));
    assert!(!a.is_running());
}

#[test]
fn finished_run_shows_result_then_restart() {
    let mut a = app();
    a.on_key_event(key(KeyCode::Enter));
    a.on_words_loaded(WordRequest::QuickStart, words(&["ab"]));
    assert!(!a.tick());
    a.on_key_event(key(KeyCode::Char('a')));
    assert!(!a.tick());
    a.on_key_event(key(KeyCode::Char('b')));
    assert!(a.tick());
    assert_eq!(a.screen(), Screen::Result);
    assert!(!a.tick());
    let effect = a.on_key_event(key(KeyCode::Enter));
    let req = WordRequest::Restart { wordset: "en_1000".to_string(), time: 30 };
    assert_eq!(effect, Effect::LoadWords(req.clone()));
    assert_eq!(a.screen(), Screen::Typing);
    a.on_words_loaded(req, words(&["cd"]));
    assert_eq!(a.typing_widget().get_target(), "cd");
    assert_eq!(a.typing_widget().get_input(), "");
}

#[test]
fn result_menu_entry_clears_typing() {
    let mut a = app();
    a.on_key_event(key(KeyCode::Enter));
    a.on_words_loaded(WordRequest::QuickStart, words(&["a"]));
    a.on_key_event(key(KeyCode::Char('a')));
    assert!(a.tick());
    a.on_key_event(key(KeyCode::Down));
    assert_eq!(a.on_key_event(key(KeyCode::Enter)), Effect::Nothing);
    assert_eq!(a.screen(), Screen::Menu);
    assert_eq!(a.typing_widget().get_input(), "");
}

#[test]
fn escape_from_typing_clears_input() {
    let mut a = app();
    a.on_key_event(key(KeyCode::Enter));
    a.on_words_loaded(WordRequest::QuickStart, words(&["hello"]));
    a.on_key_event(key(KeyCode::Char('h')));
    a.on_key_event(key(KeyCode::Esc));
    assert_eq!(a.screen(), Screen::Menu);
    assert_eq!(a.typing_widget().get_input(), "");
    assert!(a.typing_widget().start_time().is_none());
}

#[test]
fn empty_word_sets_refuse_start() {
    let mut a = App::new(Vec::new(), "en_1000".to_string(), 30);
    a.on_key_event(key(KeyCode::Down));
    a.on_key_event(key(KeyCode::Enter));
    assert_eq!(a.screen(), Screen::ModeSelect);
    assert!(!a.accepts_key(key(KeyCode::Enter)));
    assert!(!a.accepts_key(key(KeyCode::Right)));
    assert!(a.accepts_key(key(KeyCode::Left)));
    assert!(a.accepts_key(KeyEvent { code: KeyCode::Char('c'), control: true }));
}

#[test]
fn time_labels() {
    assert_eq!(time_label(45), TimeLabel::Seconds(45));
    assert_eq!(time_label(60), TimeLabel::Minutes(1));
    assert_eq!(time_label(90), TimeLabel::MinutesSeconds(1, 30));
    assert_eq!(time_label(300), TimeLabel::Minutes(5));
    assert_eq!(time_label(0), TimeLabel::Seconds(0));
}

#[test]
fn block_placement() {
    let area = Area { x: 0, y: 0, width: 80, height: 24 };
    assert!(area_fits(area));
    assert!(middle_top_defined(area, 3));
    assert_eq!(middle_top(area, 3), 10);
    assert!(centered_top_defined(area, 9));
    assert_eq!(centered_top(area, 9), 7);
    assert_eq!(centered_left(area, 10), 35);
    assert!(row_in_area(area, 23));
    assert!(!row_in_area(area, 24));
    let small = Area { x: 0, y: 0, width: 10, height: 1 };
    assert!(!middle_top_defined(small, 3));
    assert!(!centered_top_defined(small, 9));
    let shifted = Area { x: 2, y: 5, width: 10, height: 1 };
    assert_eq!(middle_top(shifted, 3), 4);
    assert!(!row_in_area(shifted, 4));
}
