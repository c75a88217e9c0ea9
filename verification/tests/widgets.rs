use typing_tui::input::{KeyCode, KeyEvent};
use typing_tui::menu_widget::{MenuAction, MenuWidget};
use typing_tui::mode_select_widget::{ActiveRow, ModeSelectAction, ModeSelectWidget};
use typing_tui::result_widget::{ResultAction, ResultWidget};
use typing_tui::settings_widget::{SettingsAction, SettingsWidget};

fn key(code: KeyCode) -> KeyEvent {
    KeyEvent { code, control: false }
}

fn names(list: &[&str]) -> Vec<String> {
    list.iter().map(|s| s.to_string()).collect()
}

#[test]
fn menu_starts_on_first_entry() {
    let menu = MenuWidget::new();
    assert_eq!(menu.selected_index(), 0);
    assert_eq!(menu.label(0), "Quick Start");
    assert_eq!(menu.label(1), "Select Mode");
    assert_eq!(menu.label(2), "Exit");
}

#[test]
fn menu_cursor_stops_at_both_ends() {
    let mut menu = MenuWidget::new();
    assert_eq!(menu.handle_input(key(KeyCode::Up)), MenuAction::NoAction);
    assert_eq!(menu.selected_index(), 0);
    for _ in 0..5 {
        assert_eq!(menu.handle_input(key(KeyCode::Down)), MenuAction::NoAction);
    }
    assert_eq!(menu.selected_index(), 2);
    menu.handle_input(key(KeyCode::Up));
    assert_eq!(menu.selected_index(), 1);
}

#[test]
fn menu_enter_picks_entry() {
    let mut menu = MenuWidget::new();
    assert_eq!(menu.handle_input(key(KeyCode::Enter)), MenuAction::QuickStart);
    menu.handle_input(key(KeyCode::Down));
    assert_eq!(menu.handle_input(key(KeyCode::Enter)), MenuAction::SelectMode);
    menu.handle_input(key(KeyCode::Down));
    assert_eq!(menu.handle_input(key(KeyCode::Enter)), MenuAction::Exit);
    assert_eq!(menu.handle_input(key(KeyCode::Char('x'))), MenuAction::NoAction);
    assert_eq!(menu.handle_input(key(KeyCode::Esc)), MenuAction::NoAction);
}

#[test]
fn menu_up_undoes_down() {
    let mut menu = MenuWidget::new();
    menu.handle_input(key(KeyCode::Down));
    menu.handle_input(key(KeyCode::Up));
    assert_eq!(menu.selected_index(), 0);
}

#[test]
fn menu_reset_returns_to_first_entry() {
    let mut menu = MenuWidget::new();
    menu.handle_input(key(KeyCode::Down));
    menu.reset();
    assert_eq!(menu.selected_index(), 0);
}

#[test]
fn mode_select_offers_quarter_minutes() {
    let mut mode = ModeSelectWidget::new(names(&["en_1000", "ru_5000"]));
    assert_eq!(mode.selected_time(), 15);
    assert_eq!(mode.selected_wordset(), "en_1000");
    assert_eq!(mode.active_row(), ActiveRow::Wordset);
    mode.move_down();
    assert_eq!(mode.active_row(), ActiveRow::Time);
    for _ in 0..30 {
        mode.move_right();
    }
    assert_eq!(mode.time_index(), 19);
    assert_eq!(mode.selected_time(), 300);
    mode.move_left();
    assert_eq!(mode.selected_time(), 285);
}

#[test]
fn mode_select_wordset_row_stops_at_ends() {
    let mut mode = ModeSelectWidget::new(names(&["a", "b"]));
    mode.move_left();
    assert_eq!(mode.wordset_index(), 0);
    mode.move_right();
    mode.move_right();
    assert_eq!(mode.wordset_index(), 1);
    assert_eq!(mode.selected_wordset(), "b");
    assert_eq!(mode.wordset_count(), 2);
    assert_eq!(mode.wordset_name(0), "a");
}

#[test]
fn mode_select_up_and_down_switch_rows() {
    let mut mode = ModeSelectWidget::new(names(&["a"]));
    mode.move_up();
    assert_eq!(mode.active_row(), ActiveRow::Time);
    mode.move_up();
    assert_eq!(mode.active_row(), ActiveRow::Wordset);
    mode.move_down();
    mode.move_down();
    assert_eq!(mode.active_row(), ActiveRow::Wordset);
}

#[test]
fn mode_select_keys() {
    let mut mode = ModeSelectWidget::new(names(&["a", "b"]));
    assert_eq!(mode.handle_input(key(KeyCode::Right)), None);
    assert_eq!(mode.wordset_index(), 1);
    assert_eq!(mode.handle_input(key(KeyCode::Down)), None);
    assert_eq!(mode.handle_input(key(KeyCode::Right)), None);
    assert_eq!(mode.selected_time(), 30);
    assert_eq!(mode.handle_input(key(KeyCode::Left)), None);
    assert_eq!(mode.selected_time(), 15);
    assert_eq!(mode.handle_input(key(KeyCode::Enter)), Some(ModeSelectAction::Start));
    assert_eq!(mode.handle_input(key(KeyCode::Esc)), Some(ModeSelectAction::Exit));
    assert_eq!(mode.handle_input(key(KeyCode::Char('q'))), None);
}

#[test]
fn mode_select_reset_restores_fresh_screen() {
    let mut mode = ModeSelectWidget::new(names(&["a", "b"]));
    mode.move_right();
    mode.move_down();
    mode.move_right();
    mode.reset();
    assert_eq!(mode.wordset_index(), 0);
    assert_eq!(mode.time_index(), 0);
    assert_eq!(mode.active_row(), ActiveRow::Wordset);
}

#[test]
fn mode_select_left_on_empty_list_is_harmless() {
    let mut mode = ModeSelectWidget::new(Vec::new());
    mode.move_left();
    assert_eq!(mode.wordset_index(), 0);
    assert_eq!(mode.wordset_count(), 0);
}

#[test]
fn settings_select_current_values() {
    let s = SettingsWidget::new(names(&["en_1000", "ru_5000"]), "ru_5000", 60);
    assert_eq!(s.current_wordset(), "ru_5000");
    assert_eq!(s.current_time(), 60);
    assert_eq!(s.active_row(), 0);
}

#[test]
fn settings_fall_back_to_first_entries() {
    let s = SettingsWidget::new(names(&["en_1000", "ru_5000"]), "missing", 17);
    assert_eq!(s.current_wordset(), "en_1000");
    assert_eq!(s.current_time(), 15);
}

#[test]
fn settings_first_of_duplicates() {
    let s = SettingsWidget::new(names(&["x", "y", "y"]), "y", 300);
    assert_eq!(s.current_wordset(), "y");
    assert_eq!(s.current_time(), 300);
    let mut s = s;
    s.handle_input(key(KeyCode::Right));
    assert_eq!(s.current_wordset(), "y");
}

#[test]
fn settings_rows_wrap() {
    let mut s = SettingsWidget::new(names(&["a"]), "a", 15);
    assert_eq!(s.handle_input(key(KeyCode::Up)), None);
    assert_eq!(s.active_row(), 1);
    s.handle_input(key(KeyCode::Up));
    assert_eq!(s.active_row(), 0);
    s.handle_input(key(KeyCode::Down));
    assert_eq!(s.active_row(), 1);
    s.handle_input(key(KeyCode::Down));
    assert_eq!(s.active_row(), 0);
}

#[test]
fn settings_values_stop_at_ends() {
    let mut s = SettingsWidget::new(names(&["a", "b"]), "a", 180);
    s.handle_input(key(KeyCode::Down));
    s.handle_input(key(KeyCode::Right));
    assert_eq!(s.current_time(), 300);
    s.handle_input(key(KeyCode::Right));
    assert_eq!(s.current_time(), 300);
    s.handle_input(key(KeyCode::Left));
    assert_eq!(s.current_time(), 180);
    s.handle_input(key(KeyCode::Up));
    s.handle_input(key(KeyCode::Left));
    assert_eq!(s.current_wordset(), "a");
    s.handle_input(key(KeyCode::Right));
    s.handle_input(key(KeyCode::Right));
    assert_eq!(s.current_wordset(), "b");
}

#[test]
fn settings_actions() {
    let mut s = SettingsWidget::new(names(&["a"]), "a", 15);
    assert_eq!(s.handle_input(key(KeyCode::Enter)), Some(SettingsAction::Save));
    assert_eq!(s.handle_input(key(KeyCode::Esc)), Some(SettingsAction::Exit));
    assert_eq!(s.handle_input(key(KeyCode::Backspace)), None);
}

#[test]
fn result_menu_navigation() {
    let mut r = ResultWidget::new();
    assert_eq!(r.selected_index(), 0);
    assert_eq!(r.label(0), "Restart");
    assert_eq!(r.label(1), "Menu");
    assert_eq!(r.handle_input(key(KeyCode::Enter)), Some(ResultAction::Restart));
    assert_eq!(r.handle_input(key(KeyCode::Down)), None);
    assert_eq!(r.handle_input(key(KeyCode::Down)), None);
    assert_eq!(r.selected_index(), 1);
    assert_eq!(r.handle_input(key(KeyCode::Enter)), Some(ResultAction::Menu));
    assert_eq!(r.handle_input(key(KeyCode::Up)), None);
    assert_eq!(r.handle_input(key(KeyCode::Up)), None);
    assert_eq!(r.selected_index(), 0);
    assert_eq!(r.handle_input(key(KeyCode::Esc)), Some(ResultAction::Menu));
    assert_eq!(r.handle_input(key(KeyCode::Char('r'))), None);
    r.handle_input(key(KeyCode::Down));
    r.reset();
    assert_eq!(r.selected_index(), 0);
}
