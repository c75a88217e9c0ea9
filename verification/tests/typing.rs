use typing_tui::input::{KeyCode, KeyEvent};
use typing_tui::typing_widget::{CharState, TypingAction, TypingWidget};

fn typed(target: &str, input: &str) -> TypingWidget {
    let mut w = TypingWidget::new(target.to_string());
    for c in input.chars() {
        w.add_char(c);
    }
    w
}

#[test]
fn fresh_screen_has_nothing_typed() {
    let w = TypingWidget::new("hello".to_string());
    assert_eq!(w.get_input(), "");
    assert_eq!(w.get_target(), "hello");
    assert!(w.start_time().is_none());
    assert_eq!(w.time_limit(), None);
    assert_eq!(w.elapsed_secs(), None);
    assert_eq!(w.typed_chars(), 0);
    assert_eq!(w.correct_chars(), 0);
}

#[test]
fn typing_starts_the_clock() {
    let w = typed("hello", "h");
    assert!(w.start_time().is_some());
    assert!(w.elapsed_secs().is_some());
    let first = w.start_time();
    let mut w = w;
    w.add_char('e');
    assert_eq!(w.start_time(), first);
}

#[test]
fn correct_characters_are_counted() {
    let w = typed("hello", "hex");
    assert_eq!(w.get_input(), "hex");
    assert_eq!(w.typed_chars(), 3);
    assert_eq!(w.correct_chars(), 2);
    let w = typed("ab", "abcd");
    assert_eq!(w.correct_chars(), 2);
    assert_eq!(w.typed_chars(), 4);
    let w = typed("hello", "hello");
    assert_eq!(w.correct_chars(), 5);
}

#[test]
fn backspace_undoes_a_character() {
    let mut w = typed("hello", "hex");
    w.remove_char();
    assert_eq!(w.get_input(), "he");
    w.remove_char();
    w.remove_char();
    w.remove_char();
    assert_eq!(w.get_input(), "");
}

#[test]
fn keys_on_typing_screen() {
    let mut w = TypingWidget::new("ab".to_string());
    assert_eq!(w.handle_input(KeyEvent { code: KeyCode::Char('a'), control: false }), None);
    assert_eq!(w.handle_input(KeyEvent { code: KeyCode::Char('x'), control: false }), None);
    assert_eq!(w.get_input(), "ax");
    assert_eq!(w.handle_input(KeyEvent { code: KeyCode::Backspace, control: false }), None);
    assert_eq!(w.get_input(), "a");
    assert_eq!(w.handle_input(KeyEvent { code: KeyCode::Up, control: false }), None);
    assert_eq!(w.get_input(), "a");
    assert_eq!(w.handle_input(KeyEvent { code: KeyCode::Esc, control: false }), Some(TypingAction::Exit));
}

#[test]
fn reset_clears_input_and_clock() {
    let mut w = typed("hello", "he").with_time_limit(30);
    w.reset();
    assert_eq!(w.get_input(), "");
    assert!(w.start_time().is_none());
    assert_eq!(w.get_target(), "hello");
    assert_eq!(w.time_limit(), Some(30));
}

#[test]
fn new_target_text_clears_input() {
    let w = typed("hello", "he").with_target_text("other".to_string());
    assert_eq!(w.get_input(), "");
    assert_eq!(w.get_target(), "other");
    let mut w = typed("hello", "he");
    w.set_target_text("x".to_string());
    assert_eq!(w.get_input(), "");
    assert_eq!(w.get_target(), "x");
}

#[test]
fn completion_by_length_in_bytes() {
    let w = typed("ab", "a");
    assert!(!w.is_complete());
    let w = typed("ab", "xy");
    assert!(w.is_complete());
    // two bytes typed against a two-byte target
    let w = typed("ab", "é");
    assert!(w.is_complete());
    // one character typed against a two-byte character
    let w = typed("é", "e");
    assert!(!w.is_complete());
    let w = TypingWidget::new(String::new());
    assert!(w.is_complete());
}

#[test]
fn completion_by_time_limit() {
    let w = typed("hello", "h").with_time_limit(10);
    assert!(w.is_complete_after(Some(10)));
    assert!(w.is_complete_after(Some(11)));
    assert!(!w.is_complete_after(Some(9)));
    assert!(!w.is_complete_after(None));
    let w = typed("hello", "h").with_time_limit(0);
    assert!(w.is_complete());
    let w = typed("hello", "h");
    assert!(!w.is_complete_after(Some(1000)));
}

#[test]
fn lines_break_after_last_space() {
    let w = TypingWidget::new(String::new());
    assert_eq!(
        w.split_text_into_lines("hello world foo", 8),
        vec![(0, 6), (6, 12), (12, 15)]
    );
}

#[test]
fn lines_break_after_newline() {
    let w = TypingWidget::new(String::new());
    assert_eq!(w.split_text_into_lines("ab\ncd", 10), vec![(0, 3), (3, 5)]);
    assert_eq!(w.split_text_into_lines("\nab", 10), vec![(0, 1), (1, 3)]);
    assert_eq!(w.split_text_into_lines("a\n\nb", 10), vec![(0, 2), (2, 3), (3, 4)]);
}

#[test]
fn lines_without_spaces_are_cut_at_width() {
    let w = TypingWidget::new(String::new());
    assert_eq!(w.split_text_into_lines("abcdefghij", 4), vec![(0, 4), (4, 8), (8, 10)]);
    assert_eq!(w.split_text_into_lines("abc", 1), vec![(0, 1), (1, 2), (2, 3)]);
}

#[test]
fn empty_text_has_no_lines() {
    let w = TypingWidget::new(String::new());
    assert_eq!(w.split_text_into_lines("", 5), Vec::<(usize, usize)>::new());
    assert_eq!(w.split_text_into_lines("", 0), Vec::<(usize, usize)>::new());
}

#[test]
fn newlines_split_at_width_zero() {
    let w = TypingWidget::new(String::new());
    assert_eq!(w.split_text_into_lines("\n\n", 0), vec![(0, 1), (1, 2)]);
}

#[test]
fn lines_count_characters_not_bytes() {
    let w = TypingWidget::new(String::new());
    assert_eq!(w.split_text_into_lines("éé éé", 3), vec![(0, 3), (3, 5)]);
}

#[test]
fn lines_cover_the_text() {
    let w = TypingWidget::new(String::new());
    let text = "the quick brown fox jumps\nover the lazy dog";
    let n = text.chars().count();
    for width in 1..20 {
        let lines = w.split_text_into_lines(text, width);
        assert_eq!(lines[0].0, 0);
        assert_eq!(lines.last().unwrap().1, n);
        for pair in lines.windows(2) {
            assert_eq!(pair[0].1, pair[1].0);
        }
        for &(s, e) in &lines {
            assert!(s < e && e - s <= width);
        }
    }
}

#[test]
fn current_line_follows_position() {
    let w = TypingWidget::new(String::new());
    let ranges = vec![(0, 6), (6, 12), (12, 15)];
    assert_eq!(w.get_current_line_index(&ranges, 0), 0);
    assert_eq!(w.get_current_line_index(&ranges, 3), 0);
    assert_eq!(w.get_current_line_index(&ranges, 6), 1);
    assert_eq!(w.get_current_line_index(&ranges, 13), 2);
    assert_eq!(w.get_current_line_index(&ranges, 15), 2);
    assert_eq!(w.get_current_line_index(&ranges, 40), 2);
    assert_eq!(w.get_current_line_index(&[], 3), 0);
}

#[test]
fn visible_window_of_three_lines() {
    let w = TypingWidget::new(String::new());
    assert_eq!(w.visible_start(0, 5), 0);
    assert_eq!(w.visible_start(2, 5), 1);
    assert_eq!(w.visible_start(4, 5), 2);
    assert_eq!(w.visible_start(1, 2), 0);
    assert_eq!(w.visible_start(0, 1), 0);
}

#[test]
fn cells_show_typing_progress() {
    let w = typed("abc", "ax");
    assert_eq!(
        w.line_cells(0, 4, true),
        vec![
            ('a', CharState::Correct),
            ('b', CharState::Mistyped),
            ('c', CharState::Cursor),
            (' ', CharState::Blank),
        ]
    );
    assert_eq!(w.line_cells(2, 3, false), vec![('c', CharState::Untyped)]);
    assert_eq!(w.line_cells(1, 1, true), vec![]);
}
