use viogg::text::{split_text_lines, TextWindow, ViewAction};

fn window(lines: &[&str], x: usize, y: usize) -> TextWindow {
    let mut w = TextWindow::new(lines.iter().map(|s| s.to_string()).collect());
    w.cursor_x = x;
    w.cursor_y = y;
    w
}

fn lines_of(w: &TextWindow) -> Vec<&str> {
    w.lines.iter().map(|s| s.as_str()).collect()
}

#[test]
fn new_window_starts_at_origin() {
    let w = TextWindow::new(vec!["abc".to_string()]);
    assert_eq!(w.cursor_x, 0);
    assert_eq!(w.cursor_y, 0);
    assert_eq!(lines_of(&w), vec!["abc"]);
}

#[test]
fn insert_moves_cursor_past_text() {
    let mut w = window(&["hello"], 2, 0);
    w.insert_str_at_cursor("XY");
    assert_eq!(lines_of(&w), vec!["heXYllo"]);
    assert_eq!(w.cursor_x, 4);
}

#[test]
fn insert_counts_bytes() {
    let mut w = window(&["ab"], 1, 0);
    w.insert_str_at_cursor("£");
    assert_eq!(lines_of(&w), vec!["a£b"]);
    assert_eq!(w.cursor_x, 3);
}

#[test]
fn removing_inside_a_wide_character_faults() {
    let w = window(&["a£b"], 3, 0);
    assert!(w.remove_would_fault());
    assert!(w.backspace_would_fault());
    let w = window(&["a£b"], 1, 0);
    assert!(!w.remove_would_fault());
}

#[test]
fn backspace_at_line_end_pops_a_wide_character() {
    let mut w = window(&["a£"], 3, 0);
    let mut acts = Vec::new();
    w.backspace(&mut acts);
    assert_eq!(lines_of(&w), vec!["a"]);
    assert_eq!(w.cursor_x, 2);
    assert!(!w.is_at_boundary());
    assert_eq!(acts, vec![ViewAction::FollowCursor { x: 2, y: 0 }]);
}

#[test]
fn arrows_move_by_bytes() {
    let mut w = window(&["£x"], 0, 0);
    w.move_right();
    assert_eq!(w.cursor_x, 1);
    assert!(!w.is_at_boundary());
    assert!(w.enter_would_fault());
    w.move_right();
    assert!(w.is_at_boundary());
    assert!(!w.enter_would_fault());
}

#[test]
fn enter_beyond_line_end_opens_empty_line() {
    let mut w = window(&["a"], 2, 0);
    assert!(!w.enter_would_fault());
    let mut acts = Vec::new();
    w.enter(&mut acts);
    assert_eq!(lines_of(&w), vec!["a", ""]);
    assert_eq!((w.cursor_x, w.cursor_y), (0, 1));
}

#[test]
fn remove_inside_line() {
    let mut w = window(&["abc"], 2, 0);
    assert_eq!(w.remove_at_cursor(), Some('b'));
    assert_eq!(lines_of(&w), vec!["ac"]);
    assert_eq!(w.cursor_x, 2);
}

#[test]
fn remove_at_end_of_line() {
    let mut w = window(&["abc"], 3, 0);
    assert_eq!(w.remove_at_cursor(), Some('c'));
    assert_eq!(lines_of(&w), vec!["ab"]);
}

#[test]
fn remove_at_line_start_removes_nothing() {
    let mut w = window(&["abc"], 0, 0);
    assert_eq!(w.remove_at_cursor(), None);
    assert_eq!(lines_of(&w), vec!["abc"]);
}

#[test]
fn backspace_removes_and_steps_back() {
    let mut w = window(&["abc"], 2, 0);
    let mut acts = Vec::new();
    w.backspace(&mut acts);
    assert_eq!(lines_of(&w), vec!["ac"]);
    assert_eq!(w.cursor_x, 1);
    assert_eq!(acts, vec![ViewAction::FollowCursor { x: 1, y: 0 }]);
}

#[test]
fn backspace_to_column_zero_resets_offset() {
    let mut w = window(&["abc"], 1, 0);
    let mut acts = Vec::new();
    w.backspace(&mut acts);
    assert_eq!(lines_of(&w), vec!["bc"]);
    assert_eq!(acts, vec![ViewAction::ResetOffsetX, ViewAction::FollowCursor { x: 0, y: 0 }]);
}

#[test]
fn backspace_at_line_start_joins_lines() {
    let mut w = window(&["ab", "cd", "ef"], 0, 1);
    let mut acts = Vec::new();
    w.backspace(&mut acts);
    assert_eq!(lines_of(&w), vec!["abcd", "ef"]);
    assert_eq!((w.cursor_x, w.cursor_y), (2, 0));
    assert_eq!(acts, vec![ViewAction::FitLine { len: 2 }, ViewAction::FollowCursor { x: 2, y: 0 }]);
}

#[test]
fn backspace_at_text_start_does_nothing() {
    let mut w = window(&["ab"], 0, 0);
    let mut acts = Vec::new();
    w.backspace(&mut acts);
    assert_eq!(lines_of(&w), vec!["ab"]);
    assert_eq!(acts, vec![ViewAction::FollowCursor { x: 0, y: 0 }]);
}

#[test]
fn backspace_after_three_spaces_jumps_back() {
    let mut w = window(&["x    "], 5, 0);
    let mut acts = Vec::new();
    w.backspace(&mut acts);
    assert_eq!(lines_of(&w), vec!["x   "]);
    assert_eq!(w.cursor_x, 1);
    assert_eq!(acts, vec![ViewAction::FollowCursor { x: 1, y: 0 }]);
}

#[test]
fn backspace_fault_is_detected() {
    let w = window(&["a bcd"], 2, 0);
    assert!(w.backspace_would_fault());
    let w = window(&["a bc"], 4, 0);
    assert!(!w.backspace_would_fault());
    let w = window(&["a b"], 2, 0);
    assert!(!w.backspace_would_fault());
}

#[test]
fn enter_splits_line() {
    let mut w = window(&["hello", "z"], 2, 0);
    let mut acts = Vec::new();
    w.enter(&mut acts);
    assert_eq!(lines_of(&w), vec!["he", "llo", "z"]);
    assert_eq!((w.cursor_x, w.cursor_y), (0, 1));
    assert_eq!(acts, vec![ViewAction::ResetOffsetX, ViewAction::FollowCursor { x: 0, y: 1 }]);
}

#[test]
fn enter_at_line_end_opens_empty_line() {
    let mut w = window(&["ab"], 2, 0);
    let mut acts = Vec::new();
    w.enter(&mut acts);
    assert_eq!(lines_of(&w), vec!["ab", ""]);
}

#[test]
fn backspace_undoes_enter() {
    let mut w = window(&["one", "hello", "two"], 3, 1);
    let mut acts = Vec::new();
    w.enter(&mut acts);
    w.backspace(&mut acts);
    assert_eq!(lines_of(&w), vec!["one", "hello", "two"]);
    assert_eq!((w.cursor_x, w.cursor_y), (3, 1));
}

#[test]
fn backspace_undoes_typing() {
    let mut w = window(&["hello"], 3, 0);
    w.insert_str_at_cursor("z");
    let mut acts = Vec::new();
    w.backspace(&mut acts);
    assert_eq!(lines_of(&w), vec!["hello"]);
    assert_eq!(w.cursor_x, 3);
}

#[test]
fn backspace_after_typed_space_restores_text_only() {
    let mut w = window(&["a   bc"], 4, 0);
    w.insert_str_at_cursor(" ");
    let mut acts = Vec::new();
    w.backspace(&mut acts);
    assert_eq!(lines_of(&w), vec!["a   bc"]);
    assert_eq!(w.cursor_x, 1);
}

#[test]
fn arrows_clamp_to_line_length() {
    let mut w = window(&["abcdef", "ab", "abcd"], 5, 0);
    w.move_down();
    assert_eq!((w.cursor_x, w.cursor_y), (2, 1));
    w.move_down();
    assert_eq!((w.cursor_x, w.cursor_y), (2, 2));
    w.move_down();
    assert_eq!((w.cursor_x, w.cursor_y), (2, 2));
    w.move_up();
    w.move_up();
    w.move_up();
    assert_eq!((w.cursor_x, w.cursor_y), (2, 0));
}

#[test]
fn left_and_right_stop_at_line_ends() {
    let mut w = window(&["ab"], 0, 0);
    w.move_left();
    assert_eq!(w.cursor_x, 0);
    w.move_right();
    w.move_right();
    w.move_right();
    assert_eq!(w.cursor_x, 2);
    w.move_left();
    w.move_right();
    assert_eq!(w.cursor_x, 2);
}

#[test]
fn tab_inserts_four_spaces() {
    let mut w = window(&["ab"], 1, 0);
    w.tab();
    assert_eq!(lines_of(&w), vec!["a    b"]);
    assert_eq!(w.cursor_x, 5);
}

#[test]
fn backspace_after_tab_moves_back_over_the_tab() {
    let mut w = window(&["ab"], 1, 0);
    w.tab();
    let mut acts = Vec::new();
    w.backspace(&mut acts);
    assert_eq!(lines_of(&w), vec!["a   b"]);
    assert_eq!(w.cursor_x, 1);
}

#[test]
fn split_lines_on_newlines() {
    assert_eq!(split_text_lines("a\nb\n"), vec!["a", "b", ""]);
    assert_eq!(split_text_lines(""), vec![""]);
    assert_eq!(split_text_lines("\n\nx"), vec!["", "", "x"]);
    assert_eq!(split_text_lines("a\r\nb"), vec!["a\r", "b"]);
}

#[test]
fn split_then_join_gives_text_back() {
    let text = "fn main() {\n    x\n}\n";
    assert_eq!(split_text_lines(text).join("\n"), text);
}

#[test]
fn load_text_keeps_cursor() {
    let mut w = window(&["old"], 2, 0);
    w.load_text("first\nsecond");
    assert_eq!(lines_of(&w), vec!["first", "second"]);
    assert_eq!((w.cursor_x, w.cursor_y), (2, 0));
}

#[test]
fn duplicate_is_equal() {
    let w = window(&["a", "b"], 1, 1);
    let d = w.duplicate();
    assert_eq!(lines_of(&d), vec!["a", "b"]);
    assert_eq!((d.cursor_x, d.cursor_y), (1, 1));
}
