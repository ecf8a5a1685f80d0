use viogg::editor::{ClickStep, Editor};
use viogg::explorer::DirectoryNode;
use viogg::keys::{KeyState, SCAN_BACKSPACE, SCAN_DOWN, SCAN_ENTER, SCAN_LEFT, SCAN_RIGHT, SCAN_TAB, SCAN_UP};
use viogg::text::{TextWindow, ViewAction};

fn editor(lines: &[&str], x: usize, y: usize) -> Editor {
    let mut w = TextWindow::new(lines.iter().map(|s| s.to_string()).collect());
    w.cursor_x = x;
    w.cursor_y = y;
    Editor::new(w, vec![DirectoryNode::new("./src".to_string(), true)])
}

fn press(codes: &[u32], shift: bool) -> KeyState {
    KeyState { pressed: codes.to_vec(), just_pressed: codes.to_vec(), repeated: false, shift }
}

fn lines_of(e: &Editor) -> Vec<String> {
    e.win().lines.clone()
}

#[test]
fn new_editor_has_one_window() {
    let e = editor(&["a"], 0, 0);
    assert_eq!(e.windows.len(), 1);
    assert_eq!(e.curr_window, 0);
    assert_eq!(e.keys_to_check.len(), 49);
    assert!(e.is_ready());
}

#[test]
fn frame_with_typing_follows_cursor() {
    let mut e = editor(&["bc"], 0, 0);
    let acts = e.update(&press(&[0x1E], false));
    assert_eq!(lines_of(&e), vec!["abc"]);
    assert_eq!(acts, vec![ViewAction::FollowCursor { x: 1, y: 0 }]);
}

#[test]
fn idle_frame_does_nothing() {
    let mut e = editor(&["bc"], 1, 0);
    let acts = e.update(&press(&[], false));
    assert_eq!(lines_of(&e), vec!["bc"]);
    assert!(acts.is_empty());
}

#[test]
fn frame_handles_keys_in_order() {
    let mut e = editor(&["hello"], 5, 0);
    // Typing 'x', then backspace removes it, then enter splits at the end.
    let acts = e.update(&press(&[0x2D, SCAN_BACKSPACE, SCAN_ENTER], false));
    assert_eq!(lines_of(&e), vec!["hello", ""]);
    assert_eq!(
        acts,
        vec![
            ViewAction::FollowCursor { x: 6, y: 0 },
            ViewAction::FollowCursor { x: 5, y: 0 },
            ViewAction::ResetOffsetX,
            ViewAction::FollowCursor { x: 0, y: 1 },
        ]
    );
}

#[test]
fn arrows_and_tab_in_one_frame() {
    let mut e = editor(&["abc", "de"], 3, 0);
    let acts = e.update(&press(&[SCAN_DOWN, SCAN_LEFT, SCAN_TAB], false));
    // left first (x 3 -> 2 on line 0), then down (line 1, x stays 2), then tab.
    assert_eq!(lines_of(&e), vec!["abc", "de    "]);
    assert_eq!(
        acts,
        vec![
            ViewAction::FollowCursor { x: 2, y: 0 },
            ViewAction::FollowCursor { x: 2, y: 1 },
            ViewAction::FollowCursor { x: 6, y: 1 },
        ]
    );
}

#[test]
fn up_and_right_at_edges() {
    let mut e = editor(&["ab"], 2, 0);
    let acts = e.update(&press(&[SCAN_UP, SCAN_RIGHT], false));
    assert_eq!((e.win().cursor_x, e.win().cursor_y), (2, 0));
    assert_eq!(acts, vec![ViewAction::FollowCursor { x: 2, y: 0 }, ViewAction::FollowCursor { x: 2, y: 0 }]);
}

#[test]
fn fault_is_reported_before_update() {
    let e = editor(&["a bcd"], 2, 0);
    assert!(e.update_would_fault(&press(&[SCAN_BACKSPACE], false)));
    assert!(!e.update_would_fault(&press(&[], false)));
    // Typing 'q' first moves the cursor past the space.
    assert!(!e.update_would_fault(&press(&[0x10, SCAN_BACKSPACE], false)));
}

#[test]
fn remove_and_lnr() {
    let mut e = editor(&["xyz"], 1, 0);
    assert_eq!(e.remove_at_cursor(), Some('x'));
    assert_eq!(e.lnr(), "yz");
}

#[test]
fn load_and_bounded_lines() {
    let mut e = editor(&["old"], 0, 0);
    e.load_file_text("l0\nl1\nl2\nl3");
    assert_eq!(e.bounded_lines(1, 2), &["l1".to_string(), "l2".to_string()][..]);
    assert_eq!(e.bounded_lines(2, 1).len(), 0);
}

#[test]
fn load_can_leave_cursor_outside() {
    let mut e = editor(&["a", "b", "c"], 0, 2);
    e.load_file_text("only");
    assert!(!e.is_ready());
}

#[test]
fn click_explorer_steps() {
    let mut e = editor(&["a"], 0, 0);
    assert!(e.explorer_fits());
    match e.click_explorer(&vec![true], false, &vec![]) {
        ClickStep::NeedListing(p) => assert_eq!(p, "./src"),
        ClickStep::Finished(_) => panic!("a listing is needed"),
    }
    assert!(!e.top_level_directory[0].opened);
    let listing = vec![Some(vec![DirectoryNode::new("./src/main.rs".to_string(), false)])];
    match e.click_explorer(&vec![true], false, &listing) {
        ClickStep::Finished(f) => assert_eq!(f, None),
        ClickStep::NeedListing(_) => panic!("the listing was given"),
    }
    let rows: Vec<(usize, String)> = e.explorer_rows().into_iter().map(|r| (r.depth, r.label)).collect();
    assert_eq!(rows, vec![(0, "./src".to_string()), (1, "main.rs".to_string())]);
}

#[test]
fn typing_a_wide_character_moves_by_its_bytes() {
    let mut e = editor(&["ab"], 1, 0);
    // Shift + 3 types the pound sign, two bytes long.
    let acts = e.update(&press(&[0x04], true));
    assert_eq!(lines_of(&e), vec!["a£b"]);
    assert_eq!(acts, vec![ViewAction::FollowCursor { x: 3, y: 0 }]);
    assert!(e.is_ready());
}

#[test]
fn frame_that_would_fault_is_reported() {
    // Left then tab: the cursor lands inside the pound sign, where tab cannot insert.
    let e = editor(&["£"], 2, 0);
    assert!(e.update_would_fault(&press(&[SCAN_LEFT, SCAN_TAB], false)));
    assert!(!e.update_would_fault(&press(&[SCAN_LEFT], false)));
    // Right then tab likewise.
    let e = editor(&["£x"], 0, 0);
    assert!(e.update_would_fault(&press(&[SCAN_RIGHT, SCAN_TAB], false)));
}

#[test]
fn cursor_inside_a_character_is_not_ready() {
    let e = editor(&["£"], 1, 0);
    assert!(!e.is_ready());
}
