use viogg::keys::{default_key_table, pressed_keys, KeyState, SCAN_BACKSPACE};
use viogg::paths::{cwd_label_of, entry_label_of, last_path_component, to_ascii_upper};

fn kbd(pressed: &[u32], just: &[u32], repeated: bool, shift: bool) -> KeyState {
    KeyState { pressed: pressed.to_vec(), just_pressed: just.to_vec(), repeated, shift }
}

#[test]
fn key_table_has_all_bindings() {
    let t = default_key_table();
    assert_eq!(t.len(), 49);
    assert_eq!(t[0], (0x10, 'q', 'Q'));
    assert_eq!(t[35], (0x29, '`', '¬'));
    assert_eq!(t[38], (0x04, '3', '£'));
    assert_eq!(t[48], (0x39, ' ', ' '));
}

#[test]
fn just_pressed_key_types_plain_char() {
    let t = default_key_table();
    assert_eq!(pressed_keys(&t, &kbd(&[0x10], &[0x10], false, false)), "q");
}

#[test]
fn shift_types_shifted_char() {
    let t = default_key_table();
    assert_eq!(pressed_keys(&t, &kbd(&[0x02], &[0x02], false, true)), "!");
}

#[test]
fn held_key_types_only_when_repeating() {
    let t = default_key_table();
    assert_eq!(pressed_keys(&t, &kbd(&[0x1E], &[], false, false)), "");
    assert_eq!(pressed_keys(&t, &kbd(&[0x1E], &[], true, false)), "a");
}

#[test]
fn several_keys_come_in_table_order() {
    let t = default_key_table();
    // 'a' (0x1E) comes after 'q' (0x10) in the table, whatever the press order.
    assert_eq!(pressed_keys(&t, &kbd(&[0x1E, 0x10], &[0x1E, 0x10], false, false)), "qa");
}

#[test]
fn unbound_keys_type_nothing() {
    let t = default_key_table();
    assert_eq!(pressed_keys(&t, &kbd(&[SCAN_BACKSPACE], &[SCAN_BACKSPACE], false, false)), "");
}

#[test]
fn is_down_follows_press_and_repeat() {
    assert!(kbd(&[5], &[5], false, false).is_down(5));
    assert!(!kbd(&[5], &[], false, false).is_down(5));
    assert!(kbd(&[5], &[], true, false).is_down(5));
    assert!(!kbd(&[], &[], true, false).is_down(5));
}

#[test]
fn last_component_after_separators() {
    assert_eq!(last_path_component("/home/user/src"), "src");
    assert_eq!(last_path_component("a'b"), "b");
    assert_eq!(last_path_component("dir/"), "");
    assert_eq!(last_path_component("plain"), "plain");
    assert_eq!(last_path_component("a\\b"), "a\\b");
}

#[test]
fn entry_labels_mark_directories() {
    assert_eq!(entry_label_of("./src/main.rs", false), "main.rs");
    assert_eq!(entry_label_of("./src", true), "./src");
}

#[test]
fn upper_case_is_ascii_only() {
    assert_eq!(to_ascii_upper("my-Dir2 é"), "MY-DIR2 é");
}

#[test]
fn cwd_label_upper_cases_last_component() {
    assert_eq!(cwd_label_of(Some("/home/bob/proj")), "CWD: ./PROJ");
    assert_eq!(cwd_label_of(None), "CWD: ./WD404");
}
