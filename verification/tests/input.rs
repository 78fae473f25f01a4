use lem_ratatui::input::{convert, KeyCode, KeyEvent, KeyModifiers, KeyPayload};

fn key(code: KeyCode, modifiers: u8) -> Option<KeyPayload> {
    convert(KeyEvent::new(code, modifiers))
}

#[test]
fn plain_characters_become_single_character_syms() {
    let payload = key(KeyCode::Char('a'), KeyModifiers::NONE).unwrap();
    assert_eq!(payload.key, "a");
    assert!(!payload.ctrl && !payload.meta && !payload.shift && !payload.super_);
}

#[test]
fn control_and_alt_are_carried_as_flags() {
    let payload = key(KeyCode::Char('x'), KeyModifiers::CONTROL).unwrap();
    assert_eq!(payload.key, "x");
    assert!(payload.ctrl);

    let payload = key(KeyCode::Char('x'), KeyModifiers::ALT).unwrap();
    assert!(payload.meta, "ALT is Lem's meta");
}

#[test]
fn shift_is_dropped_for_insertion_keys() {
    let payload = key(KeyCode::Char('A'), KeyModifiers::SHIFT).unwrap();
    assert_eq!(payload.key, "A");
    assert!(!payload.shift, "shift must be dropped for a 1-char sym");
}

#[test]
fn shift_survives_for_named_keys() {
    let payload = key(KeyCode::F(3), KeyModifiers::SHIFT).unwrap();
    assert_eq!(payload.key, "F3");
    assert!(payload.shift);
}

#[test]
fn space_has_its_own_sym() {
    let payload = key(KeyCode::Char(' '), KeyModifiers::NONE).unwrap();
    assert_eq!(payload.key, "Space");
    assert!(!payload.shift);
}

#[test]
fn named_keys_use_lems_vocabulary() {
    for (code, expected) in [
        (KeyCode::Enter, "Return"),
        (KeyCode::Tab, "Tab"),
        (KeyCode::BackTab, "Tab"),
        (KeyCode::Esc, "Escape"),
        (KeyCode::Backspace, "Backspace"),
        (KeyCode::Delete, "Delete"),
        (KeyCode::Up, "Up"),
        (KeyCode::Down, "Down"),
        (KeyCode::Left, "Left"),
        (KeyCode::Right, "Right"),
        (KeyCode::Home, "Home"),
        (KeyCode::End, "End"),
        (KeyCode::PageUp, "PageUp"),
        (KeyCode::PageDown, "PageDown"),
        (KeyCode::F(1), "F1"),
        (KeyCode::F(12), "F12"),
    ] {
        assert_eq!(
            key(code, KeyModifiers::NONE).unwrap().key,
            expected,
            "{code:?}"
        );
    }
}

#[test]
fn back_tab_carries_shift() {
    let payload = key(KeyCode::BackTab, KeyModifiers::NONE).unwrap();
    assert_eq!(payload.key, "Tab");
    assert!(payload.shift);
}

#[test]
fn the_c0_controls_keep_their_ascii_names() {
    for (reported, expected) in [('4', "\\"), ('5', "]"), ('6', "^"), ('7', "_")] {
        let payload = key(KeyCode::Char(reported), KeyModifiers::CONTROL).unwrap();
        assert_eq!(payload.key, expected, "Ctrl+{reported}");
        assert!(payload.ctrl);
    }
}

#[test]
fn digits_without_control_are_left_alone() {
    assert_eq!(
        key(KeyCode::Char('4'), KeyModifiers::NONE).unwrap().key,
        "4"
    );
}

#[test]
fn unmapped_keys_are_dropped() {
    assert!(key(KeyCode::Null, KeyModifiers::NONE).is_none());
}

#[test]
fn a_multibyte_character_is_one_sym() {
    let payload = key(KeyCode::Char('é'), KeyModifiers::NONE).unwrap();
    assert_eq!(payload.key, "é");
    assert!(!payload.shift, "one char, so shift is dropped");
}

#[test]
fn super_and_combined_modifiers_are_all_carried() {
    let payload = key(
        KeyCode::Up,
        KeyModifiers::CONTROL | KeyModifiers::ALT | KeyModifiers::SUPER | KeyModifiers::SHIFT,
    )
    .unwrap();
    assert_eq!(payload.key, "Up");
    assert!(payload.ctrl && payload.meta && payload.super_ && payload.shift);
}

#[test]
fn other_unnamed_keys_are_dropped_too() {
    for code in [KeyCode::Insert, KeyCode::CapsLock, KeyCode::Menu, KeyCode::Media] {
        assert!(key(code, KeyModifiers::NONE).is_none(), "{code:?}");
    }
}

#[test]
fn control_with_other_digits_keeps_the_digit() {
    assert_eq!(key(KeyCode::Char('3'), KeyModifiers::CONTROL).unwrap().key, "3");
    assert_eq!(key(KeyCode::Char('8'), KeyModifiers::CONTROL).unwrap().key, "8");
}

#[test]
fn function_keys_past_nine_are_spelled_in_decimal() {
    assert_eq!(key(KeyCode::F(255), KeyModifiers::NONE).unwrap().key, "F255");
    assert_eq!(key(KeyCode::F(0), KeyModifiers::NONE).unwrap().key, "F0");
}
