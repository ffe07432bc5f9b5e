use melon::input::trigger::{classify_input, InputAction};

#[test]
fn test_tab() {
    let (action, consumed) = classify_input(&[0x09]);
    assert_eq!(action, InputAction::Tab);
    assert_eq!(consumed, 1);
}

#[test]
fn test_arrow_keys() {
    let (action, _) = classify_input(&[0x1b, b'[', b'A']);
    assert_eq!(action, InputAction::Up);
    let (action, _) = classify_input(&[0x1b, b'[', b'B']);
    assert_eq!(action, InputAction::Down);
    let (action, _) = classify_input(&[0x1b, b'[', b'C']);
    assert_eq!(action, InputAction::Right);
    let (action, _) = classify_input(&[0x1b, b'[', b'D']);
    assert_eq!(action, InputAction::Left);
}

#[test]
fn test_escape() {
    let (action, _) = classify_input(&[0x1b]);
    assert_eq!(action, InputAction::Escape);
}

#[test]
fn test_enter() {
    let (action, _) = classify_input(&[0x0d]);
    assert_eq!(action, InputAction::Enter);
}

#[test]
fn test_regular_char() {
    let (action, consumed) = classify_input(b"a");
    assert_eq!(action, InputAction::Passthrough);
    assert_eq!(consumed, 1);
}

#[test]
fn test_shift_tab() {
    let (action, consumed) = classify_input(&[0x1b, b'[', b'Z']);
    assert_eq!(action, InputAction::ShiftTab);
    assert_eq!(consumed, 3);
}

#[test]
fn test_delete_and_home_end() {
    let (action, consumed) = classify_input(&[0x1b, b'[', b'3', b'~']);
    assert_eq!(action, InputAction::Delete);
    assert_eq!(consumed, 4);

    let (action, _) = classify_input(&[0x01]);
    assert_eq!(action, InputAction::Home);
    let (action, _) = classify_input(&[0x05]);
    assert_eq!(action, InputAction::End);
}

#[test]
fn classify_control_keys() {
    assert_eq!(classify_input(&[0x03]).0, InputAction::CtrlC);
    assert_eq!(classify_input(&[0x1a]).0, InputAction::CtrlZ);
    assert_eq!(classify_input(&[0x0a]).0, InputAction::CtrlJ);
    assert_eq!(classify_input(&[0x0b]).0, InputAction::CtrlK);
    assert_eq!(classify_input(&[0x17]).0, InputAction::KillWord);
    assert_eq!(classify_input(&[0x15]).0, InputAction::KillLine);
    assert_eq!(classify_input(&[0x7f]).0, InputAction::Backspace);
}

#[test]
fn classify_empty_input_consumes_nothing() {
    let (_, consumed) = classify_input(&[]);
    assert_eq!(consumed, 0);
}
