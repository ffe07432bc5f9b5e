use melon::completion::matcher::ScoredCandidate;
use melon::completion::spec::{CandidateKind, CompletionCandidate};
use melon::input::trigger::{classify_input, InputAction};
use melon::pty::session::{apply_completion_edit, cursor_position_from_line, Effect, Mode, Need, ProxySession};
use melon::input::line::{CompletionEdit, LineState};
use melon::shell::detect::ShellType;
use melon::ui::render::Theme;

fn scored(name: &str, kind: CandidateKind) -> ScoredCandidate {
    ScoredCandidate {
        candidate: CompletionCandidate {
            name: name.to_string(),
            insert_value: None,
            display_name: None,
            description: None,
            icon: None,
            priority: 50,
            kind,
        },
        score: 1,
    }
}

fn session() -> ProxySession {
    ProxySession::new(ShellType::Zsh, Theme::default(), 8, "/tmp".to_string(), 3, 2)
}

fn type_text(s: &mut ProxySession, text: &str) {
    let bytes = text.as_bytes();
    let mut offset = 0;
    while offset < bytes.len() {
        let (action, consumed) = classify_input(&bytes[offset..]);
        let chunk = &bytes[offset..offset + consumed];
        let (fx, need) = s.key(action, chunk, 80, 24);
        assert!(fx.is_empty());
        assert_eq!(need, Need::Nothing);
        offset += consumed;
    }
}

fn pty_bytes(fx: &[Effect]) -> Vec<u8> {
    let mut out = Vec::new();
    for e in fx {
        if let Effect::Pty(b) = e {
            out.extend_from_slice(b);
        }
    }
    out
}

#[test]
fn typed_text_is_tracked_and_flushed() {
    let mut s = session();
    type_text(&mut s, "git co");
    assert_eq!(s.completion_input(), "git co");
    assert_eq!((s.last_cursor_row, s.last_cursor_col), (3, 8));
    let (fx, refresh) = s.flush();
    assert!(!refresh);
    assert_eq!(pty_bytes(&fx), b"git co".to_vec());
    let (fx, _) = s.flush();
    assert!(fx.is_empty());
}

#[test]
fn tab_on_a_blank_line_goes_to_the_shell() {
    let mut s = session();
    let (fx, need) = s.key(InputAction::Tab, &[0x09], 80, 24);
    assert_eq!(need, Need::Nothing);
    assert_eq!(pty_bytes(&fx), vec![0x09]);
}

#[test]
fn tab_opens_navigates_and_accepts() {
    let mut s = session();
    type_text(&mut s, "git co");
    let _ = s.flush();
    let (fx, need) = s.key(InputAction::Tab, &[0x09], 80, 24);
    assert!(fx.is_empty());
    assert_eq!(need, Need::Open);
    let fx = s.open_with(
        vec![scored("commit", CandidateKind::Subcommand), scored("config", CandidateKind::Subcommand)],
        2,
        80,
        24,
    );
    assert_eq!(s.mode, Mode::PopupActive);
    assert!(matches!(fx[0], Effect::Draw(_)));
    assert!(s.popup_lines > 0);
    let (fx, _) = s.key(InputAction::Down, &[0x1b, b'[', b'B'], 80, 24);
    assert!(matches!(fx[0], Effect::Draw(_)));
    assert_eq!(s.popup.selected, 1);
    let (fx, need) = s.key(InputAction::Enter, &[0x0d], 80, 24);
    assert_eq!(need, Need::Nothing);
    assert!(matches!(fx[0], Effect::Clear { .. }));
    let mut expected = vec![0x7f, 0x7f];
    expected.extend_from_slice(b"config ");
    assert_eq!(pty_bytes(&fx), expected);
    assert_eq!(s.mode, Mode::Passthrough);
    assert_eq!(s.completion_input(), "git config ");
    assert_eq!(s.popup_lines, 0);
}

#[test]
fn escape_dismisses_without_touching_the_shell() {
    let mut s = session();
    type_text(&mut s, "git c");
    let _ = s.key(InputAction::Tab, &[0x09], 80, 24);
    let _ = s.open_with(vec![scored("commit", CandidateKind::Subcommand)], 1, 80, 24);
    let (fx, _) = s.key(InputAction::Escape, &[0x1b], 80, 24);
    assert_eq!(fx.len(), 1);
    assert!(matches!(fx[0], Effect::Clear { .. }));
    assert_eq!(s.mode, Mode::Passthrough);
    assert!(s.popup.items.is_empty());
    assert_eq!(s.completion_input(), "git c");
}

#[test]
fn another_key_closes_the_popup_and_reaches_the_shell() {
    let mut s = session();
    type_text(&mut s, "git c");
    let _ = s.key(InputAction::Tab, &[0x09], 80, 24);
    let _ = s.open_with(vec![scored("commit", CandidateKind::Subcommand)], 1, 80, 24);
    assert_eq!(s.mode, Mode::PopupActive);
    let (fx, need) = s.key(InputAction::CtrlZ, &[0x1a], 80, 24);
    assert_eq!(need, Need::Nothing);
    assert_eq!(fx.len(), 2);
    assert!(matches!(fx[0], Effect::Clear { .. }));
    assert_eq!(pty_bytes(&fx), vec![0x1a]);
    assert_eq!(s.mode, Mode::Passthrough);
    assert!(s.popup.items.is_empty());
    assert_eq!(s.completion_input(), "git c");
}

#[test]
fn editing_in_the_popup_asks_for_a_refresh() {
    let mut s = session();
    type_text(&mut s, "git co");
    let _ = s.key(InputAction::Tab, &[0x09], 80, 24);
    let _ = s.open_with(vec![scored("commit", CandidateKind::Subcommand)], 2, 80, 24);
    let (fx, need) = s.key(InputAction::Backspace, &[0x7f], 80, 24);
    assert_eq!(need, Need::Refresh);
    assert_eq!(pty_bytes(&fx), vec![0x7f]);
    assert_eq!(s.completion_input(), "git c");
    let fx = s.refresh_with(vec![], 1, 80, 24);
    assert!(matches!(fx[0], Effect::Clear { .. }));
    assert_eq!(s.mode, Mode::Passthrough);
}

#[test]
fn an_empty_completion_sends_the_tab_on() {
    let mut s = session();
    type_text(&mut s, "zzz");
    let (_, need) = s.key(InputAction::Tab, &[0x09], 80, 24);
    assert_eq!(need, Need::Open);
    let fx = s.open_with(vec![], 3, 80, 24);
    assert_eq!(pty_bytes(&fx), vec![0x09]);
    assert_eq!(s.mode, Mode::Passthrough);
}

#[test]
fn accepting_a_folder_adds_no_space_and_quotes_are_respected() {
    let mut s = session();
    type_text(&mut s, "cd 'my d");
    let _ = s.key(InputAction::Tab, &[0x09], 80, 24);
    let _ = s.open_with(vec![scored("my dir/", CandidateKind::Folder)], 4, 80, 24);
    let (fx, _) = s.key(InputAction::Enter, &[0x0d], 80, 24);
    let mut expected = vec![0x7f; 4];
    expected.extend_from_slice(b"my dir/");
    assert_eq!(pty_bytes(&fx), expected);
    assert_eq!(s.completion_input(), "cd 'my dir/");
}

#[test]
fn accepting_replaces_the_raw_escaped_token() {
    let mut s = session();
    type_text(&mut s, "cat hello\\ wor");
    assert_eq!(s.completion_input(), "cat hello\\ wor");
    let _ = s.key(InputAction::Tab, &[0x09], 80, 24);
    let _ = s.open_with(vec![scored("hello world.txt", CandidateKind::File)], 9, 80, 24);
    let (fx, _) = s.key(InputAction::Enter, &[0x0d], 80, 24);
    let mut expected = vec![0x7f; 10];
    expected.extend_from_slice(b"hello\\ world.txt ");
    assert_eq!(pty_bytes(&fx), expected);
    assert_eq!(s.completion_input(), "cat hello\\ world.txt ");
}

#[test]
fn accepting_an_insert_value_places_the_cursor() {
    let mut s = session();
    type_text(&mut s, "git comm");
    let _ = s.key(InputAction::Tab, &[0x09], 80, 24);
    let mut item = scored("commit", CandidateKind::Subcommand);
    item.candidate.insert_value = Some("commit -m '{cursor}'".into());
    let _ = s.open_with(vec![item], 4, 80, 24);
    let (fx, _) = s.key(InputAction::Enter, &[0x0d], 80, 24);
    let mut expected = vec![0x7f; 4];
    expected.extend_from_slice(b"commit -m ''");
    expected.extend_from_slice(&[0x1b, b'[', b'D']);
    assert_eq!(pty_bytes(&fx), expected);
    assert_eq!(s.completion_input(), "git commit -m '");
}

#[test]
fn shell_output_moves_the_cursor_and_sets_the_directory() {
    let mut s = session();
    assert!(s.shell_output(b"\x1b]7;file://host/var/log\x07$ ", 80, 24));
    assert_eq!(s.current_cwd, "/var/log");
    assert_eq!(s.last_cursor_col, 4);
}

#[test]
fn child_exit_closes_the_popup() {
    let mut s = session();
    type_text(&mut s, "git c");
    let _ = s.key(InputAction::Tab, &[0x09], 80, 24);
    let _ = s.open_with(vec![scored("commit", CandidateKind::Subcommand)], 1, 80, 24);
    let fx = s.child_exited();
    assert_eq!(fx.len(), 1);
    assert_eq!(s.mode, Mode::Passthrough);
    assert!(s.child_exited().is_empty());
}

#[test]
fn completion_edit_keystrokes() {
    let edit = CompletionEdit { delete_left: 2, delete_right: 1, insert_text: "ab".into(), move_left: 0 };
    assert_eq!(apply_completion_edit(&edit), vec![0x1b, b'[', b'3', b'~', 0x7f, 0x7f, b'a', b'b']);
    let edit = CompletionEdit { delete_left: 0, delete_right: 0, insert_text: "''".into(), move_left: 1 };
    assert_eq!(apply_completion_edit(&edit), vec![b'\'', b'\'', 0x1b, b'[', b'D']);
}

#[test]
fn cursor_position_wraps_long_lines() {
    let mut line = LineState::default();
    line.insert_text(&"x".repeat(100));
    assert_eq!(cursor_position_from_line(&line, 3, 10, 80, 24), (4, 30));
    assert_eq!(cursor_position_from_line(&line, 23, 10, 80, 24), (23, 30));
    assert_eq!(cursor_position_from_line(&line, 3, 10, 0, 24), (3, 10));
}
