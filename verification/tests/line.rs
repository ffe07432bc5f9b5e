use melon::input::line::{CompletionEdit, CompletionText, LineState};
use melon::input::parser::{completion_edit_context, QuoteMode};

#[test]
fn test_insert_mid_line() {
    let mut line = LineState::default();
    line.insert_text("git commit");
    line.move_left();
    line.move_left();
    line.insert_text("x");
    assert_eq!(line.buffer(), "git commxit");
    assert_eq!(line.cursor(), "git commx".len());
}

#[test]
fn test_apply_completion_replaces_suffix_of_current_token() {
    let mut line = LineState::default();
    line.insert_text("git cheout");
    line.move_left();
    line.move_left();
    line.move_left();
    let edit = line.apply_completion("checkout", 3, true);
    assert_eq!(
        edit,
        CompletionEdit {
            delete_left: 3,
            delete_right: 3,
            insert_text: "checkout ".into(),
            move_left: 0,
        }
    );
    assert_eq!(line.buffer(), "git checkout ");
}

#[test]
fn test_kill_last_word_respects_cursor() {
    let mut line = LineState::default();
    line.insert_text("git commit --amend");
    line.move_left();
    line.move_left();
    let removed = line.kill_last_word();
    assert_eq!(removed, 5);
    assert_eq!(line.buffer(), "git commit nd");
}

#[test]
fn test_should_append_space_only_at_end_of_token() {
    let mut line = LineState::default();
    line.insert_text("git cheout");
    line.move_left();
    line.move_left();
    line.move_left();
    assert!(!line.should_append_space(false, 3));
    line.move_end();
    assert!(line.should_append_space(false, 3));
    assert!(!line.should_append_space(true, 3));
}

#[test]
fn test_should_append_space_for_new_token_at_boundary() {
    let mut line = LineState::default();
    line.insert_text("git ");
    assert!(line.should_append_space(false, 0));

    line.insert_text("commit");
    line.move_home();
    assert!(!line.should_append_space(false, 0));
}

#[test]
fn line_cursor_counts_bytes_of_multibyte_text() {
    let mut line = LineState::default();
    line.insert_text("héllo");
    assert_eq!(line.cursor(), "héllo".len());
    line.move_left();
    assert_eq!(line.before_cursor(), "héll");
    assert_eq!(line.len_bytes(), 6);
}

#[test]
fn line_backspace_and_delete_at_edges() {
    let mut line = LineState::default();
    assert!(!line.backspace());
    assert!(!line.delete());
    line.insert_text("ab");
    assert!(!line.delete());
    assert!(line.backspace());
    assert_eq!(line.buffer(), "a");
    line.move_home();
    assert!(line.delete());
    assert_eq!(line.buffer(), "");
}

#[test]
fn line_kill_line_removes_text_before_cursor() {
    let mut line = LineState::default();
    line.insert_text("echo hello");
    line.move_left();
    line.move_left();
    assert_eq!(line.kill_line(), 8);
    assert_eq!(line.buffer(), "lo");
    assert_eq!(line.cursor(), 0);
}

#[test]
fn line_insert_bytes_ignores_invalid_utf8() {
    let mut line = LineState::default();
    line.insert_bytes(&[0xff, 0xfe]);
    assert_eq!(line.buffer(), "");
    line.insert_bytes("ü".as_bytes());
    assert_eq!(line.buffer(), "ü");
}

#[test]
fn line_apply_completion_with_empty_partial_inserts_at_cursor() {
    let mut line = LineState::default();
    line.insert_text("git ");
    let edit = line.apply_completion("status", 0, false);
    assert_eq!(edit.delete_left, 0);
    assert_eq!(edit.delete_right, 0);
    assert_eq!(line.buffer(), "git status");
}

#[test]
fn insert_values_place_the_cursor_and_apply_backspaces() {
    let t = CompletionText::from_insert_value("commit -m '{cursor}'");
    assert_eq!(t.text, "commit -m ''");
    assert_eq!(t.cursor, 11);
    assert!(!t.cursor_at_end());
    assert_eq!(t.erase, 0);
    assert!(!t.submits_line);

    let t = CompletionText::from_insert_value("ab\u{8}c");
    assert_eq!((t.text.as_str(), t.cursor, t.erase), ("ac", 2, 0));
    let t = CompletionText::from_insert_value("\u{8}\u{8}x");
    assert_eq!((t.text.as_str(), t.cursor, t.erase), ("x", 1, 2));
    let t = CompletionText::from_insert_value("ls\n");
    assert!(t.submits_line);
    assert!(t.cursor_at_end());
    let t = CompletionText::from_insert_value("plain");
    assert_eq!((t.text.as_str(), t.cursor, t.erase, t.submits_line), ("plain", 5, 0, false));
}

#[test]
fn edit_context_spans_the_raw_token_or_the_open_quote() {
    let ctx = completion_edit_context("cat hello\\ wor", 14);
    assert_eq!((ctx.replacement_start, ctx.replacement_end, ctx.quote_mode), (4, 14, QuoteMode::Plain));
    let ctx = completion_edit_context("cd 'my d", 8);
    assert_eq!((ctx.replacement_start, ctx.replacement_end, ctx.quote_mode), (4, 8, QuoteMode::Single));
    let ctx = completion_edit_context("git co|grep x", 6);
    assert_eq!((ctx.replacement_start, ctx.replacement_end), (4, 6));
    let ctx = completion_edit_context("echo \"a b\" rest", 8);
    assert_eq!((ctx.replacement_start, ctx.replacement_end, ctx.quote_mode), (6, 9, QuoteMode::Double));
}

#[test]
fn span_completion_erases_inserts_and_moves_back() {
    let mut line = LineState::default();
    line.insert_text("git comm");
    let t = CompletionText::from_insert_value("commit -m '{cursor}'");
    let edit = line.apply_completion_span(&t, 4, 8, false);
    assert_eq!(
        edit,
        CompletionEdit {
            delete_left: 4,
            delete_right: 0,
            insert_text: "commit -m ''".into(),
            move_left: 1,
        }
    );
    assert_eq!(line.buffer(), "git commit -m ''");
    assert_eq!(line.before_cursor(), "git commit -m '");
    assert!(line.should_append_space_for_span(false, 16, QuoteMode::Plain));
    assert!(!line.should_append_space_for_span(true, 16, QuoteMode::Plain));
    assert!(!line.should_append_space_for_span(false, 16, QuoteMode::Double));
    assert!(!line.should_append_space_for_span(false, 15, QuoteMode::Plain));
}
