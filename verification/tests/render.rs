use melon::completion::matcher::ScoredCandidate;
use melon::completion::spec::{CandidateKind, CompletionCandidate};
use melon::ui::popup::PopupState;
use melon::ui::render::{
    bottom_border, clear_rows, fallback_icon, fig_icon_fallback, panel_content, row_cells,
    terminal_icon, truncate_to_width, truncate_with_ellipsis, word_wrap, PopupRenderer, RowTail,
    Theme,
};
use unicode_width::UnicodeWidthStr;

fn candidate(name: &str, display_name: Option<&str>, icon: Option<&str>) -> CompletionCandidate {
    CompletionCandidate {
        name: name.to_string(),
        insert_value: None,
        display_name: display_name.map(str::to_string),
        description: Some("Description".into()),
        icon: icon.map(str::to_string),
        priority: 50,
        kind: CandidateKind::Subcommand,
    }
}

#[test]
fn test_terminal_icon_uses_emoji_icon_verbatim() {
    let candidate = candidate("git", Some("Git 🌿"), Some("🌿"));
    assert_eq!(terminal_icon(&candidate), "🌿");
}

#[test]
fn test_terminal_icon_maps_fig_protocol_icons() {
    let candidate = candidate("git", None, Some("fig://icon?type=git"));
    assert_eq!(terminal_icon(&candidate), "🌿");
}

#[test]
fn test_render_reports_panel_height_when_description_panel_is_taller() {
    let mut theme = Theme::default();
    theme.show_description_panel = true;
    theme.max_width = 30;
    let renderer = PopupRenderer::new(theme);
    let mut popup = PopupState::new(5);
    popup.set_items(vec![ScoredCandidate {
        candidate: CompletionCandidate {
            name: "commit".to_string(),
            insert_value: None,
            display_name: Some("Commit".into()),
            description: Some(
                "This description is intentionally long so the side panel wraps across multiple lines and exceeds the main popup height.".into(),
            ),
            icon: Some("🌿".into()),
            priority: 50,
            kind: CandidateKind::Subcommand,
        },
        score: 10,
    }]);
    let layout = renderer.layout(&popup, 0, 0, 80, 24).expect("something to draw");
    assert!(layout.rendered_height > popup.visible_count() as u16 + 2);
}

#[test]
fn test_truncate_with_ellipsis_preserves_unicode_boundaries() {
    let truncated = truncate_with_ellipsis("Commit ✍️ with extras", 10);
    assert!(UnicodeWidthStr::width(truncated.as_str()) <= 10);
    assert!(truncated.ends_with('…'));
}

#[test]
fn test_render_uses_display_name_and_icon() {
    let renderer = PopupRenderer::new(Theme::default());
    let mut popup = PopupState::new(5);
    popup.set_items(vec![ScoredCandidate {
        candidate: candidate("commit", Some("Commit ✍️"), Some("🌿")),
        score: 10,
    }]);
    let layout = renderer.layout(&popup, 0, 0, 80, 24).expect("something to draw");
    let cells = row_cells(&layout, &popup.items[0].candidate);
    assert_eq!(cells.icon, "🌿");
    assert_eq!(cells.name, "Commit ✍️");
    assert!(matches!(cells.tail, RowTail::Description { .. }));
}

#[test]
fn layout_of_a_hidden_popup_is_nothing() {
    let renderer = PopupRenderer::new(Theme::default());
    let popup = PopupState::new(5);
    assert!(renderer.layout(&popup, 3, 4, 80, 24).is_none());
}

#[test]
fn layout_clamps_width_and_places_below_or_above() {
    let renderer = PopupRenderer::new(Theme::default());
    let mut popup = PopupState::new(8);
    let mut c = candidate("ab", None, None);
    c.description = None;
    popup.set_items(vec![ScoredCandidate { candidate: c, score: 0 }]);
    let below = renderer.layout(&popup, 5, 10, 80, 24).unwrap();
    assert_eq!(below.inner_width, 20);
    assert_eq!(below.popup_row, 6);
    assert_eq!(below.popup_col, 10);
    assert_eq!(below.rendered_height, 3);
    let above = renderer.layout(&popup, 22, 70, 80, 24).unwrap();
    assert_eq!(above.popup_row, 19);
    assert_eq!(above.popup_col, 58);
}

#[test]
fn truncation_edges() {
    assert_eq!(truncate_with_ellipsis("abc", 3), "abc");
    assert_eq!(truncate_with_ellipsis("abcd", 1), "…");
    assert_eq!(truncate_with_ellipsis("abcd", 0), "");
    assert_eq!(truncate_with_ellipsis("abcdef", 4), "abc…");
    assert_eq!(truncate_to_width("ab✍️cd", 0), "");
    assert_eq!(truncate_to_width("日本語", 5), "日本");
}

#[test]
fn word_wrap_fills_lines_greedily() {
    assert_eq!(word_wrap("one two three four", 9), vec!["one two", "three", "four"]);
    assert_eq!(word_wrap("  spaced   out  ", 20), vec!["spaced out"]);
    assert_eq!(word_wrap("extraordinarily", 5), vec!["extraordinarily"]);
    assert!(word_wrap("", 5).is_empty());
}

#[test]
fn fig_icons_and_fallbacks() {
    assert_eq!(fig_icon_fallback("fig://icon?type=folder", CandidateKind::File), "📁");
    assert_eq!(fig_icon_fallback("fig://icon?color=red&type=docker", CandidateKind::File), "🐳");
    assert_eq!(fig_icon_fallback("fig://icon?type=unknown", CandidateKind::Option), "⌥");
    assert_eq!(fig_icon_fallback("fig://template", CandidateKind::Folder), "📁");
    assert_eq!(fallback_icon(CandidateKind::Argument), "•");
    let web = candidate("x", None, Some("https://example.com/a.png"));
    assert_eq!(terminal_icon(&web), "🌐");
    let blank = candidate("x", None, Some("  "));
    assert_eq!(terminal_icon(&blank), "❯");
    let none = candidate("x", None, None);
    assert_eq!(terminal_icon(&none), "❯");
}

#[test]
fn bottom_border_shows_position_when_scrolling() {
    let renderer = PopupRenderer::new(Theme::default());
    let mut popup = PopupState::new(2);
    popup.set_items((0..5).map(|i| ScoredCandidate { candidate: candidate(&format!("c{i}"), None, None), score: 0 }).collect());
    let layout = renderer.layout(&popup, 0, 0, 80, 24).unwrap();
    let (run, indicator) = bottom_border(&layout, &popup);
    assert_eq!(indicator, " 2/5 ↕ ");
    assert_eq!(run, layout.inner_width - 7);
}

#[test]
fn panel_lists_wrapped_description_rows() {
    let mut theme = Theme::default();
    theme.show_description_panel = true;
    let renderer = PopupRenderer::new(theme);
    let mut popup = PopupState::new(5);
    let mut c = candidate("commit", None, None);
    c.description = Some("Record changes to the repository".into());
    popup.set_items(vec![ScoredCandidate { candidate: c, score: 0 }]);
    let layout = renderer.layout(&popup, 0, 0, 120, 40).unwrap();
    assert!(layout.renders_panel);
    let panel = panel_content(&layout, &popup).expect("a panel");
    assert_eq!(panel.title, "commit");
    assert_eq!(panel.lines.len(), 1);
    assert_eq!(panel.lines[0].text, "Record changes to the repository");
    assert_eq!(panel.lines[0].row, layout.popup_row + 3);
    assert_eq!(panel.bottom_row, layout.popup_row + layout.rendered_height - 1);
}

#[test]
fn clear_rows_follow_the_drawn_popup() {
    assert_eq!(clear_rows(5, 3, 24), vec![6, 7, 8]);
    assert_eq!(clear_rows(22, 3, 24), vec![19, 20, 21]);
    assert!(clear_rows(5, 0, 24).is_empty());
}
