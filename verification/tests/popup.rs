use melon::completion::matcher::ScoredCandidate;
use melon::completion::spec::{CandidateKind, CompletionCandidate};
use melon::ui::popup::PopupState;

fn scored(name: &str) -> ScoredCandidate {
    ScoredCandidate {
        candidate: CompletionCandidate {
            name: name.to_string(),
            insert_value: None,
            display_name: None,
            description: None,
            icon: None,
            priority: 50,
            kind: CandidateKind::Subcommand,
        },
        score: 100,
    }
}

#[test]
fn test_selection_wraps() {
    let mut state = PopupState::new(5);
    state.set_items(vec![scored("a"), scored("b"), scored("c")]);
    assert_eq!(state.selected, 0);
    state.select_next();
    assert_eq!(state.selected, 1);
    state.select_next();
    assert_eq!(state.selected, 2);
    state.select_next();
    assert_eq!(state.selected, 0);
}

#[test]
fn test_selection_wraps_up() {
    let mut state = PopupState::new(5);
    state.set_items(vec![scored("a"), scored("b"), scored("c")]);
    state.select_prev();
    assert_eq!(state.selected, 2);
}

#[test]
fn test_scroll() {
    let mut state = PopupState::new(2);
    state.set_items(vec![scored("a"), scored("b"), scored("c"), scored("d")]);
    assert_eq!(state.scroll_offset, 0);
    state.select_next();
    state.select_next();
    assert_eq!(state.scroll_offset, 1);
}

#[test]
fn test_dismiss() {
    let mut state = PopupState::new(5);
    state.set_items(vec![scored("a")]);
    assert!(state.visible);
    state.dismiss();
    assert!(!state.visible);
    assert!(state.items.is_empty());
}

#[test]
fn test_selection_preserved_when_candidate_still_exists() {
    let mut state = PopupState::new(5);
    state.set_items(vec![scored("alpha"), scored("beta"), scored("gamma")]);
    state.select_next();
    state.set_items_preserve_selection(vec![scored("beta"), scored("delta")]);
    assert_eq!(state.selected_text(), Some("beta"));
}

#[test]
fn popup_selection_resets_when_candidate_is_gone() {
    let mut state = PopupState::new(5);
    state.set_items(vec![scored("alpha"), scored("beta")]);
    state.select_next();
    state.set_items_preserve_selection(vec![scored("gamma"), scored("delta")]);
    assert_eq!(state.selected, 0);
    assert_eq!(state.scroll_offset, 0);
}

#[test]
fn popup_next_then_previous_restores_selection() {
    let mut state = PopupState::new(2);
    state.set_items(vec![scored("a"), scored("b"), scored("c")]);
    for start in 0..3 {
        while state.selected != start {
            state.select_next();
        }
        state.select_next();
        state.select_prev();
        assert_eq!(state.selected, start);
        assert!(state.scroll_offset <= state.selected);
        assert!(state.selected < state.scroll_offset + state.max_visible);
    }
}

#[test]
fn popup_paging_clamps_to_the_ends() {
    let mut state = PopupState::new(3);
    state.set_items((0..10).map(|i| scored(&format!("c{i}"))).collect());
    state.page_down();
    assert_eq!(state.selected, 3);
    state.page_down();
    state.page_down();
    state.page_down();
    assert_eq!(state.selected, 9);
    assert_eq!(state.scroll_offset, 7);
    state.page_up();
    assert_eq!(state.selected, 6);
    state.page_up();
    state.page_up();
    state.page_up();
    assert_eq!(state.selected, 0);
    assert_eq!(state.scroll_offset, 0);
    assert_eq!(state.visible_count(), 3);
}

#[test]
fn popup_empty_navigation_is_a_no_op() {
    let mut state = PopupState::new(4);
    state.select_next();
    state.select_prev();
    assert_eq!(state.selected, 0);
    assert!(state.selected_item().is_none());
    assert_eq!(state.selected_text(), None);
}

#[test]
fn page_down_keeps_the_selection_in_the_window() {
    let mut state = PopupState::new(3);
    state.set_items((0..10).map(|i| scored(&format!("item{i}"))).collect());
    // A window that lies past the selection, with an end that would not fit.
    state.scroll_offset = 6;
    state.selected = 1;
    state.page_down();
    assert_eq!(state.selected, 4);
    assert_eq!(state.scroll_offset, 4);
    state.page_down();
    state.page_down();
    assert_eq!(state.selected, 9);
    assert!(state.scroll_offset <= state.selected && state.selected < state.scroll_offset + 3);
    state.scroll_offset = usize::MAX - 1;
    state.selected = 2;
    state.page_down();
    assert_eq!((state.selected, state.scroll_offset), (5, 5));
}
