use fuzzy_picker::session::FuzzyMatcher;
use fuzzy_picker::session::HandleEventResult;
use fuzzy_picker::session::InputEvent;
use fuzzy_picker::session::KeyInput;
use fuzzy_picker::session::compute_height;

fn key(code: KeyInput) -> InputEvent {
    InputEvent::Key { code, ctrl: false }
}

fn ctrl_key(c: char) -> InputEvent {
    InputEvent::Key { code: KeyInput::Char(c), ctrl: true }
}

fn type_str(s: &mut FuzzyMatcher, text: &str) {
    for c in text.chars() {
        let r = s.handle_event(&key(KeyInput::Char(c)));
        assert!(matches!(r, HandleEventResult::QueryAdd));
        s.update_matches();
    }
}

fn fruits() -> Vec<String> {
    vec![
        "apple".to_string(),
        "banana".to_string(),
        "grape".to_string(),
        "pineapple".to_string(),
    ]
}

#[test]
fn empty_query_matches_all_items() {
    let mut s = FuzzyMatcher::new(10, 80, 24);
    s.push_items(fruits());
    s.update_matches();
    assert_eq!(s.match_list().matches(), &vec![0usize, 1, 2, 3]);
}

#[test]
fn typing_narrows_and_backspace_restores() {
    let mut s = FuzzyMatcher::new(10, 80, 24);
    s.push_items(fruits());
    s.update_matches();
    assert_eq!(s.match_list().matches(), &vec![0usize, 1, 2, 3]);

    type_str(&mut s, "a");
    assert_eq!(s.match_list().matches(), &vec![0usize, 1, 2, 3]);

    type_str(&mut s, "p");
    assert_eq!(s.query().raw_str(), "ap");
    // "grape" holds "ap" as well, so three of the four remain.
    assert_eq!(s.match_list().matches(), &vec![0usize, 2, 3]);

    let r = s.handle_event(&key(KeyInput::Backspace));
    assert!(matches!(r, HandleEventResult::QueryRemove));
    s.update_matches();
    assert_eq!(s.query().raw_str(), "a");
    assert_eq!(s.match_list().matches(), &vec![0usize, 1, 2, 3]);
}

#[test]
fn empty_item_list_confirm_is_no_match() {
    let mut s = FuzzyMatcher::new(10, 80, 24);
    s.update_matches();
    type_str(&mut s, "anything");
    assert_eq!(s.match_list().matches().len(), 0);
    let r = s.handle_event(&key(KeyInput::Enter));
    assert!(matches!(r, HandleEventResult::NoMatch));
}

#[test]
fn items_in_two_chunks_both_match() {
    let mut s = FuzzyMatcher::new(10, 80, 24);
    s.push_items(vec!["a1".to_string()]);
    s.update_matches();
    type_str(&mut s, "a");
    assert_eq!(s.match_list().matches(), &vec![0usize]);
    s.push_items(vec!["a2".to_string()]);
    s.update_matches();
    assert_eq!(s.match_list().matches(), &vec![0usize, 1]);
}

#[test]
fn confirm_returns_selected_item() {
    let mut s = FuzzyMatcher::new(10, 80, 24);
    s.push_items(fruits());
    s.update_matches();
    type_str(&mut s, "ap");
    let down = s.handle_event(&key(KeyInput::Down));
    assert!(matches!(down, HandleEventResult::Continue));
    let r = s.handle_event(&key(KeyInput::Enter));
    assert!(matches!(r, HandleEventResult::Done));
    assert_eq!(s.match_list().get_selection(), "grape");
}

#[test]
fn cancel_is_quit_and_other_chords_insert() {
    let mut s = FuzzyMatcher::new(10, 80, 24);
    s.update_matches();
    let r = s.handle_event(&ctrl_key('c'));
    assert!(matches!(r, HandleEventResult::Quit));
    let r = s.handle_event(&ctrl_key('x'));
    assert!(matches!(r, HandleEventResult::QueryAdd));
    assert_eq!(s.query().raw_str(), "x");
}

#[test]
fn control_p_and_n_navigate() {
    let mut s = FuzzyMatcher::new(3, 80, 24);
    let items: Vec<String> = (0..20).map(|i| format!("row{i}")).collect();
    s.push_items(items);
    s.update_matches();
    let r = s.handle_event(&ctrl_key('n'));
    assert!(matches!(r, HandleEventResult::Continue));
    assert_eq!(s.match_list().cursor(), 1);
    let r = s.handle_event(&ctrl_key('p'));
    assert!(matches!(r, HandleEventResult::Continue));
    assert_eq!(s.match_list().cursor(), 0);
}

#[test]
fn cursor_shifts_window_at_the_bottom_edge() {
    let mut s = FuzzyMatcher::new(2, 80, 24);
    let items: Vec<String> = (0..10).map(|i| format!("row{i}")).collect();
    s.push_items(items);
    s.update_matches();
    // cursor walks to the bottom of the viewport, then the window shifts.
    for _ in 0..2 {
        s.handle_event(&key(KeyInput::Down));
    }
    assert_eq!(s.match_list().cursor(), 2);
    assert_eq!(s.match_list().offset(), 0);
    for _ in 0..4 {
        s.handle_event(&key(KeyInput::Down));
    }
    assert_eq!(s.match_list().cursor(), 2);
    assert_eq!(s.match_list().offset(), 4);
    // the offset is clamped to the last full window: 10 - 2 - 1 = 7.
    for _ in 0..10 {
        s.handle_event(&key(KeyInput::Down));
    }
    assert_eq!(s.match_list().offset(), 7);
    // and back up: cursor first, then the window, clamped at zero.
    for _ in 0..2 {
        s.handle_event(&key(KeyInput::Up));
    }
    assert_eq!(s.match_list().cursor(), 0);
    assert_eq!(s.match_list().offset(), 7);
    for _ in 0..10 {
        s.handle_event(&key(KeyInput::Up));
    }
    assert_eq!(s.match_list().cursor(), 0);
    assert_eq!(s.match_list().offset(), 0);
}

#[test]
fn page_down_then_page_up_from_top_returns_to_top() {
    let mut s = FuzzyMatcher::new(4, 80, 24);
    let items: Vec<String> = (0..30).map(|i| format!("row{i}")).collect();
    s.push_items(items);
    s.update_matches();
    assert_eq!(s.match_list().cursor(), 0);
    assert_eq!(s.match_list().offset(), 0);
    s.handle_event(&key(KeyInput::PageDown));
    s.handle_event(&key(KeyInput::PageUp));
    assert_eq!(s.match_list().cursor(), 0);
    assert_eq!(s.match_list().offset(), 0);
}

#[test]
fn page_down_clamps_to_last_window() {
    let mut s = FuzzyMatcher::new(4, 80, 24);
    let items: Vec<String> = (0..10).map(|i| format!("row{i}")).collect();
    s.push_items(items);
    s.update_matches();
    s.handle_event(&key(KeyInput::PageDown));
    assert_eq!(s.match_list().cursor(), 4);
    assert_eq!(s.match_list().offset(), 0);
    s.handle_event(&key(KeyInput::PageDown));
    // offset limit is 10 - 4 - 1 = 5.
    assert_eq!(s.match_list().offset(), 4);
    s.handle_event(&key(KeyInput::PageDown));
    assert_eq!(s.match_list().offset(), 5);
}

#[test]
fn selection_stays_valid_after_narrowing_while_scrolled() {
    let mut s = FuzzyMatcher::new(2, 80, 24);
    let mut items: Vec<String> = (0..20).map(|i| format!("row{i}")).collect();
    items.push("needle".to_string());
    s.push_items(items);
    s.update_matches();
    for _ in 0..15 {
        s.handle_event(&key(KeyInput::Down));
    }
    assert!(s.match_list().offset() > 0);
    type_str(&mut s, "needle");
    let m = s.match_list();
    assert_eq!(m.matches(), &vec![20usize]);
    assert!(m.cursor() + m.offset() < m.matches().len());
    assert_eq!(m.get_selection(), "needle");
}

#[test]
fn resize_updates_cached_size() {
    let mut s = FuzzyMatcher::new(10, 80, 24);
    let r = s.handle_event(&InputEvent::Resize(120, 40));
    assert!(matches!(r, HandleEventResult::Continue));
    assert_eq!(s.screen_size(), (120, 40));
}

#[test]
fn backspace_on_empty_query_is_ignored() {
    let mut s = FuzzyMatcher::new(10, 80, 24);
    let r = s.handle_event(&key(KeyInput::Backspace));
    assert!(matches!(r, HandleEventResult::Continue));
    assert_eq!(s.query().raw_str(), "");
}

#[test]
fn compute_height_policy() {
    assert_eq!(compute_height(false, 10, 24), 10);
    assert_eq!(compute_height(false, 50, 24), 22);
    assert_eq!(compute_height(true, 10, 24), 22);
    assert_eq!(compute_height(false, 10, 1), 0);
    assert_eq!(compute_height(true, 0, 0), 0);
}
