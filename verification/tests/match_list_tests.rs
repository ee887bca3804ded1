use fuzzy_picker::match_list::MatchList;

fn listed(height: usize, n_items: usize, matches: Vec<usize>) -> MatchList {
    let mut m = MatchList::new(height);
    m.push_items((0..n_items).map(|i| format!("item{i}")).collect());
    m.set_matches(matches);
    m
}

#[test]
fn new_list_is_empty_at_the_top() {
    let m = MatchList::new(7);
    assert_eq!(m.height(), 7);
    assert_eq!(m.cursor(), 0);
    assert_eq!(m.offset(), 0);
    assert!(m.matches().is_empty());
    assert!(m.items().is_empty());
}

#[test]
fn move_up_at_the_top_stays_put() {
    let mut m = listed(3, 10, (0..10).collect());
    m.move_up();
    assert_eq!(m.cursor(), 0);
    assert_eq!(m.offset(), 0);
    m.move_up_page();
    assert_eq!(m.cursor(), 0);
    assert_eq!(m.offset(), 0);
}

#[test]
fn move_down_walks_cursor_then_offset() {
    let mut m = listed(2, 8, (0..8).collect());
    m.move_down();
    m.move_down();
    assert_eq!((m.cursor(), m.offset()), (2, 0));
    m.move_down();
    assert_eq!((m.cursor(), m.offset()), (2, 1));
    // the window never shifts past 8 - 2 - 1 = 5
    for _ in 0..10 {
        m.move_down();
    }
    assert_eq!((m.cursor(), m.offset()), (2, 5));
}

#[test]
fn move_down_on_short_list_keeps_window_fixed() {
    let mut m = listed(5, 3, vec![0, 1, 2]);
    for _ in 0..8 {
        m.move_down();
    }
    // the cursor may run through the viewport, but the window cannot shift
    assert_eq!(m.cursor(), 5);
    assert_eq!(m.offset(), 0);
}

#[test]
fn page_moves_step_by_viewport_height() {
    let mut m = listed(3, 20, (0..20).collect());
    m.move_down_page();
    assert_eq!((m.cursor(), m.offset()), (3, 0));
    m.move_down_page();
    assert_eq!((m.cursor(), m.offset()), (3, 3));
    m.move_up_page();
    assert_eq!((m.cursor(), m.offset()), (0, 3));
    // with the cursor at the top, the next page up shifts the window
    m.move_up_page();
    assert_eq!((m.cursor(), m.offset()), (0, 0));
}

#[test]
fn adjust_cursor_clamps_into_shrunk_match_set() {
    let mut m = listed(6, 10, (0..10).collect());
    for _ in 0..5 {
        m.move_down();
    }
    assert_eq!(m.cursor(), 5);
    m.set_matches(vec![0, 4]);
    m.adjust_cursor();
    assert_eq!(m.cursor(), 1);
    // no-op when already inside
    m.adjust_cursor();
    assert_eq!(m.cursor(), 1);
}

#[test]
fn adjust_cursor_does_nothing_on_empty_match_set() {
    let mut m = listed(6, 10, (0..10).collect());
    m.move_down();
    m.set_matches(Vec::new());
    m.adjust_cursor();
    assert_eq!(m.cursor(), 1);
}

#[test]
fn adjust_offset_resets_a_window_off_the_end() {
    let mut m = listed(1, 20, (0..20).collect());
    for _ in 0..10 {
        m.move_down();
    }
    assert_eq!(m.offset(), 9);
    m.set_matches(vec![0, 1, 2]);
    m.adjust_offset();
    assert_eq!(m.offset(), 0);
}

#[test]
fn adjust_offset_keeps_a_window_still_inside() {
    let mut m = listed(1, 20, (0..20).collect());
    for _ in 0..6 {
        m.move_down();
    }
    assert_eq!(m.offset(), 5);
    m.adjust_offset();
    assert_eq!(m.offset(), 5);
}

#[test]
fn clamp_selection_makes_the_pair_valid() {
    let mut m = listed(2, 30, (0..30).collect());
    for _ in 0..6 {
        m.move_down();
    }
    assert_eq!((m.cursor(), m.offset()), (2, 4));
    // shrink so that cursor and offset each stay in range alone, but their
    // sum points past the set
    m.set_matches(vec![0, 2, 4, 6, 8]);
    m.clamp_selection();
    assert!(m.cursor() + m.offset() < m.matches().len());
    assert_eq!(m.get_selection(), "item8");
}

#[test]
fn get_selection_follows_cursor_and_offset() {
    let mut m = listed(2, 10, vec![1, 3, 5, 7, 9]);
    assert_eq!(m.get_selection(), "item1");
    m.move_down();
    assert_eq!(m.get_selection(), "item3");
    m.move_down();
    m.move_down();
    assert_eq!(m.get_selection(), "item7");
}
