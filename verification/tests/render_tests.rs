use fuzzy_picker::session::FuzzyMatcher;
use fuzzy_picker::session::InputEvent;
use fuzzy_picker::session::KeyInput;

fn type_query(s: &mut FuzzyMatcher, text: &str) {
    for c in text.chars() {
        s.handle_event(&InputEvent::Key { code: KeyInput::Char(c), ctrl: false });
    }
    s.update_matches();
}

#[test]
fn frame_shows_matches_and_blanks() {
    let mut s = FuzzyMatcher::new(3, 80, 24);
    s.push_items(vec![
        "apple".to_string(),
        "banana".to_string(),
        "grape".to_string(),
        "pineapple".to_string(),
    ]);
    type_query(&mut s, "ap");
    let frame = s.render();
    assert_eq!(frame.rows.len(), 4);
    assert_eq!(frame.match_count, 3);
    assert_eq!(frame.item_count, 4);

    let row0 = frame.rows[0].as_ref().unwrap();
    assert!(row0.selected);
    assert_eq!(row0.position, 0);
    assert_eq!(row0.text, "apple");
    assert_eq!(row0.spans, vec![Some((0, 2))]);

    let row1 = frame.rows[1].as_ref().unwrap();
    assert!(!row1.selected);
    assert_eq!(row1.position, 1);
    assert_eq!(row1.text, "grape");
    assert_eq!(row1.spans, vec![Some((2, 4))]);

    let row2 = frame.rows[2].as_ref().unwrap();
    assert!(!row2.selected);
    assert_eq!(row2.position, 2);
    assert_eq!(row2.text, "pineapple");
    assert_eq!(row2.spans, vec![Some((4, 6))]);

    assert!(frame.rows[3].is_none());
}

#[test]
fn frame_highlights_each_term_once() {
    let mut s = FuzzyMatcher::new(1, 80, 24);
    s.push_items(vec!["The Quick Brown Fox".to_string()]);
    type_query(&mut s, "quick fox");
    let frame = s.render();
    let row = frame.rows[0].as_ref().unwrap();
    // spans index the case-folded text "the quick brown fox"
    assert_eq!(row.spans, vec![Some((4, 9)), Some((16, 19))]);
}

#[test]
fn frame_truncates_to_screen_width() {
    let mut s = FuzzyMatcher::new(1, 20, 24);
    s.push_items(vec!["a very long line of text well past the margin".to_string()]);
    s.update_matches();
    let frame = s.render();
    let row = frame.rows[0].as_ref().unwrap();
    // 20 columns less the 10-column margin
    assert_eq!(row.text, "a very lon");
}

#[test]
fn frame_term_missing_from_truncated_text_has_no_span() {
    let mut s = FuzzyMatcher::new(1, 12, 24);
    s.push_items(vec!["abcdefghij".to_string()]);
    type_query(&mut s, "hij");
    let frame = s.render();
    // the row text is cut to 2 columns, so the term no longer occurs in it
    let row = frame.rows[0].as_ref().unwrap();
    assert_eq!(row.text, "ab");
    assert_eq!(row.spans, vec![None]);
}

#[test]
fn frame_truncates_by_characters_not_bytes() {
    let mut s = FuzzyMatcher::new(1, 14, 24);
    s.push_items(vec!["äöüßxyz".to_string()]);
    s.update_matches();
    let frame = s.render();
    let row = frame.rows[0].as_ref().unwrap();
    // four columns of multi-byte characters, cut cleanly
    assert_eq!(row.text, "äöüß");
}

#[test]
fn prompt_keeps_the_tail_of_a_long_query() {
    let mut s = FuzzyMatcher::new(1, 20, 24);
    s.update_matches();
    type_query(&mut s, "hello world");
    let frame = s.render();
    // 11 query chars + "> " + cursor cell + " [0/0]" = 20 used on 20 columns,
    // so every character still fits.
    assert_eq!(frame.prompt_tail, "hello world");
    let mut narrow = FuzzyMatcher::new(1, 16, 24);
    narrow.update_matches();
    type_query(&mut narrow, "hello world");
    let frame2 = narrow.render();
    // four columns short: the leftmost four characters are cut.
    assert_eq!(frame2.prompt_tail, "o world");
    assert_eq!(frame2.match_count, 0);
    assert_eq!(frame2.item_count, 0);
}

#[test]
fn render_reclamps_after_shrink() {
    let mut s = FuzzyMatcher::new(2, 80, 24);
    let mut items: Vec<String> = (0..30).map(|i| format!("filler{i}")).collect();
    items.push("special".to_string());
    s.push_items(items);
    s.update_matches();
    for _ in 0..20 {
        s.handle_event(&InputEvent::Key { code: KeyInput::Down, ctrl: false });
    }
    type_query(&mut s, "special");
    let frame = s.render();
    let m = s.match_list();
    assert!(m.cursor() + m.offset() < m.matches().len());
    let row = frame.rows[m.cursor()].as_ref().unwrap();
    assert!(row.selected);
    assert_eq!(row.text, "special");
}
