use fuzzy_picker::query::Query;
use fuzzy_picker::render::digit_count;
use fuzzy_picker::session::FuzzyMatcher;
use fuzzy_picker::session::HandleEventResult;
use fuzzy_picker::session::InputEvent;
use fuzzy_picker::session::KeyInput;
use fuzzy_picker::text::contains_sub;
use fuzzy_picker::text::find_first;

#[test]
fn query_tokenizes_on_ascii_whitespace() {
    let q = Query::new("  foo \t bar\nbaz  ".to_string());
    assert_eq!(q.term_strings(), &vec!["foo".to_string(), "bar".to_string(), "baz".to_string()]);
    assert_eq!(q.raw_str(), "  foo \t bar\nbaz  ");
}

#[test]
fn is_match_is_case_insensitive_substring_and() {
    let q = Query::new("Foo BAR".to_string());
    assert!(q.is_match("xxfooyyBarzz"));
    assert!(q.is_match("BAR in the foo"));
    assert!(!q.is_match("foo only"));
    assert!(!q.is_match(""));
}

#[test]
fn is_match_folds_beyond_ascii() {
    let q = Query::new("ÄGYPTEN".to_string());
    assert!(q.is_match("reise nach ägypten gebucht"));
    let q2 = Query::new("ß".to_string());
    assert!(q2.is_match("straße"));
}

#[test]
fn empty_query_matches_everything() {
    let q = Query::new(String::new());
    assert_eq!(q.term_count(), 0);
    assert!(q.is_match(""));
    assert!(q.is_match("anything at all"));
}

#[test]
fn substring_search_finds_first_occurrence() {
    let hay: Vec<char> = "abcabc".chars().collect();
    let needle: Vec<char> = "bc".chars().collect();
    assert_eq!(find_first(&hay, &needle), Some(1));
    assert!(contains_sub(&hay, &needle));
    let missing: Vec<char> = "zz".chars().collect();
    assert_eq!(find_first(&hay, &missing), None);
    assert!(!contains_sub(&hay, &missing));
    let empty: Vec<char> = Vec::new();
    assert_eq!(find_first(&hay, &empty), Some(0));
}

#[test]
fn large_candidate_set_takes_the_parallel_path() {
    // Far above the sequential/parallel cutoff, so rayon does the filtering.
    let mut s = FuzzyMatcher::new(10, 80, 24);
    let items: Vec<String> = (0..2000)
        .map(|i| {
            if i % 3 == 0 {
                format!("keep {i}")
            } else {
                format!("drop {i}")
            }
        })
        .collect();
    let expected: Vec<usize> = (0..2000).filter(|i| i % 3 == 0).collect();
    s.push_items(items);
    s.update_matches();
    let r = s.handle_event(&InputEvent::Key { code: KeyInput::Char('k'), ctrl: false });
    assert!(matches!(r, HandleEventResult::QueryAdd));
    s.update_matches();
    assert_eq!(s.match_list().matches(), &expected);
}

#[test]
fn incremental_and_full_recomputation_agree() {
    // The same edits, replayed on a fresh session after all items are in,
    // give the same match set as the incrementally maintained one.
    let items: Vec<String> = (0..800).map(|i| format!("entry number {i}")).collect();

    let mut incremental = FuzzyMatcher::new(10, 80, 24);
    incremental.push_items(items.clone());
    incremental.update_matches();
    for c in "number 7".chars() {
        incremental.handle_event(&InputEvent::Key { code: KeyInput::Char(c), ctrl: false });
        incremental.update_matches();
    }

    let mut fresh = FuzzyMatcher::new(10, 80, 24);
    fresh.push_items(items);
    for c in "number 7".chars() {
        fresh.handle_event(&InputEvent::Key { code: KeyInput::Char(c), ctrl: false });
    }
    fresh.update_matches();

    assert_eq!(incremental.match_list().matches(), fresh.match_list().matches());
    assert!(!incremental.match_list().matches().is_empty());
}

#[test]
fn digit_count_counts_decimal_digits() {
    assert_eq!(digit_count(0), 1);
    assert_eq!(digit_count(9), 1);
    assert_eq!(digit_count(10), 2);
    assert_eq!(digit_count(12345), 5);
    assert_eq!(digit_count(1000000), 7);
}
