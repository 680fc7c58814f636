use gpml::search::SearchMatcher;
use gpml::search::SearchPanel;
use gpml::search::replace_ranges;

#[test]
fn test_search() {
    let mut search = SearchMatcher::new();
    search.update("Hello 世界 this is a Is test string.");
    search.update_query("Is", true);

    assert_eq!(search.len(), 3);
    let mut matches = search.clone();
    assert_eq!(matches.current_match_ix, 0);
    assert_eq!(matches.next(), Some(18..20));
    assert_eq!(matches.next(), Some(23..25));
    assert_eq!(matches.current_match_ix, 2);
    assert_eq!(matches.next(), Some(15..17));
    assert_eq!(matches.current_match_ix, 0);
    assert_eq!(matches.next_back(), Some(23..25));
    assert_eq!(matches.current_match_ix, 2);
    assert_eq!(matches.next_back(), Some(18..20));
    assert_eq!(matches.current_match_ix, 1);
    assert_eq!(matches.next_back(), Some(15..17));
    assert_eq!(matches.current_match_ix, 0);
    assert_eq!(matches.next_back(), Some(23..25));

    search.update_query("IS", false);
    assert_eq!(search.len(), 0);
    assert_eq!(search.next(), None);
    assert_eq!(search.next_back(), None);
}

#[test]
fn search_next_then_back_returns() {
    let mut s = SearchMatcher::new();
    s.update("ab ab ab");
    s.update_query("ab", false);
    assert_eq!(s.len(), 3);
    let start = s.current_match_ix;
    s.next();
    s.next_back();
    assert_eq!(s.current_match_ix, start);
    assert_eq!(s.peek(), Some(3..5));
}

#[test]
fn search_empty_query_has_no_matches() {
    let mut s = SearchMatcher::new();
    s.update("anything");
    s.update_query("", true);
    assert!(s.query.is_none());
    assert_eq!(s.len(), 0);
}

#[test]
fn replace_ranges_replaces_each_range() {
    let out = replace_ranges("a cat and a cat", &vec![2..5, 12..15], "dog");
    assert_eq!(out, Some("a dog and a dog".to_string()));
}

#[test]
fn replace_ranges_without_ranges_keeps_text() {
    assert_eq!(replace_ranges("héllo", &vec![], "x"), Some("héllo".to_string()));
}

#[test]
fn replace_ranges_with_multibyte_text() {
    // "世" is three bytes, from 6 to 9.
    let out = replace_ranges("Hello 世界!", &vec![6..9], "big ");
    assert_eq!(out, Some("Hello big 界!".to_string()));
}

#[test]
fn replace_ranges_refuses_ranges_that_do_not_fit() {
    // Overlapping, reversed, out of bounds, inside a character.
    assert_eq!(replace_ranges("abcdef", &vec![1..3, 2..4], "x"), None);
    assert_eq!(replace_ranges("abcdef", &vec![3..1], "x"), None);
    assert_eq!(replace_ranges("abc", &vec![1..4], "x"), None);
    assert_eq!(replace_ranges("世界", &vec![1..3], "x"), None);
}

#[test]
fn panel_replace_all_replaces_every_match() {
    let mut panel = SearchPanel::new();
    panel.matcher.update("Is this is it? IS");
    panel.set_query("is");
    assert_eq!(panel.matcher.len(), 4);
    let out = panel.replace_all("was");
    assert_eq!(out, Some("was thwas was it? was".to_string()));
    assert!(panel.matcher.replacing);
}

#[test]
fn panel_replace_all_without_matches_gives_nothing() {
    let mut panel = SearchPanel::new();
    panel.matcher.update("nothing here");
    panel.set_query("zzz");
    assert_eq!(panel.replace_all("x"), None);
    assert!(panel.matcher.replacing);
}

#[test]
fn panel_replace_next_gives_current_and_next() {
    let mut panel = SearchPanel::new();
    panel.matcher.update("ab ab ab");
    panel.set_query("ab");
    assert_eq!(panel.replace_next(), Some((0..2, 3..5)));
    assert_eq!(panel.next(), Some(5));
    assert_eq!(panel.next(), Some(8));
    // At the last match the scroll target is the match itself.
    assert_eq!(panel.replace_next(), Some((6..8, 6..8)));
    // Replacing keeps the index when the text changes.
    panel.matcher.update("ab ab xx");
    assert_eq!(panel.matcher.current_match_ix, 2);
    assert_eq!(panel.matcher.len(), 2);
    assert_eq!(panel.replace_next(), None);
}

#[test]
fn panel_show_takes_selection_as_query() {
    let mut panel = SearchPanel::new();
    panel.close();
    assert!(panel.matcher().is_none());
    panel.matcher.update("one two one");
    assert_eq!(panel.show("one"), Some(0..3));
    assert!(panel.matcher().is_some());
    assert_eq!(panel.query, "one");
    // An empty selection keeps the query.
    assert_eq!(panel.show(""), Some(0..3));
    assert_eq!(panel.query, "one");
    assert_eq!(panel.prev(), Some(8));
    assert_eq!(panel.next(), Some(3));
}

#[test]
fn panel_case_sensitive_query() {
    let mut panel = SearchPanel::new();
    panel.case_insensitive = false;
    panel.matcher.update("Is is");
    panel.set_query("is");
    assert_eq!(panel.matcher.len(), 1);
    assert_eq!(panel.update_search(), Some(3..5));
}

#[test]
fn panel_toggles() {
    let mut panel = SearchPanel::new();
    panel.matcher.update("Is is");
    panel.set_query("is");
    assert_eq!(panel.matcher.len(), 2);
    assert!(!panel.case_button_selected());
    assert_eq!(panel.toggle_case_insensitive(), Some(3..5));
    assert!(panel.case_button_selected());
    assert_eq!(panel.matcher.len(), 1);
    assert!(!panel.replace_mode);
    panel.toggle_replace_mode();
    assert!(panel.replace_mode);
    panel.toggle_replace_mode();
    assert!(!panel.replace_mode);
}

#[test]
fn matches_are_leftmost_and_non_overlapping() {
    let mut m = SearchMatcher::new();
    m.update("aaaaa");
    m.update_query("aa", false);
    assert_eq!(m.matched_ranges, vec![0..2, 2..4]);
    // Only ASCII letters are compared without case.
    m.update("ÄB äb");
    m.update_query("äB", true);
    assert_eq!(m.matched_ranges, vec![4..7]);
    m.update_query("äB", false);
    assert!(m.matched_ranges.is_empty());
}
