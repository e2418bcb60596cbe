use spotify_player::utils::{
    filtered_items_from_query, format_duration, format_seconds, fuzzy_search_items, map_join, matches_query, parse_uri,
    rank_by_score,
};

#[test]
fn parse_user_scoped_uri() {
    assert_eq!(parse_uri("spotify:user:someone:playlist:37i9dQ"), "spotify:playlist:37i9dQ");
}

#[test]
fn parse_plain_uris_unchanged() {
    assert_eq!(parse_uri("spotify:track:4uLU6hMCjMI75M1A2tKUQC"), "spotify:track:4uLU6hMCjMI75M1A2tKUQC");
    assert_eq!(parse_uri("a:b:c:d:e:f"), "a:b:c:d:e:f");
    assert_eq!(parse_uri(""), "");
    assert_eq!(parse_uri("::::"), "::");
}

#[test]
fn join_mapped_items() {
    let v = vec!["a".to_string(), "b".to_string(), "c".to_string()];
    assert_eq!(map_join(&v[..], |s: &String| s.as_str(), ", "), "a, b, c");
    let empty: Vec<String> = Vec::new();
    assert_eq!(map_join(&empty[..], |s: &String| s.as_str(), ", "), "");
}

#[test]
fn join_skips_separator_after_empty_text() {
    let v = vec!["".to_string(), "a".to_string(), "".to_string(), "b".to_string()];
    assert_eq!(map_join(&v[..], |s: &String| s.as_str(), ","), "a,,b");
}

#[test]
fn query_word_matching() {
    assert!(matches_query("ab cd", "xxcdab"));
    assert!(!matches_query("ab  ", "b"));
    assert!(matches_query("", "anything"));
    assert!(matches_query("   ", ""));
    assert!(!matches_query("x", ""));
    assert!(!matches_query("Ab", "ab"));
}

#[test]
fn filter_by_query_ignores_case() {
    let items = vec!["hello world".to_string(), "HELLO".to_string(), "World Hello".to_string()];
    let r = filtered_items_from_query("Hello wor", &items);
    assert_eq!(r, vec![&items[0], &items[2]]);
    let r = filtered_items_from_query("HELLO", &items);
    assert_eq!(r.len(), 3);
}

#[test]
fn empty_query_keeps_everything() {
    let items = vec!["x".to_string(), "".to_string()];
    assert_eq!(filtered_items_from_query("", &items), vec![&items[0], &items[1]]);
    assert_eq!(filtered_items_from_query("  ", &items), vec![&items[0], &items[1]]);
    assert!(filtered_items_from_query("y", &items).is_empty());
}

#[test]
fn ranking_is_stable_and_descending() {
    let scores = vec![Some(5), None, Some(9), Some(5), Some(9), Some(-1)];
    assert_eq!(rank_by_score(&scores), vec![(2, 9), (4, 9), (0, 5), (3, 5), (5, -1)]);
    assert!(rank_by_score(&vec![None, None]).is_empty());
}

#[test]
fn fuzzy_search_orders_by_score() {
    let items = vec!["a_x_b_x_c".to_string(), "xyz".to_string(), "abc".to_string()];
    let r = fuzzy_search_items(&items, "abc");
    assert_eq!(r, vec![&items[2], &items[0]]);
    assert!(fuzzy_search_items(&items, "qqq").is_empty());
    let all = fuzzy_search_items(&items, "");
    assert_eq!(all, vec![&items[0], &items[1], &items[2]]);
}

#[test]
fn seconds_as_minutes_and_seconds() {
    assert_eq!(format_seconds(0), "0:00");
    assert_eq!(format_seconds(7), "0:07");
    assert_eq!(format_seconds(65), "1:05");
    assert_eq!(format_seconds(600), "10:00");
    assert_eq!(format_seconds(3599), "59:59");
    assert_eq!(format_seconds(-5), format!("{}:{:02}", -5i64 / 60, -5i64 % 60));
    assert_eq!(format_seconds(-65), format!("{}:{:02}", -65i64 / 60, -65i64 % 60));
    assert_eq!(format_seconds(-600), "-10:00");
    assert_eq!(format_seconds(i64::MIN), format!("{}:{:02}", i64::MIN / 60, i64::MIN % 60));
    assert_eq!(format_seconds(i64::MAX), format!("{}:{:02}", i64::MAX / 60, i64::MAX % 60));
}

#[test]
fn duration_formatting() {
    assert_eq!(format_duration(&chrono::TimeDelta::seconds(125)), "2:05");
    assert_eq!(format_duration(&chrono::TimeDelta::milliseconds(59_999)), "0:59");
}

#[test]
fn blank_query_keeps_all_items() {
    let items = vec!["Alpha".to_string(), "beta gamma".to_string(), "".to_string()];
    assert_eq!(filtered_items_from_query("   ", &items), vec![&items[0], &items[1], &items[2]]);
    assert_eq!(filtered_items_from_query("GAMMA", &items), vec![&items[1]]);
}
