use pptalk::history::GroupMessage;
use pptalk::ids::{EventId, IdentityId};
use pptalk::search::{matching_messages, newest_first, search_needle, SEARCH_LIMIT};
use pptalk::text::text_contains;

fn message(text: &str, deleted: bool) -> GroupMessage {
    GroupMessage {
        message_id: EventId::from_bytes([1; 32]),
        author_identity: IdentityId::from_bytes([2; 32]),
        text: text.into(),
        logical_time_ms: 0,
        reply_to: None,
        edited: false,
        deleted,
    }
}

#[test]
fn queries_are_trimmed_and_compared_in_lowercase() {
    assert_eq!(search_needle("  HeLLo "), Some("hello".to_string()));
    assert_eq!(search_needle("ÀÉ"), Some("àé".to_string()));
    assert_eq!(search_needle(" \t"), None);
    assert!(text_contains("say hello there", "hello"));
    assert!(text_contains("hello", "hello"));
    assert!(!text_contains("hell", "hello"));
    assert!(text_contains("abc", ""));
    assert!(!text_contains("", "a"));
}

#[test]
fn group_search_skips_deleted_messages() {
    let messages = vec![
        message("Lunch at noon?", false),
        message("LUNCH moved", true),
        message("no food talk", false),
        message("lunch!", false),
    ];
    let needle = search_needle("lunch").expect("needle");
    assert_eq!(matching_messages(&messages, &needle), vec![0, 3]);
}

#[test]
fn results_show_newest_first_and_keep_ties_in_order() {
    assert_eq!(newest_first(&[10, 30, 20, 30], 10), vec![1, 3, 2, 0]);
    assert_eq!(newest_first(&[10, 30, 20, 30], 2), vec![1, 3]);
    assert!(newest_first(&[], 5).is_empty());
    let many: Vec<i64> = (0..150).collect();
    let order = newest_first(&many, SEARCH_LIMIT);
    assert_eq!(order.len(), 100);
    assert_eq!(order[0], 149);
    assert_eq!(order[99], 50);
}
