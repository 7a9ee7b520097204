use cyberdeckstr::feed::{EventId, FeedEntry, FeedEntryKind, FeedState, MAX_MESSAGES, MAX_SEEN_IDS};

fn id(n: u32) -> EventId {
    let mut b = [0u8; 32];
    b[..4].copy_from_slice(&n.to_be_bytes());
    EventId(b)
}

fn entry(n: u32, content: &str) -> FeedEntry {
    FeedEntry {
        id: id(n),
        author: format!("author{}", n),
        kind: FeedEntryKind::TextNote,
        content: content.to_string(),
        is_reply: false,
        nip05: None,
    }
}

#[test]
fn new_feed_is_empty() {
    let f = FeedState::new();
    assert!(f.entries.is_empty());
    assert!(f.seen_ids.is_empty());
    assert!(f.wrapped_content.is_empty());
    assert_eq!(f.cached_wrap_width, 0);
    assert!(f.last_nostr_data.is_none());
}

#[test]
fn add_entry_rejects_duplicates() {
    let mut f = FeedState::new();
    assert!(f.add_entry(entry(1, "first")));
    assert!(!f.add_entry(entry(1, "again")));
    assert_eq!(f.entries.len(), 1);
    assert_eq!(f.entries[0].content, "first");
    assert!(f.last_nostr_data.is_some());
}

#[test]
fn unwrapped_width_stores_raw_content() {
    let mut f = FeedState::new();
    f.add_entry(entry(1, "a long line\nsecond"));
    assert_eq!(f.wrapped_content[0], vec!["a long line\nsecond".to_string()]);
}

#[test]
fn known_width_wraps_new_entries() {
    let mut f = FeedState::new();
    f.rewrap(5);
    f.add_entry(entry(1, "hello world"));
    assert_eq!(f.wrapped_content[0], vec!["hello".to_string(), "world".to_string()]);
}

#[test]
fn rewrap_rebuilds_cache_and_ignores_zero_and_same_width() {
    let mut f = FeedState::new();
    f.add_entry(entry(1, "hello world"));
    f.add_entry(entry(2, "ab"));
    f.rewrap(0);
    assert_eq!(f.cached_wrap_width, 0);
    assert_eq!(f.wrapped_content[0], vec!["hello world".to_string()]);
    f.rewrap(5);
    assert_eq!(f.cached_wrap_width, 5);
    assert_eq!(f.wrapped_content.len(), 2);
    assert_eq!(f.wrapped_content[0], vec!["hello".to_string(), "world".to_string()]);
    assert_eq!(f.wrapped_content[1], vec!["ab".to_string()]);
    f.rewrap(5);
    assert_eq!(f.wrapped_content[0], vec!["hello".to_string(), "world".to_string()]);
    f.rewrap(20);
    assert_eq!(f.wrapped_content[0], vec!["hello world".to_string()]);
}

#[test]
fn ring_buffer_keeps_most_recent_entries() {
    let mut f = FeedState::new();
    for n in 0..(MAX_MESSAGES as u32 + 3) {
        assert!(f.add_entry(entry(n, "x")));
    }
    assert_eq!(f.entries.len(), MAX_MESSAGES);
    assert_eq!(f.wrapped_content.len(), MAX_MESSAGES);
    assert!(f.entries[0].id.same_as(&id(3)));
    assert!(f.entries[MAX_MESSAGES - 1].id.same_as(&id(MAX_MESSAGES as u32 + 2)));
    // An evicted entry is still remembered, so it is not shown again
    assert!(!f.add_entry(entry(0, "x")));
}

#[test]
fn seen_window_forgets_oldest_ids() {
    let mut f = FeedState::new();
    for n in 0..(MAX_SEEN_IDS as u32 + 1) {
        assert!(f.add_entry(entry(n, "x")));
    }
    assert_eq!(f.seen_ids.len(), MAX_SEEN_IDS);
    assert!(!f.has_seen(&id(0)));
    assert!(f.has_seen(&id(1)));
    // Once forgotten, the oldest event is accepted again
    assert!(f.add_entry(entry(0, "x")));
}

#[test]
fn event_id_comparison() {
    assert!(id(7).same_as(&id(7)));
    assert!(!id(7).same_as(&id(8)));
}

#[test]
fn seen_again_moves_to_the_back_of_the_window() {
    let mut f = FeedState::new();
    for n in 0..(MAX_SEEN_IDS as u32) {
        assert!(f.add_entry(entry(n, "x")));
    }
    assert_eq!(f.seen_position(&id(0)), Some(0));
    // A repeat of the oldest id makes it the most recently used one
    assert!(!f.add_entry(entry(0, "again")));
    assert_eq!(f.seen_ids.len(), MAX_SEEN_IDS);
    assert_eq!(f.seen_position(&id(0)), Some(MAX_SEEN_IDS - 1));
    assert_eq!(f.seen_position(&id(1)), Some(0));
    // The next new id evicts the least recently used one instead
    assert!(f.add_entry(entry(MAX_SEEN_IDS as u32, "new")));
    assert!(f.has_seen(&id(0)));
    assert!(!f.has_seen(&id(1)));
    assert!(f.has_seen(&id(2)));
}

#[test]
fn shown_entry_ids_are_never_forgotten() {
    let mut f = FeedState::new();
    for n in 0..(MAX_SEEN_IDS as u32) {
        assert!(f.add_entry(entry(n, "x")));
    }
    // The feed shows the last MAX_MESSAGES events; every older id is seen
    // again, so the shown ones become the least recently used
    let first_shown = (MAX_SEEN_IDS - MAX_MESSAGES) as u32;
    for n in 0..first_shown {
        assert!(!f.add_entry(entry(n, "again")));
    }
    assert_eq!(f.seen_position(&id(first_shown)), Some(0));
    // A new id lets go of the least recently used id without an entry
    assert!(f.add_entry(entry(MAX_SEEN_IDS as u32, "new")));
    assert!(f.has_seen(&id(first_shown)));
    assert!(!f.has_seen(&id(0)));
    assert!(f.has_seen(&id(1)));
    // A shown event is still refused, so it is never shown twice
    let last = MAX_SEEN_IDS as u32 - 1;
    assert!(!f.add_entry(entry(last, "repeat")));
    let count = f.entries.iter().filter(|e| e.id.same_as(&id(last))).count();
    assert_eq!(count, 1);
    assert_eq!(f.entries.len(), MAX_MESSAGES);
}

#[test]
fn header_line_of_a_plain_note() {
    let e = entry(1, "x");
    assert_eq!(e.header_line(), "@author1");
}

#[test]
fn header_line_marks_reposts_badges_and_replies() {
    let e = FeedEntry {
        id: id(2),
        author: "satoshi".to_string(),
        kind: FeedEntryKind::Repost,
        content: "x".to_string(),
        is_reply: true,
        nip05: Some("_@bitcoin.org".to_string()),
    };
    assert_eq!(e.header_line(), "↻ @satoshi [✓bitcoin.org] (reply)");
}

#[test]
fn header_badge_without_at_shows_whole_identifier() {
    let mut e = entry(3, "x");
    e.nip05 = Some("example.com".to_string());
    assert_eq!(e.header_line(), "@author3 [✓example.com]");
}
