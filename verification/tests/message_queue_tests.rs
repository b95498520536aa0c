use stealth_sidecar::message_queue::{MessageQueue, DEFAULT_TTL_MILLIS};

#[test]
fn test_message_queue_deduplication() {
    let mut queue = MessageQueue::new(10);

    assert!(!queue.has_seen("msg1"));
    queue.add_message("msg1".to_string());

    assert!(queue.has_seen("msg1"));

    assert!(!queue.has_seen("msg2"));
}

#[test]
fn entries_older_than_five_minutes_are_evicted() {
    let mut queue = MessageQueue::new(10);
    queue.add_message_at("a".to_string(), 1_000);
    queue.add_message_at("b".to_string(), 2_000);
    assert!(queue.has_seen_at("a", 1_000 + DEFAULT_TTL_MILLIS));
    assert_eq!(queue.len(), 2);
    assert!(!queue.has_seen_at("a", 1_001 + DEFAULT_TTL_MILLIS));
    assert_eq!(queue.len(), 1);
    assert!(queue.has_seen_at("b", 2_000 + DEFAULT_TTL_MILLIS));
    assert!(!queue.has_seen_at("b", 2_001 + DEFAULT_TTL_MILLIS));
    assert_eq!(queue.len(), 0);
}

#[test]
fn a_full_cache_gives_up_its_oldest_entry() {
    let mut queue = MessageQueue::new(2);
    queue.add_message_at("a".to_string(), 1);
    queue.add_message_at("b".to_string(), 2);
    queue.add_message_at("c".to_string(), 3);
    assert_eq!(queue.len(), 2);
    assert!(!queue.has_seen_at("a", 3));
    assert!(queue.has_seen_at("b", 3));
    assert!(queue.has_seen_at("c", 3));
}

#[test]
fn a_cache_without_capacity_stays_empty() {
    let mut queue = MessageQueue::new(0);
    queue.add_message_at("a".to_string(), 1);
    assert_eq!(queue.len(), 0);
    assert!(!queue.has_seen_at("a", 1));
}

#[test]
fn a_clock_that_falls_back_does_not_unsort_the_cache() {
    let mut queue = MessageQueue::with_ttl(10, 100);
    queue.add_message_at("a".to_string(), 1_000);
    queue.add_message_at("b".to_string(), 500);
    assert!(queue.has_seen_at("b", 1_100));
    assert!(!queue.has_seen_at("b", 1_101));
    assert_eq!(queue.len(), 0);
}

#[test]
fn configured_ttl_is_used() {
    let mut queue = MessageQueue::with_ttl(10, 50);
    queue.add_message_at("a".to_string(), 10);
    assert!(queue.has_seen_at("a", 60));
    assert!(!queue.has_seen_at("a", 61));
}
