use alterbot::cache::{expired_poll_action, ExpiredPollAction, PollCache};

#[test]
fn insert_then_get() {
    let mut c = PollCache::new();
    assert!(c.is_empty());
    c.insert(7, (100, 5));
    assert_eq!(c.get(7), Some((100, 5)));
    assert_eq!(c.get(8), None);
    assert!(c.contains(7));
    assert_eq!(c.len(), 1);
    c.insert(7, (200, 0));
    assert_eq!(c.get(7), Some((200, 0)));
    assert_eq!(c.len(), 1);
}

#[test]
fn remove_hands_back_the_time() {
    let mut c = PollCache::new();
    c.insert(1, (10, 0));
    c.insert(2, (20, 0));
    assert_eq!(c.remove(1), Some((10, 0)));
    assert_eq!(c.remove(1), None);
    assert!(!c.contains(1));
    assert_eq!(c.get(2), Some((20, 0)));
}

#[test]
fn sync_replaces_everything() {
    let mut c = PollCache::new();
    c.insert(1, (10, 0));
    c.sync_all(vec![(2, (20, 0)), (3, (30, 0)), (2, (25, 0))]);
    assert!(!c.contains(1));
    assert_eq!(c.get(2), Some((25, 0)));
    assert_eq!(c.get(3), Some((30, 0)));
    assert_eq!(c.len(), 2);
}

#[test]
fn evict_at_drops_closed_polls() {
    let mut c = PollCache::new();
    c.insert(1, (10, 0));
    c.insert(2, (20, 0));
    c.insert(3, (20, 1));
    c.insert(4, (30, 0));
    let gone = c.evict_expired_at((20, 0));
    assert_eq!(gone, 2);
    assert!(!c.contains(1));
    assert!(!c.contains(2));
    assert!(c.contains(3));
    assert!(c.contains(4));
    assert_eq!(c.evict_expired_at((20, 0)), 0);
}

#[test]
fn retain_at_returns_closed_ids() {
    let mut c = PollCache::new();
    c.insert(1, (10, 0));
    c.insert(2, (50, 0));
    c.insert(3, (5, 999));
    let mut ids = c.retain_expired_at((10, 0));
    ids.sort();
    assert_eq!(ids, vec![1, 3]);
    assert_eq!(c.len(), 1);
    assert!(c.contains(2));
    assert!(c.retain_expired_at((10, 0)).is_empty());
}

#[test]
fn evict_with_the_clock() {
    let mut c = PollCache::new();
    c.insert(1, (1, 0));
    c.insert(2, (4_000_000_000, 0));
    assert_eq!(c.evict_expired(), 1);
    assert!(c.contains(2));
    c.insert(3, (2, 0));
    assert_eq!(c.retain_expired(), vec![3]);
    assert!(c.contains(2));
}

#[test]
fn expired_polls_are_finalised_only_when_active() {
    assert_eq!(expired_poll_action(true), ExpiredPollAction::Finalise);
    assert_eq!(expired_poll_action(false), ExpiredPollAction::Forget);
}

#[test]
fn size_follows_inserts_and_removals() {
    let mut c = PollCache::new();
    c.insert(1, (5, 0));
    c.insert(2, (6, 0));
    c.insert(1, (7, 0));
    assert_eq!(c.len(), 2);
    c.remove(3);
    assert_eq!(c.len(), 2);
    c.remove(2);
    assert_eq!(c.len(), 1);
    assert!(!c.is_empty());
}
