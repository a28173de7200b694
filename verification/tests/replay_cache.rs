//! Behaviour of the replay cache on its own: accept-once-per-window
//! bookkeeping, window rollover, and per-identity independence.

use tokenauth::replay::ReplayCache;

const T: u64 = 1_700_000_000;

#[test]
fn first_contact_accepts() {
    let mut c = ReplayCache::new();
    assert!(c.check_and_record("x", "tok-a", T));
}

#[test]
fn same_pair_in_window_rejected() {
    let mut c = ReplayCache::new();
    assert!(c.check_and_record("x", "tok-a", T));
    assert!(!c.check_and_record("x", "tok-a", T));
    assert!(!c.check_and_record("x", "tok-a", T + 8));
}

#[test]
fn distinct_tokens_in_window_accepted() {
    let mut c = ReplayCache::new();
    assert!(c.check_and_record("x", "tok-a", T));
    assert!(c.check_and_record("x", "tok-b", T + 1));
    assert!(c.check_and_record("x", "tok-c", T + 2));
    assert!(!c.check_and_record("x", "tok-b", T + 3));
}

#[test]
fn window_rollover_clears_history() {
    let mut c = ReplayCache::new();
    assert!(c.check_and_record("x", "tok-a", T));
    // Exactly WINDOW_SECONDS later the window has not yet elapsed.
    assert!(!c.check_and_record("x", "tok-a", T + 8));
    // One second further it has; the same token is accepted anew.
    assert!(c.check_and_record("x", "tok-a", T + 9));
    // And rejected again inside the new window.
    assert!(!c.check_and_record("x", "tok-a", T + 9));
}

#[test]
fn rollover_starts_window_at_contact_time() {
    let mut c = ReplayCache::new();
    assert!(c.check_and_record("x", "tok-a", T));
    // The reset at T + 20 starts a window at T + 20, not at T + 8.
    assert!(c.check_and_record("x", "tok-a", T + 20));
    assert!(!c.check_and_record("x", "tok-a", T + 28));
    assert!(c.check_and_record("x", "tok-a", T + 29));
}

#[test]
fn identities_do_not_share_history() {
    let mut c = ReplayCache::new();
    assert!(c.check_and_record("x", "tok-a", T));
    // The identical token string is fresh for another identity.
    assert!(c.check_and_record("y", "tok-a", T));
    assert!(!c.check_and_record("x", "tok-a", T));
    assert!(!c.check_and_record("y", "tok-a", T));
}

#[test]
fn duplicate_pair_exactly_one_acceptance() {
    let mut c = ReplayCache::new();
    let outcomes = [
        c.check_and_record("x", "tok-a", T),
        c.check_and_record("x", "tok-a", T),
    ];
    assert_eq!(outcomes.iter().filter(|&&b| b).count(), 1);
    assert!(outcomes[0]);
}

#[test]
fn unmatched_garbage_is_still_recorded() {
    // The cache records what is presented, valid or not.
    let mut c = ReplayCache::new();
    assert!(c.check_and_record("x", "not-a-real-token", T));
    assert!(!c.check_and_record("x", "not-a-real-token", T + 1));
}
