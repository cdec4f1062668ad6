use yestary::keys::{KeyError, KeyResolver, Resolution};

#[test]
fn concurrent_requests_share_one_fetch() {
    let mut r: KeyResolver<String> = KeyResolver::new();
    let id = [1u8, 2, 3, 4, 5, 6, 7, 8];
    assert_eq!(r.request(&id, 10), Resolution::Fetch);
    assert_eq!(r.request(&id, 11), Resolution::Wait);
    let d = r.complete(&id, Ok("key".to_string())).unwrap();
    assert_eq!(d.waiters, vec![10, 11]);
    assert_eq!(d.outcome, Ok(0));
    assert_eq!(r.key(0), "key");
    assert_eq!(r.request(&id, 12), Resolution::Ready(0));
}

#[test]
fn failed_fetch_reaches_all_waiters_and_is_evicted() {
    let mut r: KeyResolver<String> = KeyResolver::new();
    let id = [9u8; 8];
    assert_eq!(r.request(&id, 1), Resolution::Fetch);
    assert_eq!(r.request(&id, 2), Resolution::Wait);
    let d = r.complete(&id, Err(KeyError::Fetch)).unwrap();
    assert_eq!(d.waiters, vec![1, 2]);
    assert_eq!(d.outcome, Err(KeyError::Fetch));
    assert_eq!(r.request(&id, 3), Resolution::Fetch);
    let d = r.complete(&id, Err(KeyError::Parse)).unwrap();
    assert_eq!(d.waiters, vec![3]);
    assert_eq!(d.outcome, Err(KeyError::Parse));
}

#[test]
fn keys_are_kept_apart() {
    let mut r: KeyResolver<String> = KeyResolver::new();
    let a = [1u8; 8];
    let b = [2u8; 8];
    assert_eq!(r.request(&a, 1), Resolution::Fetch);
    assert_eq!(r.request(&b, 2), Resolution::Fetch);
    assert!(r.complete(&b, Err(KeyError::Fetch)).is_some());
    let d = r.complete(&a, Ok("a".to_string())).unwrap();
    assert_eq!(d.waiters, vec![1]);
    assert_eq!(r.request(&a, 3), Resolution::Ready(0));
    assert_eq!(r.request(&b, 4), Resolution::Fetch);
}

#[test]
fn completion_without_fetch_is_ignored() {
    let mut r: KeyResolver<String> = KeyResolver::new();
    let a = [1u8; 8];
    assert!(r.complete(&a, Ok("a".to_string())).is_none());
    assert_eq!(r.request(&a, 1), Resolution::Fetch);
    assert!(r.complete(&a, Ok("a".to_string())).is_some());
    assert!(r.complete(&a, Ok("b".to_string())).is_none());
    assert_eq!(r.key(0), "a");
}
