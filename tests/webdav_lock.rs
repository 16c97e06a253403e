use axo_drive::webdav_lock::{
    is_descendant, is_descendant_or_same, new_lock_token, normalize_lock_path, LockState,
};

fn lock(
    table: &mut LockState<u32>,
    key: &str,
    shared: bool,
    deep: bool,
    timeout: Option<u64>,
    now: u64,
) -> Result<usize, usize> {
    table.lock(key, Some("alice".to_string()), 0, timeout, shared, deep, now, new_lock_token())
}

#[test]
fn deep_exclusive_lock_blocks_descendant() {
    let mut t = LockState::new();
    assert_eq!(lock(&mut t, "/a", false, true, None, 0), Ok(0));
    assert_eq!(lock(&mut t, "/a/b", false, false, None, 0), Err(0));
    assert_eq!(lock(&mut t, "/a/b", true, false, None, 0), Err(0));
    assert_eq!(lock(&mut t, "/c", false, false, None, 0), Ok(1));
    assert_eq!(lock(&mut t, "/ab", false, false, None, 0), Ok(2));
}

#[test]
fn shallow_lock_does_not_cover_descendants() {
    let mut t = LockState::new();
    assert_eq!(lock(&mut t, "/a", false, false, None, 0), Ok(0));
    assert_eq!(lock(&mut t, "/a/b", false, false, None, 0), Ok(1));
    assert_eq!(lock(&mut t, "/a", false, true, None, 0), Err(0));
}

#[test]
fn deep_request_is_blocked_by_lock_below() {
    let mut t = LockState::new();
    assert_eq!(lock(&mut t, "/a/b/c", false, false, None, 0), Ok(0));
    assert_eq!(lock(&mut t, "/a", false, true, None, 0), Err(0));
    assert_eq!(lock(&mut t, "/a", false, false, None, 0), Ok(1));
}

#[test]
fn shared_locks_coexist_but_block_exclusive() {
    let mut t = LockState::new();
    assert_eq!(lock(&mut t, "/a", true, false, None, 0), Ok(0));
    assert_eq!(lock(&mut t, "/a", true, false, None, 0), Ok(1));
    assert_eq!(lock(&mut t, "/a", false, false, None, 0), Err(0));
}

#[test]
fn expired_lock_no_longer_blocks() {
    let mut t = LockState::new();
    assert_eq!(lock(&mut t, "/a", false, true, Some(1_000), 5_000), Ok(0));
    assert_eq!(t.locks[0].expires_at, Some(6_000));
    assert_eq!(lock(&mut t, "/a/b", false, false, None, 5_999), Err(0));
    assert_eq!(lock(&mut t, "/a/b", false, false, None, 6_000), Ok(0));
    assert_eq!(t.locks.len(), 1);
    assert_eq!(t.locks[0].key, "/a/b");
    let mut far = LockState::new();
    assert_eq!(lock(&mut far, "/x", false, false, Some(u64::MAX), 10), Ok(0));
    assert_eq!(far.locks[0].expires_at, Some(u64::MAX));
}

#[test]
fn delete_removes_subtree_only() {
    let mut t = LockState::new();
    for key in ["/a", "/a/b", "/a/b/c", "/b", "/ab"] {
        assert!(lock(&mut t, key, false, false, None, 0).is_ok());
    }
    assert_eq!(t.delete("/a", 0), Ok(()));
    let keys: Vec<&str> = t.locks.iter().map(|l| l.key.as_str()).collect();
    assert_eq!(keys, vec!["/b", "/ab"]);
    assert_eq!(t.delete("/", 0), Ok(()));
    assert!(t.locks.is_empty());
}

#[test]
fn unlock_and_refresh_need_path_and_token() {
    let mut t = LockState::new();
    let token = new_lock_token();
    assert_eq!(t.lock("/f", None, 7u32, Some(100), false, false, 0, token.clone()), Ok(0));
    assert_eq!(t.refresh("/f", "urn:uuid:other", Some(10), 0), Err(()));
    assert_eq!(t.refresh("/g", &token, Some(10), 0), Err(()));
    assert_eq!(t.refresh("/f", &token, Some(500), 50), Ok(0));
    assert_eq!(t.locks[0].expires_at, Some(550));
    assert_eq!(t.locks[0].timeout_ms, Some(500));
    assert_eq!(t.locks[0].payload, 7);
    assert_eq!(t.unlock("/f", "urn:uuid:other", 60), Err(()));
    assert_eq!(t.unlock("/f", &token, 60), Ok(()));
    assert_eq!(t.unlock("/f", &token, 60), Err(()));
    assert!(t.locks.is_empty());
}

#[test]
fn check_honours_tokens_and_principals() {
    let mut t = LockState::new();
    let token = new_lock_token();
    assert!(t.lock("/d", Some("bob".to_string()), 0u32, None, false, true, 0, token.clone()).is_ok());
    let bob = Some("bob".to_string());
    let eve = Some("eve".to_string());
    assert_eq!(t.check("/d/x", &bob, false, false, &vec![], 0), Err(0));
    assert_eq!(t.check("/d/x", &bob, false, false, &vec![token.clone()], 0), Ok(()));
    assert_eq!(t.check("/d/x", &eve, false, false, &vec![token.clone()], 0), Err(0));
    assert_eq!(t.check("/d/x", &eve, true, false, &vec![token.clone()], 0), Ok(()));
    assert_eq!(t.check("/e", &eve, false, true, &vec![], 0), Ok(()));
    assert_eq!(t.check("/", &eve, false, true, &vec![], 0), Err(0));
    assert_eq!(t.check("/", &eve, false, false, &vec![], 0), Ok(()));
}

#[test]
fn discover_lists_applying_locks() {
    let mut t = LockState::new();
    assert!(lock(&mut t, "/a", true, true, None, 0).is_ok());
    assert!(lock(&mut t, "/a/b", true, false, None, 0).is_ok());
    assert!(lock(&mut t, "/c", false, false, None, 0).is_ok());
    assert!(lock(&mut t, "/a/b/c", true, false, None, 0).is_ok());
    assert_eq!(t.discover("/a/b", 0), vec![0, 1]);
    assert_eq!(t.discover("/c", 0), vec![2]);
    assert_eq!(t.discover("/z", 0), Vec::<usize>::new());
}

#[test]
fn lock_paths() {
    assert_eq!(normalize_lock_path("/a/b/"), "/a/b");
    assert_eq!(normalize_lock_path("/"), "/");
    assert_eq!(normalize_lock_path("/a"), "/a");
    assert!(is_descendant_or_same("/", "/x"));
    assert!(is_descendant_or_same("/a", "/a"));
    assert!(is_descendant_or_same("/a", "/a/b"));
    assert!(!is_descendant_or_same("/a", "/ab"));
    assert!(!is_descendant("/a", "/a"));
    assert!(is_descendant("/a", "/a/b/c"));
    assert!(!is_descendant("/a/b", "/a"));
    let token = new_lock_token();
    assert_eq!(token.len(), 45);
    assert!(token.starts_with("urn:uuid:"));
    assert_ne!(token, new_lock_token());
}
