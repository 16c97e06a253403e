use axo_drive::config::{millis, Args};
use axo_drive::frontend::asset_request;
use axo_drive::version::version_info;
use axo_drive::atomic::{advance, new_temp_file_name, temp_file_name, Finalize};
use axo_drive::auth::{
    attempt_retained, check_login_rate_limit, is_auth_exempt_path, register_login_failure,
    session_is_live, LoginAttempt, LoginPolicy, SessionEntry,
};
use axo_drive::error::ApiError;
use axo_drive::files::{
    parse_range, plan_download_for,
    content_range_text, last_modified_text, list_entries, parse_range_text, plan_download,
    sort_entries, FileEntry, RawEntry,
};
use axo_drive::http::{comma_items, first_forwarded, is_https_forwarded, is_https_request, RequestScheme};
use axo_drive::locking::normalize_lock_key;
use axo_drive::storage::Storage;
use axum::http::{HeaderMap, HeaderValue};

#[test]
fn lock_keys() {
    assert_eq!(normalize_lock_key("  /dir\\sub\\file.txt "), "dir/sub/file.txt");
    assert_eq!(normalize_lock_key("\\\\a"), "a");
    assert_eq!(normalize_lock_key("a/b"), normalize_lock_key("/a\\b"));
}

#[test]
fn temp_names() {
    assert_eq!(temp_file_name(Some("doc.txt"), "id"), ".doc.txt.tmp.id");
    assert_eq!(temp_file_name(None, "id"), ".file.tmp.id");
    let a = new_temp_file_name(Some("x"));
    assert!(a.starts_with(".x.tmp."));
    assert_eq!(a.len(), ".x.tmp.".len() + 36);
    assert_ne!(a, new_temp_file_name(Some("x")));
}

fn drive(outcomes: &[Result<(), String>], forbidden: bool) -> Vec<Finalize> {
    let mut f = Finalize::SyncFile;
    let mut seen = vec![f.clone()];
    for o in outcomes {
        f = advance(f, o.clone(), forbidden);
        seen.push(f.clone());
    }
    seen
}

#[test]
fn finalize_success_path() {
    let ok = vec![Ok(()); 5];
    let seen = drive(&ok, false);
    assert_eq!(
        seen,
        vec![
            Finalize::SyncFile,
            Finalize::SyncDir,
            Finalize::Rename,
            Finalize::SyncDirAfter,
            Finalize::Replaced,
            Finalize::Replaced
        ]
    );
}

#[test]
fn finalize_failures_remove_temp() {
    let e = || Err("boom".to_string());
    let seen = drive(&[e(), Ok(()), Ok(())], false);
    assert_eq!(seen[1], Finalize::RemoveTemp("boom".to_string()));
    assert_eq!(seen[2], Finalize::Failed("boom".to_string()));
    let seen = drive(&[Ok(()), e(), e(), Ok(())], false);
    assert_eq!(seen[3], Finalize::RemoveTemp("boom".to_string()));
    let seen = drive(&[Ok(()), Ok(()), e(), Ok(()), Err("again".to_string()), Ok(())], true);
    assert_eq!(seen[3], Finalize::RemoveTarget("boom".to_string()));
    assert_eq!(seen[4], Finalize::RetryRename("boom".to_string()));
    assert_eq!(seen[5], Finalize::RemoveTemp("boom".to_string()));
    assert_eq!(seen[6], Finalize::Failed("boom".to_string()));
    let seen = drive(&[Ok(()), Ok(()), e(), Ok(()), Ok(()), Ok(())], true);
    assert_eq!(seen[5], Finalize::SyncDirAfter);
    assert_eq!(seen[6], Finalize::Replaced);
}

#[test]
fn auth_exempt_paths() {
    assert!(is_auth_exempt_path("/api/auth/login"));
    assert!(is_auth_exempt_path("/api/version"));
    assert!(is_auth_exempt_path("/index.html"));
    assert!(!is_auth_exempt_path("/api/files/list"));
    assert!(!is_auth_exempt_path("/webdav/x"));
    assert!(!is_auth_exempt_path("/webdavx"));
}

#[test]
fn login_rate_limiting() {
    let policy = LoginPolicy { window_ms: 300_000, max_attempts: 2, lockout_ms: 600_000 };
    let mut entry = None;
    for _ in 0..2 {
        let (e, retry) = check_login_rate_limit(entry, 1_000, &policy);
        assert_eq!(retry, None);
        entry = register_login_failure(e, 1_000, &policy);
    }
    let locked = entry.unwrap();
    assert_eq!(locked.failures, 2);
    assert_eq!(locked.locked_until, Some(601_000));
    let (_, retry) = check_login_rate_limit(entry, 2_000, &policy);
    assert_eq!(retry, Some(599));
    let (after, retry) = check_login_rate_limit(entry, 601_000, &policy);
    assert_eq!(retry, None);
    assert_eq!(after, Some(LoginAttempt { window_start: 601_000, failures: 0, locked_until: None }));
    let off = LoginPolicy { max_attempts: 0, ..policy };
    assert_eq!(check_login_rate_limit(None, 5, &off), (None, None));
    assert_eq!(register_login_failure(None, 5, &off), None);
    assert!(attempt_retained(&locked, 600_999, 300_000));
    assert!(!attempt_retained(&locked, 601_000, 300_000));
    let fresh = LoginAttempt { window_start: 0, failures: 1, locked_until: None };
    assert!(attempt_retained(&fresh, 300_000, 300_000));
    assert!(!attempt_retained(&fresh, 300_001, 300_000));
    assert!(session_is_live(&SessionEntry { expires_at: 10 }, 9));
    assert!(!session_is_live(&SessionEntry { expires_at: 10 }, 10));
}

#[test]
fn https_detection() {
    assert!(RequestScheme::Https.is_https());
    assert!(!RequestScheme::Http.is_https());
    assert!(is_https_forwarded(Some("HTTPS"), RequestScheme::Http));
    assert!(!is_https_forwarded(Some("http"), RequestScheme::Https));
    assert!(is_https_forwarded(None, RequestScheme::Https));
    let mut headers = HeaderMap::new();
    assert!(!is_https_request(&headers, RequestScheme::Http));
    headers.insert("x-forwarded-proto", HeaderValue::from_static("HttPs"));
    assert!(is_https_request(&headers, RequestScheme::Http));
}

#[test]
fn byte_ranges() {
    assert_eq!(parse_range_text(None, 10).unwrap(), None);
    assert_eq!(parse_range_text(Some("bytes=0-4"), 10).unwrap(), Some((0, 4)));
    assert_eq!(parse_range_text(Some("bytes=5-"), 10).unwrap(), Some((5, 9)));
    assert_eq!(parse_range_text(Some("bytes=-3"), 10).unwrap(), Some((7, 9)));
    assert_eq!(parse_range_text(Some("bytes=-30"), 10).unwrap(), Some((0, 9)));
    assert_eq!(parse_range_text(Some("bytes=-0"), 10).unwrap(), None);
    assert!(matches!(parse_range_text(Some("bytes=0-10"), 10), Err(ApiError::RangeNotSatisfiable(10))));
    assert!(matches!(parse_range_text(Some("bytes=4-2"), 10), Err(ApiError::RangeNotSatisfiable(10))));
    assert!(matches!(parse_range_text(Some("bytes=0-1"), 0), Err(ApiError::RangeNotSatisfiable(0))));
    assert!(matches!(parse_range_text(Some("items=0-1"), 10), Err(ApiError::BadRequest(ref m)) if m == "invalid Range header"));
    assert!(matches!(parse_range_text(Some("bytes=0-1,3-4"), 10), Err(ApiError::BadRequest(ref m)) if m == "multiple ranges not supported"));
    assert!(matches!(parse_range_text(Some("bytes=a-1"), 10), Err(ApiError::BadRequest(ref m)) if m == "invalid Range header"));
    assert!(matches!(parse_range_text(Some("bytes=5"), 10), Ok(Some((5, 9)))));
    assert_eq!(content_range_text(7, 9, 10), "bytes 7-9/10");
}

#[test]
fn download_plans() {
    let plan = plan_download("notes.txt", 10, Some((784111777, 0)), false, Some("bytes=2-5"), None).unwrap();
    assert_eq!(plan.content_type, "text/plain");
    assert_eq!(plan.etag, "W/\"10-784111777-0\"");
    assert_eq!(plan.last_modified.as_deref(), Some("Sun, 06 Nov 1994 08:49:37 GMT"));
    assert_eq!(plan.range, Some((2, 5)));
    assert_eq!(plan.content_length, 4);
    assert_eq!(plan.content_range.as_deref(), Some("bytes 2-5/10"));
    let whole = plan_download("blob", 10, None, false, None, None).unwrap();
    assert_eq!(whole.content_type, "application/octet-stream");
    assert_eq!(whole.content_length, 10);
    assert_eq!(whole.range, None);
    let stale = plan_download(
        "a.bin",
        10,
        Some((784111777, 1)),
        false,
        Some("bytes=2-5"),
        Some("Sun, 06 Nov 1994 08:49:37 GMT"),
    )
    .unwrap();
    assert_eq!(stale.range, None);
    let fresh = plan_download(
        "a.bin",
        10,
        Some((784111777, 0)),
        false,
        Some("bytes=2-5"),
        Some("Sun, 06 Nov 1994 08:49:37 GMT"),
    )
    .unwrap();
    assert_eq!(fresh.range, Some((2, 5)));
    assert!(matches!(plan_download("d", 0, None, true, None, None), Err(ApiError::BadRequest(ref m)) if m == "path is not a file"));
    assert_eq!(last_modified_text(Some((253402300800, 0))), None);
}

fn entry(name: &str, is_dir: bool) -> FileEntry {
    FileEntry { name: name.to_string(), path: name.to_string(), is_dir, size: 0, modified: None }
}

#[test]
fn listing_order() {
    let sorted = sort_entries(vec![entry("b", false), entry("Zed", true), entry("A", false), entry("a", true)]);
    let names: Vec<&str> = sorted.iter().map(|e| e.name.as_str()).collect();
    assert_eq!(names, vec!["a", "Zed", "A", "b"]);
}

#[test]
fn listing_entries() {
    let storage = Storage::new("/srv".to_string());
    let dir = storage.resolve(Some("docs/2024")).unwrap();
    let raw = vec![
        RawEntry { name: "b.txt".to_string(), is_dir: false, size: 3, modified: Some((0, 0)) },
        RawEntry { name: ".upload_temp".to_string(), is_dir: true, size: 0, modified: None },
        RawEntry { name: "A".to_string(), is_dir: true, size: 0, modified: None },
    ];
    let listed = list_entries(&dir, raw);
    assert_eq!(listed.len(), 2);
    assert_eq!(listed[0].name, "A");
    assert_eq!(listed[0].path, "docs/2024/A");
    assert_eq!(listed[1].path, "docs/2024/b.txt");
    assert_eq!(listed[1].modified.as_deref(), Some("1970-01-01 00:00:00"));
    let top = list_entries(&storage.resolve(None).unwrap(), vec![RawEntry { name: "x".to_string(), is_dir: false, size: 1, modified: None }]);
    assert_eq!(top[0].path, "x");
}

#[test]
fn version_and_assets() {
    let v = version_info("1.2.3", "2024-01-01", "1.80.0", "stable");
    assert_eq!(v.build_env, "1.80.0,stable");
    assert_eq!(v.version, "1.2.3");
    let root = asset_request("/");
    assert_eq!(root.name, "index.html");
    assert!(!root.spa_fallback);
    let route = asset_request("//files/docs");
    assert_eq!(route.name, "files/docs");
    assert!(route.spa_fallback);
    assert!(!asset_request("/app.js").spa_fallback);
}

#[test]
fn argument_conversions() {
    let args = Args {
        storage_dir: ".axo/storage".to_string(),
        auth_user: "axo".to_string(),
        auth_pass: "axo".to_string(),
        host: "0.0.0.0".to_string(),
        http_port: 5005,
        https_port: 5006,
        tls_cert: None,
        tls_key: None,
        cors_origins: None,
        session_ttl_secs: 86400,
        login_max_attempts: 5,
        login_window_secs: 300,
        login_lockout_secs: 600,
        upload_max_size: 1,
        upload_max_chunks: 2,
        upload_max_concurrent: 3,
        upload_temp_ttl_secs: 4,
    };
    let policy = args.login_policy();
    assert_eq!(policy.window_ms, 300_000);
    assert_eq!(policy.lockout_ms, 600_000);
    assert_eq!(policy.max_attempts, 5);
    let upload = args.upload_config();
    assert_eq!((upload.max_total_size, upload.max_chunks, upload.max_concurrent, upload.temp_ttl_secs), (1, 2, 3, 4));
    assert_eq!(millis(u64::MAX), u64::MAX);
}

#[test]
fn comma_lists() {
    assert_eq!(comma_items(" https://a.example , ,https://b.example,"), vec!["https://a.example", "https://b.example"]);
    assert!(comma_items("").is_empty());
    assert_eq!(first_forwarded(" 10.0.0.1 , 10.0.0.2").as_deref(), Some("10.0.0.1"));
    assert_eq!(first_forwarded(" , 10.0.0.2"), None);
    assert_eq!(first_forwarded("10.0.0.3"), Some("10.0.0.3".to_string()));
}

#[test]
fn content_types() {
    assert_eq!(axo_drive::files::content_type_of("index.html"), "text/html");
    assert_eq!(axo_drive::files::content_type_of("archive"), "application/octet-stream");
}

#[test]
fn download_plans_from_headers() {
    let mut headers = HeaderMap::new();
    headers.insert("range", HeaderValue::from_static("bytes=-4"));
    let plan = plan_download_for(&headers, "v.mp4", 10, None, false).unwrap();
    assert_eq!(plan.range, Some((6, 9)));
    assert_eq!(plan.content_type, "video/mp4");
    let odd = HeaderValue::from_bytes(b"bytes=\xff").unwrap();
    let mut odd_headers = HeaderMap::new();
    odd_headers.insert("Range", odd.clone());
    assert!(matches!(parse_range(&odd_headers, 10), Err(ApiError::BadRequest(ref m)) if m == "invalid Range header"));
    assert!(matches!(parse_range(&odd_headers, 0), Err(ApiError::RangeNotSatisfiable(0))));
    assert_eq!(parse_range(&HeaderMap::new(), 10).unwrap(), None);
    assert_eq!(parse_range(&headers, 10).unwrap(), Some((6, 9)));
    let mut bad_range = HeaderMap::new();
    bad_range.insert("range", odd);
    assert!(matches!(plan_download_for(&bad_range, "v", 10, None, false), Err(ApiError::BadRequest(_))));
}
