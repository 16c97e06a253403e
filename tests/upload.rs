use axo_drive::upload::upload_temp_root;
use axo_drive::config::MAX_CHUNK_SIZE;
use axo_drive::error::ApiError;
use axo_drive::storage::{Storage, StorageError};
use axo_drive::upload::{
    add_chunk_bytes, check_chunk_index, check_concurrency, check_merged_size, check_metadata,
    check_upload_limits, expected_chunks, is_stale, new_upload_id, normalize_upload_name,
    parse_chunk_index, part_file_name, part_index, plan_merge, validate_upload_id, UploadConfig,
    UploadMetadata,
};

fn config() -> UploadConfig {
    UploadConfig {
        max_total_size: 100 * 1024 * 1024 * 1024,
        max_chunks: 8192,
        max_concurrent: 8,
        temp_ttl_secs: 24 * 60 * 60,
    }
}

fn bad(r: Result<impl std::fmt::Debug, ApiError>, msg: &str) {
    match r {
        Err(ApiError::BadRequest(m)) => assert_eq!(m, msg),
        other => panic!("expected bad request {msg:?}, got {other:?}"),
    }
}

fn listing(names: &[&str]) -> Vec<String> {
    names.iter().map(|s| s.to_string()).collect()
}

#[test]
fn init_upload_rejects_traversal_path() {
    let storage = Storage::new("/srv/storage".to_string());
    let name = normalize_upload_name("../secret.txt").expect("non-empty name");
    assert_eq!(name, "../secret.txt");
    let err = storage.resolve(Some(&name)).unwrap_err();
    assert_eq!(err, StorageError::InvalidPath);
    bad(Err::<(), _>(axo_drive::error::from_storage(err)), "invalid path");
}

#[test]
fn upload_name_is_trimmed_and_stripped() {
    assert_eq!(normalize_upload_name("  /\\dir/file.bin \n").unwrap(), "dir/file.bin");
    bad(normalize_upload_name(" // "), "name is required");
    bad(normalize_upload_name(""), "name is required");
}

#[test]
fn upload_flow_missing_chunk_returns_error() {
    bad(plan_merge(&listing(&["meta.json", "1.part"]), 8192), "missing chunk");
}

#[test]
fn upload_flow_success_cleans_temp_dir() {
    assert_eq!(plan_merge(&listing(&["meta.json", "0.part"]), 8192).unwrap(), vec![1]);
    check_merged_size(3, 3).unwrap();
}

#[test]
fn merge_with_gap_fails() {
    bad(plan_merge(&listing(&["0.part", "1.part", "3.part"]), 8192), "missing chunk");
}

#[test]
fn merge_orders_parts_by_index() {
    let names = listing(&["2.part", "meta.json", "0.part", "notes.txt", "1.part"]);
    assert_eq!(plan_merge(&names, 0).unwrap(), vec![2, 4, 0]);
}

#[test]
fn merge_rejects_duplicates_empty_and_too_many() {
    bad(plan_merge(&listing(&["0.part", "00.part"]), 8192), "missing chunk");
    bad(plan_merge(&listing(&["meta.json"]), 8192), "no chunks uploaded");
    bad(plan_merge(&listing(&["0.part", "1.part", "2.part"]), 2), "upload chunk count exceeds limit");
    assert_eq!(plan_merge(&listing(&["1.part", "0.part"]), 2).unwrap(), vec![1, 0]);
}

#[test]
fn merged_size_must_match_declared_size() {
    bad(check_merged_size(10, 9), "size mismatch");
    check_merged_size(10, 10).unwrap();
    check_merged_size(0, 9).unwrap();
}

#[test]
fn part_names_round_trip() {
    assert_eq!(part_file_name(0), "0.part");
    assert_eq!(part_file_name(1234), "1234.part");
    assert_eq!(part_index(&part_file_name(u64::MAX)), Some(u64::MAX));
    assert_eq!(part_index("7.part"), Some(7));
    assert_eq!(part_index("+7.part"), Some(7));
    assert_eq!(part_index("7.part.part"), Some(7));
    assert_eq!(part_index("7"), None);
    assert_eq!(part_index("x.part"), None);
    assert_eq!(part_index(".part"), None);
    assert_eq!(part_index("18446744073709551616.part"), None);
}

#[test]
fn reuploaded_chunk_uses_one_part_file() {
    let first = part_file_name(2);
    let second = part_file_name(2);
    assert_eq!(first, second);
    let names = vec!["0.part".to_string(), "1.part".to_string(), second];
    assert_eq!(plan_merge(&names, 8192).unwrap(), vec![0, 1, 2]);
}

#[test]
fn upload_limits() {
    let cfg = config();
    check_upload_limits(1, &cfg).unwrap();
    bad(check_upload_limits(cfg.max_total_size + 1, &cfg), "upload size exceeds limit");
    let small = UploadConfig { max_chunks: 2, ..config() };
    check_upload_limits(2 * MAX_CHUNK_SIZE, &small).unwrap();
    bad(check_upload_limits(2 * MAX_CHUNK_SIZE + 1, &small), "upload chunk count exceeds limit");
    let unlimited = UploadConfig { max_total_size: 0, max_chunks: 0, ..config() };
    check_upload_limits(u64::MAX, &unlimited).unwrap();
    assert_eq!(expected_chunks(0), 0);
    assert_eq!(expected_chunks(1), 1);
    assert_eq!(expected_chunks(MAX_CHUNK_SIZE), 1);
    assert_eq!(expected_chunks(MAX_CHUNK_SIZE + 1), 2);
    assert_eq!(expected_chunks(u64::MAX), 1 << 40);
}

#[test]
fn concurrency_ceiling() {
    let cfg = config();
    check_concurrency(7, &cfg).unwrap();
    assert!(matches!(check_concurrency(8, &cfg), Err(ApiError::TooManyRequests(60))));
    check_concurrency(100, &UploadConfig { max_concurrent: 0, ..config() }).unwrap();
}

#[test]
fn upload_ids() {
    let id = new_upload_id();
    assert_eq!(id.len(), 36);
    validate_upload_id(&id).unwrap();
    assert_ne!(id, new_upload_id());
    bad(validate_upload_id("   "), "upload_id is required");
    bad(validate_upload_id("../../etc"), "upload_id is invalid");
    validate_upload_id("550e8400-e29b-41d4-a716-446655440000").unwrap();
}

#[test]
fn chunk_index_header() {
    assert_eq!(parse_chunk_index(Some("12")).unwrap(), 12);
    bad(parse_chunk_index(Some("abc")), "X-Chunk-Index is required");
    bad(parse_chunk_index(Some("-1")), "X-Chunk-Index is required");
    bad(parse_chunk_index(None), "X-Chunk-Index is required");
    let cfg = config();
    check_chunk_index(8191, &cfg).unwrap();
    bad(check_chunk_index(8192, &cfg), "chunk index exceeds limit");
    check_chunk_index(u64::MAX, &UploadConfig { max_chunks: 0, ..config() }).unwrap();
}

#[test]
fn chunk_byte_budget() {
    assert_eq!(add_chunk_bytes(0, 10), Some(10));
    assert_eq!(add_chunk_bytes(MAX_CHUNK_SIZE - 1, 1), Some(MAX_CHUNK_SIZE));
    assert_eq!(add_chunk_bytes(MAX_CHUNK_SIZE, 1), None);
    assert_eq!(add_chunk_bytes(1, u64::MAX), None);
}

#[test]
fn metadata_checks() {
    let cfg = config();
    let ok = UploadMetadata { name: "file.bin".to_string(), total_size: 3 };
    check_metadata(&ok, &cfg).unwrap();
    bad(
        check_metadata(&UploadMetadata { name: "  ".to_string(), total_size: 3 }, &cfg),
        "target name is required",
    );
    bad(
        check_metadata(&UploadMetadata { name: "f".to_string(), total_size: u64::MAX }, &cfg),
        "upload size exceeds limit",
    );
}

#[test]
fn stale_staging_directories() {
    assert!(is_stale(10_000, 1_000, 9_000));
    assert!(!is_stale(10_000, 1_001, 9_000));
    assert!(!is_stale(10_000, 1_000, 0));
    assert!(!is_stale(1_000, 10_000, 1));
}

#[test]
fn staging_root_sits_beside_storage_root() {
    let at = |root: &str| upload_temp_root(&Storage::new(root.to_string()));
    assert_eq!(at("/tmp/x/storage"), "/tmp/x/.axo/temp");
    assert_eq!(at(".axo/storage"), ".axo/temp");
    assert_eq!(at("/srv/.axo/storage/"), "/srv/.axo/temp");
    assert_eq!(at("storage"), ".axo/temp");
    assert_eq!(at("/storage"), "/.axo/temp");
    assert_eq!(at("/"), ".axo/temp");
    assert_eq!(at(""), ".axo/temp");
    assert_eq!(at("a//b"), "a/.axo/temp");
}

#[test]
fn write_file_rejects_traversal_path() {
    let storage = Storage::new("/srv/storage".to_string());
    axo_drive::files::require_path("../secret.txt").unwrap();
    let err = storage.resolve(Some("../secret.txt")).unwrap_err();
    bad(Err::<(), _>(axo_drive::error::from_storage(err)), "invalid path");
    bad(axo_drive::files::require_path(""), "path is required");
}
