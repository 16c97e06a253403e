use axo_drive::storage::{walk_step, Probe, Storage, StorageError, WalkStep};

fn names(storage: &Storage, rel: &str) -> Vec<String> {
    storage.resolve(Some(rel)).expect("confined path").components
}

#[test]
fn resolve_rejects_parent_components() {
    let storage = Storage::new("/srv/root".to_string());
    for rel in ["../secret.txt", "a/../../b", "a/..", "..", "a\\..\\b"] {
        assert!(matches!(storage.resolve(Some(rel)), Err(StorageError::InvalidPath)), "{rel}");
    }
}

#[test]
fn resolve_rejects_absolute_and_drive_prefixes() {
    let storage = Storage::new("/srv/root".to_string());
    for rel in ["/etc/passwd", "\\windows", "C:\\x", "c:foo"] {
        assert!(matches!(storage.resolve(Some(rel)), Err(StorageError::InvalidPath)), "{rel}");
    }
}

#[test]
fn resolve_drops_empty_and_current_components() {
    let storage = Storage::new("/srv/root".to_string());
    assert_eq!(names(&storage, "a/./b//c"), vec!["a", "b", "c"]);
    assert_eq!(names(&storage, "dir\\file.txt"), vec!["dir", "file.txt"]);
    assert_eq!(names(&storage, "..a/b.."), vec!["..a", "b.."]);
    assert!(names(&storage, "").is_empty());
    assert!(names(&storage, "./").is_empty());
    assert!(storage.resolve(None).expect("root").components.is_empty());
    assert_eq!(storage.root_path(), "/srv/root");
}

fn walk(probes: &[Probe], allow_missing_leaf: bool) -> Result<(), StorageError> {
    for (i, probe) in probes.iter().enumerate() {
        match walk_step(i, probes.len(), allow_missing_leaf, probe) {
            WalkStep::Continue => {}
            WalkStep::Done(r) => return r,
        }
    }
    Ok(())
}

#[test]
fn resolve_path_rejects_symlink() {
    assert_eq!(walk(&[Probe::Symlink], false), Err(StorageError::InvalidPath));
    assert_eq!(walk(&[Probe::Symlink], true), Err(StorageError::InvalidPath));
    assert_eq!(
        walk(&[Probe::Directory, Probe::Symlink, Probe::File], true),
        Err(StorageError::InvalidPath)
    );
}

#[test]
fn walk_rejects_file_used_as_directory() {
    assert_eq!(walk(&[Probe::File, Probe::File], false), Err(StorageError::InvalidPath));
}

#[test]
fn walk_tolerates_missing_leaf_only_when_allowed() {
    assert_eq!(walk(&[Probe::Directory, Probe::Missing], true), Ok(()));
    assert_eq!(walk(&[Probe::Directory, Probe::Missing], false), Err(StorageError::NotFound));
    assert_eq!(walk(&[Probe::Missing, Probe::Missing], true), Err(StorageError::NotFound));
}

#[test]
fn walk_accepts_plain_paths_and_reports_io_failures() {
    assert_eq!(walk(&[Probe::Directory, Probe::File], false), Ok(()));
    assert_eq!(walk(&[Probe::Directory, Probe::Directory], false), Ok(()));
    assert_eq!(walk(&[], false), Ok(()));
    assert_eq!(
        walk(&[Probe::Failed("denied".to_string())], false),
        Err(StorageError::Io("denied".to_string()))
    );
}
