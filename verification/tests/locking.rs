use bridge::lock::{lock_file_path, lock_wait_should_retry, LockTable, LockTimeoutError};

#[test]
fn test_lock_path_is_deterministic() {
    assert_eq!(
        lock_file_path("host1", "default"),
        "/tmp/bridge-host1-default.lock"
    );
    assert_eq!(
        lock_file_path("host1", "default"),
        lock_file_path("host1", "default")
    );
}

#[test]
fn test_distinct_lock_names_use_distinct_paths() {
    let kernel = lock_file_path("host1", "kernel");
    let docs = lock_file_path("host1", "docs");
    assert_ne!(kernel, docs);
}

#[test]
fn test_mutual_exclusion_same_pair() {
    // two acquisitions of the same (hostname, lockName) never both succeed
    let path = lock_file_path("host1", "default");
    let mut table = LockTable::new();
    assert!(table.try_acquire(&path));
    assert!(!table.try_acquire(&path));
    // the second succeeds only after the first holder releases
    table.release(&path);
    assert!(table.try_acquire(&path));
}

#[test]
fn test_lock_independence_across_names() {
    // different lock names under one hostname never block each other
    let kernel = lock_file_path("host1", "kernel");
    let docs = lock_file_path("host1", "docs");
    let mut table = LockTable::new();
    assert!(table.try_acquire(&kernel));
    assert!(table.try_acquire(&docs));
    table.release(&kernel);
    assert!(table.try_acquire(&kernel));
}

#[test]
fn test_wait_window() {
    assert!(lock_wait_should_retry(0, 600));
    assert!(lock_wait_should_retry(598, 600));
    assert!(!lock_wait_should_retry(600, 600));
    assert!(!lock_wait_should_retry(601, 600));
    assert!(!lock_wait_should_retry(0, 0));
}

#[test]
fn test_timeout_error_names_lock_and_host() {
    let err = LockTimeoutError {
        hostname: "myhost".to_string(),
        lock_name: "kernel".to_string(),
        timeout_secs: 600,
    };
    assert_eq!(
        err.message(),
        "Timed out waiting for lock 'kernel' on myhost after 600s"
    );
}
