use tpt_diskview::text::{decimal_string, join_path, starts_with, Platform};

#[test]
fn decimal_rendering() {
    assert_eq!(decimal_string(0), "0");
    assert_eq!(decimal_string(7), "7");
    assert_eq!(decimal_string(10), "10");
    assert_eq!(decimal_string(1234567890), "1234567890");
    assert_eq!(decimal_string(u64::MAX), u64::MAX.to_string());
}

#[test]
fn joining_paths() {
    assert_eq!(join_path(Platform::Unix, "/a", "b"), "/a/b");
    assert_eq!(join_path(Platform::Unix, "/a/", "b"), "/a/b");
    assert_eq!(join_path(Platform::Unix, "", "b"), "b");
    assert_eq!(join_path(Platform::Unix, "a\\", "b"), "a\\/b");
    assert_eq!(join_path(Platform::Windows, "C:\\x", "y"), "C:\\x\\y");
    assert_eq!(join_path(Platform::Windows, "C:\\x/", "y"), "C:\\x/y");
    assert_eq!(join_path(Platform::Windows, "C:", "y"), "C:y");
    assert_eq!(join_path(Platform::Windows, "C:\\", "y"), "C:\\y");
}

#[test]
fn prefixes() {
    assert!(starts_with("/proc/1", "/proc"));
    assert!(starts_with("abc", ""));
    assert!(!starts_with("/pr", "/proc"));
    assert!(starts_with("héllo", "hé"));
    assert!(!starts_with("hello", "hé"));
}
