use tpt_diskview::error::ScanError;
use tpt_diskview::scanner::{
    assemble_directory,
    get_file_node_type, is_skipped_mount_point, progress_report, reparse_target_path,
    to_extended_length_path, ScanProgress,
};
use tpt_diskview::text::Platform;
use tpt_diskview::tree::{FileNode, FileNodeType};

#[test]
fn error_messages() {
    assert_eq!(ScanError::Io("boom".to_string()).message(), "I/O error: boom");
    assert_eq!(ScanError::PermissionDenied("/x".to_string()).message(), "Permission denied: /x");
    assert_eq!(ScanError::Cancelled.message(), "Scan was cancelled");
    assert_eq!(ScanError::Other("odd".to_string()).message(), "odd");
}

#[test]
fn skipped_mount_points() {
    assert!(is_skipped_mount_point(Platform::Unix, "/proc"));
    assert!(is_skipped_mount_point(Platform::Unix, "/proc/1/maps"));
    assert!(is_skipped_mount_point(Platform::Unix, "/sys/kernel"));
    assert!(is_skipped_mount_point(Platform::Unix, "/dev/null"));
    assert!(is_skipped_mount_point(Platform::Unix, "/run/user"));
    assert!(is_skipped_mount_point(Platform::Unix, "/snap/core"));
    assert!(is_skipped_mount_point(Platform::Unix, "/proc/"));
    assert!(!is_skipped_mount_point(Platform::Unix, "/devices"));
    assert!(!is_skipped_mount_point(Platform::Unix, "/sysroot"));
    assert!(!is_skipped_mount_point(Platform::Unix, "/runner/x"));
    assert!(!is_skipped_mount_point(Platform::Unix, "/snapshots"));
    assert!(!is_skipped_mount_point(Platform::Unix, "/home/proc"));
    assert!(!is_skipped_mount_point(Platform::Unix, "/usr"));
    assert!(!is_skipped_mount_point(Platform::Windows, "/proc"));
}

#[test]
fn node_types() {
    assert_eq!(get_file_node_type(Platform::Unix, true, false, false, None), FileNodeType::Directory);
    assert_eq!(get_file_node_type(Platform::Unix, true, true, true, Some(false)), FileNodeType::Directory);
    assert_eq!(get_file_node_type(Platform::Unix, false, true, false, None), FileNodeType::Symlink);
    assert_eq!(get_file_node_type(Platform::Unix, false, false, false, None), FileNodeType::File);
    assert_eq!(get_file_node_type(Platform::Windows, true, false, true, Some(true)), FileNodeType::Junction);
    assert_eq!(get_file_node_type(Platform::Windows, true, false, true, Some(false)), FileNodeType::Symlink);
    assert_eq!(get_file_node_type(Platform::Windows, true, false, true, None), FileNodeType::Junction);
    assert_eq!(get_file_node_type(Platform::Windows, true, false, false, None), FileNodeType::Directory);
}

#[test]
fn extended_length_paths() {
    assert_eq!(to_extended_length_path(Platform::Unix, "/a/b", Some("/c")), "/a/b");
    assert_eq!(to_extended_length_path(Platform::Windows, "\\\\?\\C:\\a", Some("C:\\b")), "\\\\?\\C:\\a");
    assert_eq!(to_extended_length_path(Platform::Windows, "a", None), "a");
    assert_eq!(to_extended_length_path(Platform::Windows, "a", Some("C:\\short")), "\\\\?\\C:\\short");
    assert_eq!(to_extended_length_path(Platform::Windows, "C:\\x", None), "\\\\?\\C:\\x");
    assert_eq!(
        to_extended_length_path(Platform::Windows, "\\\\srv\\share\\f", None),
        "\\\\?\\UNC\\srv\\share\\f"
    );
    assert_eq!(to_extended_length_path(Platform::Windows, "\\\\.\\COM1", None), "\\\\.\\COM1");
    assert_eq!(to_extended_length_path(Platform::Windows, "C:/x", None), "C:/x");
    assert_eq!(
        to_extended_length_path(Platform::Windows, "x", Some("\\\\?\\C:\\x")),
        "\\\\?\\C:\\x"
    );
    let long = format!("C:\\{}", "x".repeat(300));
    assert_eq!(to_extended_length_path(Platform::Windows, "a", Some(&long)), format!("\\\\?\\{}", long));
}

#[test]
fn reparse_targets() {
    assert_eq!(reparse_target_path("\\\\?\\C:\\target"), "C:\\target");
    assert_eq!(reparse_target_path("C:\\target"), "C:\\target");
}

#[test]
fn progress_every_hundred_files() {
    assert!(progress_report("/x", 99, 10).is_none());
    match progress_report("/x", 200, 10) {
        Some(ScanProgress::Scanning { path, files_scanned, bytes_scanned }) => {
            assert_eq!(path, "/x");
            assert_eq!(files_scanned, 200);
            assert_eq!(bytes_scanned, 10);
        }
        _ => panic!("expected a report"),
    }
    assert!(progress_report("/x", 0, 0).is_some());
}

#[test]
fn assemble_adds_sorts_and_stops_at_first_failure() {
    let dir = FileNode::directory("d", "/d");
    let kids = vec![
        Ok(FileNode::file("a", "/d/a", 5)),
        Ok(FileNode::file("b", "/d/b", 9)),
        Ok(FileNode::file("c", "/d/c", 5)),
    ];
    let d = assemble_directory(dir, kids).unwrap();
    assert_eq!(d.size, 19);
    assert_eq!(d.item_count, 4);
    let names: Vec<&str> = d.children.iter().map(|c| c.name.as_str()).collect();
    assert_eq!(names, vec!["b", "a", "c"]);

    let failing = vec![
        Ok(FileNode::file("a", "/d/a", 5)),
        Err(ScanError::Cancelled),
        Err(ScanError::Other("later".to_string())),
    ];
    match assemble_directory(FileNode::directory("d", "/d"), failing) {
        Err(ScanError::Cancelled) => {}
        _ => panic!("expected the first failure"),
    }
}
