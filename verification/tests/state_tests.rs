use tpt_diskview::scanner::ScanProgress;
use tpt_diskview::state::ScanState;
use tpt_diskview::tree::{FileNode, Tree};

fn tree(name: &str) -> Tree {
    Tree { root: FileNode::directory(name, "/x") }
}

#[test]
fn starts_from_idle() {
    let s = ScanState::default();
    assert!(!s.is_scanning);
    assert_eq!(s.current_path, "");
    assert!(s.result.is_none() && s.partial_tree.is_none() && s.error.is_none());
}

#[test]
fn second_start_is_refused() {
    let mut s = ScanState::default();
    assert!(s.begin_scan().is_ok());
    assert!(s.is_scanning);
    assert_eq!(s.begin_scan(), Err("Scan already in progress".to_string()));
    assert!(s.is_scanning);
}

#[test]
fn progress_updates_and_completion() {
    let mut s = ScanState::default();
    s.begin_scan().unwrap();
    s.apply_progress(ScanProgress::Scanning { path: "/a".to_string(), files_scanned: 5, bytes_scanned: 50 });
    assert_eq!(s.current_path, "/a");
    assert_eq!(s.files_scanned, 5);
    assert_eq!(s.bytes_scanned, 50);
    s.apply_progress(ScanProgress::PartialTree(tree("p")));
    assert_eq!(s.partial_tree.as_ref().unwrap().root.name, "p");
    assert!(s.is_scanning);
    s.apply_progress(ScanProgress::Completed(tree("done")));
    assert!(!s.is_scanning);
    assert_eq!(s.result.as_ref().unwrap().root.name, "done");
    // a new scan clears the result and counters but keeps the partial tree
    s.begin_scan().unwrap();
    assert!(s.result.is_none());
    assert_eq!(s.files_scanned, 0);
    assert_eq!(s.current_path, "");
    assert_eq!(s.partial_tree.as_ref().unwrap().root.name, "p");
}

#[test]
fn errors_and_cancel_stop_the_scan() {
    let mut s = ScanState::default();
    s.begin_scan().unwrap();
    s.apply_progress(ScanProgress::Error("bad".to_string()));
    assert!(!s.is_scanning);
    assert_eq!(s.error.as_deref(), Some("bad"));
    s.begin_scan().unwrap();
    assert!(s.error.is_none());
    s.record_failure("Path not found: /q".to_string());
    assert!(!s.is_scanning);
    assert_eq!(s.error.as_deref(), Some("Path not found: /q"));
    s.begin_scan().unwrap();
    s.cancel();
    assert!(!s.is_scanning);
    assert!(s.begin_scan().is_ok());
}
