use tpt_diskview::cleanup::detector::{CleanupCategory, DirEntryInfo, DirListing};
use tpt_diskview::cleanup::docker::{
    detect_stale_docker_volumes, docker_artifact_paths, docker_search_dirs, estimate_dir_size,
    DockerProbe,
};
use tpt_diskview::cleanup::duplicate::{
    detect_duplicates, group_duplicates, hash_candidates, hash_file, FileContents, HashedFile,
};
use tpt_diskview::cleanup::temp::{
    browser_cache_dirs, collect_files, detect_browser_cache, detect_temp_files, temp_search_dirs,
};
use tpt_diskview::cleanup::report::{detect_cleanup_candidates, removal_summary};
use tpt_diskview::text::Platform;

fn entry(dir: &str, name: &str, size: Option<u64>) -> DirEntryInfo {
    DirEntryInfo {
        path: format!("{}/{}", dir, name),
        file_name: name.to_string(),
        file_size: size,
    }
}

/// The listings of `dirs`, the i-th holding `entries[i]` (or nothing).
fn listed(dirs: &[String], mut entries: Vec<Vec<DirEntryInfo>>) -> Vec<DirListing> {
    entries.resize(dirs.len(), Vec::new());
    dirs.iter().cloned().zip(entries).map(|(dir, entries)| DirListing { dir, entries }).collect()
}

/// Probes of `dirs` that find nothing except `found` (index, sizes).
fn probed(dirs: &[String], found: &[(usize, [Option<u64>; 3])]) -> Vec<DockerProbe> {
    dirs.iter()
        .enumerate()
        .map(|(i, d)| DockerProbe {
            dir: d.clone(),
            artifact_sizes: found.iter().find(|(j, _)| *j == i).map(|(_, s)| *s).unwrap_or([None, None, None]),
        })
        .collect()
}

fn contents(path: &str, data: &str) -> FileContents {
    FileContents {
        path: path.to_string(),
        size: data.len() as u64,
        contents: Some(data.as_bytes().to_vec()),
    }
}

#[test]
fn test_detect_temp_files() {
    // A root with a `Temp` directory holding three files, and a regular file
    // at the root, as searched on Windows.
    let root = "C:\\Users\\me";
    let dirs = temp_search_dirs(Platform::Windows, root, None);
    assert_eq!(dirs, vec!["C:\\Users\\me\\Temp".to_string(), "C:\\Users\\me\\tmp".to_string()]);
    let temp = &dirs[0];
    let listings = listed(
        &dirs,
        vec![vec![
            entry(temp, "temp1.tmp", Some("temp content".len() as u64)),
            entry(temp, "temp2.tmp", Some("more temp content".len() as u64)),
            entry(temp, "cache.dat", Some("cache data".len() as u64)),
        ]],
    );
    let candidates = detect_temp_files(Platform::Windows, root, None, true, &listings);
    assert!(!candidates.is_empty());
    for candidate in &candidates {
        assert!(
            candidate.path.contains("Temp")
                || candidate.path.contains("temp")
                || candidate.path.contains("cache")
        );
    }
    assert_eq!(candidates.len(), 3);
    assert_eq!(candidates[0].description, "Temporary/cache file: temp1.tmp");
    assert_eq!(candidates[1].size, 17);
    assert_eq!(candidates[2].category, CleanupCategory::TempFiles);
}

#[test]
fn test_detect_browser_cache() {
    let root = "/home/me";
    let dirs = browser_cache_dirs(Platform::Unix, root);
    assert_eq!(dirs, vec!["/home/me/cache".to_string(), "/home/me/.cache".to_string()]);
    // `Cache` holds cache_file_1 but is not searched on Unix; `cache` holds
    // cache_file_2.
    let listings =
        listed(&dirs, vec![vec![entry(&dirs[0], "cache_file_2", Some("firefox cache".len() as u64))]]);
    let candidates = detect_browser_cache(Platform::Unix, root, true, &listings);
    assert!(!candidates.is_empty());
    for candidate in &candidates {
        assert!(candidate.path.contains("Cache") || candidate.path.contains("cache"));
    }
    assert_eq!(candidates.len(), 1);
    assert_eq!(candidates[0].category, CleanupCategory::BrowserCache);
    assert_eq!(candidates[0].size, 13);
}

#[test]
fn test_detect_duplicates() {
    let files = vec![
        contents("/d/file1.txt", "duplicate content"),
        contents("/d/file2.txt", "duplicate content"),
        contents("/d/file3.txt", "unique content"),
    ];
    let candidates = detect_duplicates(&files);
    // Should find 1 duplicate (file2 is duplicate of file1)
    assert_eq!(candidates.len(), 1);
    assert_eq!(candidates[0].size, "duplicate content".len() as u64);
    assert_eq!(candidates[0].path, "/d/file2.txt");
    assert_eq!(candidates[0].description, "Duplicate of /d/file1.txt (17 bytes)");
    assert_eq!(candidates[0].category, CleanupCategory::Duplicates);
}

#[test]
fn test_detect_duplicates_empty_dir() {
    let candidates = detect_duplicates(&vec![]);
    assert!(candidates.is_empty());
}

#[test]
fn test_detect_duplicates_no_duplicates() {
    let files = vec![
        contents("/d/file1.txt", "content1"),
        contents("/d/file2.txt", "content2"),
        contents("/d/file3.txt", "content3"),
    ];
    let candidates = detect_duplicates(&files);
    assert!(candidates.is_empty());
}

#[test]
fn test_detect_stale_docker_volumes_windows() {
    let root = "C:\\Users\\me";
    let dirs = docker_search_dirs(Platform::Windows, root, None);
    assert_eq!(dirs, vec!["C:\\Users\\me\\AppData\\Local\\Docker".to_string()]);
    let probes = probed(&dirs, &[(0, [Some("docker volume data".len() as u64), None, None])]);
    let candidates = detect_stale_docker_volumes(Platform::Windows, root, None, true, &probes);
    assert!(!candidates.is_empty());
    for candidate in &candidates {
        assert!(
            candidate.path.contains("volumes")
                || candidate.path.contains("overlay2")
                || candidate.path.contains("image")
        );
    }
    assert_eq!(candidates[0].path, "C:\\Users\\me\\AppData\\Local\\Docker\\volumes");
    assert_eq!(candidates[0].description, "Docker volumes directory");
}

#[test]
fn test_detect_stale_docker_volumes_linux() {
    let root = "/tmp/root";
    let dirs = docker_search_dirs(Platform::Unix, root, None);
    assert_eq!(
        dirs,
        vec![
            "/var/lib/docker/desktop".to_string(),
            "/var/lib/docker/containers".to_string(),
            "/tmp/root/var/lib/docker".to_string(),
            "/tmp/root/.docker".to_string(),
            "/tmp/root/.docker/desktop".to_string(),
        ]
    );
    let probes = probed(&dirs, &[(2, [Some("docker volume data".len() as u64), None, None])]);
    let candidates = detect_stale_docker_volumes(Platform::Unix, root, None, true, &probes);
    assert!(!candidates.is_empty());
    for candidate in &candidates {
        assert!(
            candidate.path.contains("volumes")
                || candidate.path.contains("overlay2")
                || candidate.path.contains("image")
        );
    }
    assert_eq!(candidates[0].size, 18);
    assert_eq!(candidates[0].category, CleanupCategory::DockerVolumes);
}

#[test]
fn test_detect_stale_docker_volumes_no_docker() {
    let dirs = docker_search_dirs(Platform::Unix, "/r", None);
    let candidates = detect_stale_docker_volumes(Platform::Unix, "/r", None, true, &probed(&dirs, &[]));
    assert!(candidates.is_empty());
}

#[test]
fn test_detect_temp_files_empty_dir() {
    let dirs = temp_search_dirs(Platform::Unix, "/r", None);
    let candidates = detect_temp_files(Platform::Unix, "/r", None, true, &listed(&dirs, vec![]));
    assert!(candidates.is_empty());
}

#[test]
fn test_detect_browser_cache_empty_dir() {
    let dirs = browser_cache_dirs(Platform::Unix, "/r");
    let candidates = detect_browser_cache(Platform::Unix, "/r", true, &listed(&dirs, vec![]));
    assert!(candidates.is_empty());
}

#[test]
fn missing_root_gives_nothing() {
    let listing = vec![DirListing { dir: "/x".to_string(), entries: vec![entry("/x", "a", Some(3))] }];
    assert!(detect_temp_files(Platform::Unix, "/r", None, false, &listing).is_empty());
    assert!(detect_browser_cache(Platform::Unix, "/r", false, &listing).is_empty());
    let probes = vec![DockerProbe { dir: "/x".to_string(), artifact_sizes: [Some(1), Some(2), Some(3)] }];
    assert!(detect_stale_docker_volumes(Platform::Unix, "/r", None, false, &probes).is_empty());
}

#[test]
fn collect_files_keeps_only_regular_files_in_order() {
    let mut candidates = Vec::new();
    let listing = vec![entry("/t", "a", Some(1)), entry("/t", "sub", None), entry("/t", "b", Some(2))];
    collect_files(&listing, CleanupCategory::TempFiles, &mut candidates);
    assert_eq!(candidates.len(), 2);
    assert_eq!(candidates[0].path, "/t/a");
    assert_eq!(candidates[1].path, "/t/b");
    assert_eq!(candidates[1].description, "Temporary/cache file: b");
}

#[test]
fn temp_dirs_on_unix_include_system_and_home() {
    let dirs = temp_search_dirs(Platform::Unix, "/r", Some("/home/u"));
    assert_eq!(
        dirs,
        vec!["/r/tmp", "/r/var/tmp", "/tmp", "/var/tmp", "/dev/shm", "/home/u/.cache"]
    );
    let win_cache = browser_cache_dirs(Platform::Windows, "D:");
    assert_eq!(win_cache, vec!["D:Cache", "D:cache", "D:Code Cache"]);
}

#[test]
fn docker_dirs_with_home_and_artifacts() {
    let dirs = docker_search_dirs(Platform::Unix, "/", Some("/home/u/"));
    assert_eq!(dirs[0], "/home/u/.docker/desktop");
    assert_eq!(dirs[3], "/var/lib/docker");
    let paths = docker_artifact_paths(Platform::Unix, "/var/lib/docker");
    assert_eq!(
        paths,
        vec!["/var/lib/docker/volumes", "/var/lib/docker/overlay2", "/var/lib/docker/image"]
    );
    let probes = probed(&dirs, &[(3, [None, Some(5), Some(7)])]);
    let c = detect_stale_docker_volumes(Platform::Unix, "/", Some("/home/u/"), true, &probes);
    assert_eq!(c.len(), 2);
    assert_eq!(c[0].path, "/var/lib/docker/overlay2");
    assert_eq!(c[0].description, "Docker overlay2 directory");
    assert_eq!(c[1].description, "Docker image directory");
    assert_eq!(c[1].size, 7);
}

#[test]
fn dir_size_sums_and_detects_overflow() {
    assert_eq!(estimate_dir_size(&vec![]), Some(0));
    assert_eq!(estimate_dir_size(&vec![1, 2, 3]), Some(6));
    assert_eq!(estimate_dir_size(&vec![u64::MAX, 0]), Some(u64::MAX));
    assert_eq!(estimate_dir_size(&vec![u64::MAX, 1]), None);
}

#[test]
fn hash_candidates_need_a_size_twin() {
    let r = hash_candidates(&vec![5, 0, 0, 7, 5, 9]);
    assert_eq!(r, vec![true, false, false, false, true, false]);
}

#[test]
fn empty_files_are_never_duplicates() {
    let files = vec![contents("/a", ""), contents("/b", "")];
    assert!(detect_duplicates(&files).is_empty());
}

#[test]
fn hash_is_blake3() {
    let d = hash_file(b"abc");
    // BLAKE3("abc")
    assert_eq!(d[0], 0x64);
    assert_eq!(d[1], 0x37);
    assert_eq!(d[31], 0x85);
    assert_ne!(hash_file(b"abc"), hash_file(b"abd"));
}

#[test]
fn unread_files_are_skipped() {
    let files = vec![
        contents("/a", "same"),
        FileContents { path: "/b".to_string(), size: 4, contents: None },
        contents("/c", "same"),
    ];
    let c = detect_duplicates(&files);
    assert_eq!(c.len(), 1);
    assert_eq!(c[0].path, "/c");
    assert_eq!(c[0].description, "Duplicate of /a (4 bytes)");
}

#[test]
fn grouping_by_digest() {
    let d1 = [1u8; 32];
    let d2 = [2u8; 32];
    let files = vec![
        HashedFile { path: "/a".to_string(), size: 10, digest: Some(d1) },
        HashedFile { path: "/b".to_string(), size: 20, digest: Some(d1) },
        HashedFile { path: "/c".to_string(), size: 10, digest: Some(d2) },
        HashedFile { path: "/d".to_string(), size: 10, digest: Some(d1) },
        HashedFile { path: "/e".to_string(), size: 20, digest: Some(d1) },
        HashedFile { path: "/f".to_string(), size: 10, digest: Some(d2) },
        HashedFile { path: "/g".to_string(), size: 10, digest: None },
        HashedFile { path: "/h".to_string(), size: 10, digest: Some(d1) },
    ];
    let c = group_duplicates(&files);
    let got: Vec<(&str, &str)> = c.iter().map(|x| (x.path.as_str(), x.description.as_str())).collect();
    assert_eq!(
        got,
        vec![
            ("/b", "Duplicate of /a (10 bytes)"),
            ("/e", "Duplicate of /a (10 bytes)"),
            ("/d", "Duplicate of /a (10 bytes)"),
            ("/f", "Duplicate of /c (10 bytes)"),
            ("/h", "Duplicate of /a (10 bytes)"),
        ]
    );
}

#[test]
fn empty_hashed_files_are_ignored() {
    let d = [7u8; 32];
    let files = vec![
        HashedFile { path: "/z1".to_string(), size: 0, digest: Some(d) },
        HashedFile { path: "/z2".to_string(), size: 0, digest: Some(d) },
        HashedFile { path: "/n1".to_string(), size: 3, digest: Some(d) },
        HashedFile { path: "/n2".to_string(), size: 3, digest: Some(d) },
    ];
    let c = group_duplicates(&files);
    assert_eq!(c.len(), 1);
    assert_eq!(c[0].path, "/n2");
    assert_eq!(c[0].description, "Duplicate of /n1 (3 bytes)");
}

#[test]
fn all_candidates_in_detector_order() {
    let root = "/r";
    let tdirs = temp_search_dirs(Platform::Unix, root, None);
    let cdirs = browser_cache_dirs(Platform::Unix, root);
    let ddirs = docker_search_dirs(Platform::Unix, root, None);
    let temp = listed(&tdirs, vec![vec![entry(&tdirs[0], "t", Some(1))]]);
    let caches = listed(&cdirs, vec![vec![], vec![entry(&cdirs[1], "c", Some(2))]]);
    let files = vec![contents("/r/a", "same"), contents("/r/b", "same")];
    let probes = probed(&ddirs, &[(4, [None, None, Some(9)])]);
    let all = detect_cleanup_candidates(Platform::Unix, root, None, true, &temp, &caches, &files, &probes)
        .unwrap();
    let paths: Vec<&str> = all.iter().map(|c| c.path.as_str()).collect();
    assert_eq!(paths, vec!["/r/tmp/t", "/r/.cache/c", "/r/b", "/r/.docker/desktop/image"]);
    let none = detect_cleanup_candidates(Platform::Unix, root, None, false, &temp, &caches, &files, &probes)
        .unwrap();
    assert!(none.is_empty());
}

#[test]
fn removal_summary_counts_and_sums() {
    let s = removal_summary(&vec![10, 0, 32]).unwrap();
    assert_eq!(s.removed, 3);
    assert_eq!(s.freed, 42);
    let empty = removal_summary(&vec![]).unwrap();
    assert_eq!((empty.removed, empty.freed), (0, 0));
    assert!(removal_summary(&vec![u64::MAX, 1]).is_none());
}
