use tpt_diskview::error::ScanError;
use tpt_diskview::scanner::assemble_directory;
use tpt_diskview::tree::{FileNode, FileNodeType, Tree};

fn file(name: &str, path: &str, size: u64) -> FileNode {
    FileNode::file(name, path, size)
}

/// Builds a directory the way a scan does: the scanned children are put
/// below a new directory node by `assemble_directory`.
fn dir_with(name: &str, path: &str, children: Vec<FileNode>) -> FileNode {
    let results: Vec<Result<FileNode, ScanError>> = children.into_iter().map(Ok).collect();
    assemble_directory(FileNode::directory(name, path), results).unwrap()
}

/// Builds a directory by adding the children one by one, then ordering them.
fn dir_by_steps(name: &str, path: &str, children: Vec<FileNode>) -> FileNode {
    let mut d = FileNode::directory(name, path);
    for c in children {
        d.add_child(c);
    }
    d.sort_children();
    d
}

#[test]
fn test_file_node_creation() {
    let file = FileNode::file("test.txt", "/path/test.txt", 100);
    assert_eq!(file.name, "test.txt");
    assert_eq!(file.path, "/path/test.txt");
    assert_eq!(file.size, 100);
    assert_eq!(file.node_type, FileNodeType::File);
    assert_eq!(file.item_count, 1);
    assert!(file.children.is_empty());
}

#[test]
fn test_directory_node_creation() {
    let dir = FileNode::directory("testdir", "/path/testdir");
    assert_eq!(dir.name, "testdir");
    assert_eq!(dir.path, "/path/testdir");
    assert_eq!(dir.size, 0);
    assert_eq!(dir.node_type, FileNodeType::Directory);
    assert_eq!(dir.item_count, 1); // Directory counts itself
    assert!(dir.children.is_empty());
}

#[test]
fn test_tree_total_size() {
    let mut dir = FileNode::directory("root", "/root");
    let file1 = FileNode::file("file1.txt", "/root/file1.txt", 100);
    let file2 = FileNode::file("file2.txt", "/root/file2.txt", 200);
    dir.children.push(file1);
    dir.children.push(file2);
    dir.size = 300;
    dir.item_count = 3;

    assert_eq!(dir.total_size(), 300);
    assert_eq!(dir.total_items(), 3);
}

#[test]
fn test_scan_empty_directory() {
    let root = dir_with("empty", "/tmp/empty", vec![]);
    let tree = Tree { root };
    assert_eq!(tree.root.children.len(), 0);
    assert_eq!(tree.root.size, 0);
}

#[test]
fn test_scan_directory_with_files() {
    let root = dir_with(
        "d",
        "/d",
        vec![file("file1.txt", "/d/file1.txt", 5), file("file2.txt", "/d/file2.txt", 6)],
    );
    assert_eq!(root.children.len(), 2);
    assert_eq!(root.size, 11); // "hello" (5) + "world!" (6)
    assert_eq!(root.item_count, 3); // 2 files + 1 directory
}

#[test]
fn test_scan_nested_directories() {
    let sub = dir_with("subdir", "/d/subdir", vec![file("file2.txt", "/d/subdir/file2.txt", 6)]);
    let root = dir_with("d", "/d", vec![file("file1.txt", "/d/file1.txt", 5), sub]);
    assert_eq!(root.children.len(), 2); // file1.txt + subdir
    assert_eq!(root.size, 11);
    let subdir_node = root.children.iter().find(|c| c.name == "subdir").unwrap();
    assert_eq!(subdir_node.node_type, FileNodeType::Directory);
    assert_eq!(subdir_node.size, 6);
    assert_eq!(subdir_node.children.len(), 1);
}

#[test]
fn file_totals_are_its_own() {
    let f = file("a", "/a", 42);
    assert_eq!(f.total_size(), 42);
    assert_eq!(f.total_items(), 1);
    assert_eq!(f.allocated, 42);
    assert!(f.last_modified.is_none());
}

#[test]
fn non_directory_totals_ignore_children() {
    let mut link = file("l", "/l", 7);
    link.node_type = FileNodeType::Symlink;
    link.children.push(file("x", "/x", 1000));
    assert_eq!(link.total_size(), 7);
    assert_eq!(link.total_items(), 1);
}

#[test]
fn directory_totals_come_from_leaves() {
    // recorded sizes of directories are ignored; the leaves count
    let mut inner = FileNode::directory("inner", "/r/inner");
    inner.children.push(file("a", "/r/inner/a", 10));
    inner.children.push(file("b", "/r/inner/b", 20));
    inner.size = 999;
    let mut root = FileNode::directory("r", "/r");
    root.children.push(inner);
    root.children.push(file("c", "/r/c", 5));
    assert_eq!(root.total_size(), 35);
    assert_eq!(root.total_items(), 5);
}

#[test]
fn built_tree_is_consistent() {
    let sub = dir_with(
        "s",
        "/r/s",
        vec![file("a", "/r/s/a", 3), file("b", "/r/s/b", 4), dir_with("e", "/r/s/e", vec![])],
    );
    let root = dir_with("r", "/r", vec![sub, file("c", "/r/c", 100)]);
    assert_eq!(root.size, 107);
    assert_eq!(root.item_count, 6);
    assert_eq!(root.total_size(), root.size);
    assert_eq!(root.total_items(), root.item_count);
}

#[test]
fn children_sorted_largest_first_and_stable() {
    let root = dir_with(
        "r",
        "/r",
        vec![
            file("a", "/r/a", 5),
            file("b", "/r/b", 9),
            file("c", "/r/c", 5),
            file("d", "/r/d", 1),
            file("e", "/r/e", 9),
        ],
    );
    let names: Vec<&str> = root.children.iter().map(|c| c.name.as_str()).collect();
    assert_eq!(names, vec!["b", "e", "a", "c", "d"]);
}

#[test]
fn sorting_many_children() {
    let mut children = Vec::new();
    for i in 0..500u64 {
        children.push(file(&format!("f{}", i), &format!("/r/f{}", i), (i * 7919) % 101));
    }
    let root = dir_with("r", "/r", children);
    for w in root.children.windows(2) {
        assert!(w[0].size >= w[1].size);
        if w[0].size == w[1].size {
            let a: u64 = w[0].name[1..].parse().unwrap();
            let b: u64 = w[1].name[1..].parse().unwrap();
            assert!(a < b);
        }
    }
    assert_eq!(root.children.len(), 500);
}

#[test]
fn clone_keeps_contents() {
    let root = dir_with("r", "/r", vec![file("a", "/r/a", 1), file("b", "/r/b", 2)]);
    let copy = root.clone();
    assert_eq!(copy.name, "r");
    assert_eq!(copy.size, 3);
    assert_eq!(copy.children.len(), 2);
    assert_eq!(copy.children[0].name, "b");
    assert_eq!(copy.total_size(), root.total_size());
}

#[test]
fn tree_clone_copies_nested_children() {
    let inner = dir_with("d", "/r/d", vec![file("x", "/r/d/x", 5)]);
    let tree = Tree { root: dir_with("r", "/r", vec![inner, file("y", "/r/y", 1)]) };
    let copy = tree.clone();
    assert_eq!(copy.root.children.len(), 2);
    assert_eq!(copy.root.children[0].name, "d");
    assert_eq!(copy.root.children[0].children[0].path, "/r/d/x");
    assert_eq!(copy.root.children[0].children[0].size, 5);
    assert_eq!(copy.root.total_items(), tree.root.total_items());
}

#[test]
fn steps_and_assembly_agree() {
    let kids = || vec![file("a", "/d/a", 3), file("b", "/d/b", 8), file("c", "/d/c", 3)];
    let x = dir_with("d", "/d", kids());
    let y = dir_by_steps("d", "/d", kids());
    assert_eq!(x.size, y.size);
    assert_eq!(x.item_count, y.item_count);
    let nx: Vec<&str> = x.children.iter().map(|c| c.name.as_str()).collect();
    let ny: Vec<&str> = y.children.iter().map(|c| c.name.as_str()).collect();
    assert_eq!(nx, ny);
}
