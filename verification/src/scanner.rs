//! The decisions a scan makes about paths and file system objects, and the
//! values it reports while it runs. Walking the file system is left to the
//! caller.
use vstd::prelude::*;
use vstd::string::*;

use crate::text::{Platform, has_prefix, starts_with};
use crate::error::ScanError;
use crate::sort::sort_desc;
use crate::tree::{
    FileNode, FileNodeType, Tree, is_consistent, lemma_sort_keeps_totals, lemma_sums_match_totals,
    lemma_totals_push, node_total_items, node_total_size, nodes_total_items, nodes_total_size,
    sum_item_counts, sum_sizes,
};

verus! {

/// What to scan and how.
#[derive(Debug, Clone)]
pub struct ScanOptions {
    pub root: String,
    pub follow_symlinks: bool,
    pub max_depth: Option<usize>,
    pub exclude_patterns: Vec<String>,
}

/// A report sent while a scan runs.
#[derive(Debug)]
pub enum ScanProgress {
    Scanning { path: String, files_scanned: u64, bytes_scanned: u64 },
    PartialTree(Tree),
    Completed(Tree),
    Error(String),
}

/// The system directories that a scan on Unix does not enter.
pub open spec fn skipped_mount_points() -> Seq<Seq<char>> {
    seq!["/proc"@, "/sys"@, "/dev"@, "/run"@, "/snap"@]
}

/// Whether `path` is the directory `dir` or lies below it: it equals `dir`,
/// or begins with `dir` followed by `/`.
pub open spec fn at_or_below(path: Seq<char>, dir: Seq<char>) -> bool {
    path == dir || has_prefix(path, dir + seq!['/'])
}

/// A path that a scan does not enter: on Unix, one of the skipped system
/// directories or a path below one of them.
pub open spec fn is_skipped(p: Platform, path: Seq<char>) -> bool {
    p == Platform::Unix && exists|i: int|
        0 <= i < skipped_mount_points().len() && at_or_below(path, #[trigger] skipped_mount_points()[i])
}

/// Whether `path` is `dir` or lies below it; see `at_or_below`.
fn is_at_or_below(path: &str, dir: &str) -> (r: bool)
    ensures
        r == at_or_below(path@, dir@),
{
    if !starts_with(path, dir) {
        proof {
            if path@ == dir@ {
                assert(path@.subrange(0, dir@.len() as int) =~= dir@);
            }
            if has_prefix(path@, dir@ + seq!['/']) {
                assert(path@.subrange(0, dir@.len() as int) =~= (dir@ + seq!['/']).subrange(
                    0,
                    dir@.len() as int,
                ));
                assert((dir@ + seq!['/']).subrange(0, dir@.len() as int) =~= dir@);
            }
        }
        return false;
    }
    let n = dir.unicode_len();
    let m = path.unicode_len();
    if m == n {
        proof {
            assert(path@ =~= path@.subrange(0, n as int));
        }
        true
    } else {
        let r = path.get_char(n) == '/';
        proof {
            let q = dir@ + seq!['/'];
            if r {
                assert(path@.subrange(0, q.len() as int) =~= q);
            } else {
                assert(path@ != dir@);
                if has_prefix(path@, q) {
                    assert(path@.subrange(0, q.len() as int)[n as int] == q[n as int]);
                }
            }
        }
        r
    }
}

/// Whether a scan skips `path`; see `is_skipped`.
pub fn is_skipped_mount_point(p: Platform, path: &str) -> (r: bool)
    ensures
        r == is_skipped(p, path@),
{
    match p {
        Platform::Windows => false,
        Platform::Unix => {
            let r = is_at_or_below(path, "/proc") || is_at_or_below(path, "/sys")
                || is_at_or_below(path, "/dev") || is_at_or_below(path, "/run")
                || is_at_or_below(path, "/snap");
            proof {
                let s = skipped_mount_points();
                if r {
                    if at_or_below(path@, "/proc"@) {
                        assert(at_or_below(path@, s[0]));
                    } else if at_or_below(path@, "/sys"@) {
                        assert(at_or_below(path@, s[1]));
                    } else if at_or_below(path@, "/dev"@) {
                        assert(at_or_below(path@, s[2]));
                    } else if at_or_below(path@, "/run"@) {
                        assert(at_or_below(path@, s[3]));
                    } else {
                        assert(at_or_below(path@, s[4]));
                    }
                }
            }
            r
        },
    }
}

/// The kind of node for a file system object: a directory is a junction or
/// a symbolic link on Windows when it is a reparse point (a symbolic link
/// when its target is known not to be a directory); a symbolic link that is
/// not a directory is a symbolic link; anything else is a file.
pub open spec fn node_type_of(
    p: Platform,
    is_dir: bool,
    is_symlink: bool,
    is_reparse_point: bool,
    reparse_target_is_dir: Option<bool>,
) -> FileNodeType {
    if is_dir {
        if p == Platform::Windows && is_reparse_point {
            match reparse_target_is_dir {
                Some(false) => FileNodeType::Symlink,
                _ => FileNodeType::Junction,
            }
        } else {
            FileNodeType::Directory
        }
    } else if is_symlink {
        FileNodeType::Symlink
    } else {
        FileNodeType::File
    }
}

/// The kind of node for a file system object; see `node_type_of`.
pub fn get_file_node_type(
    p: Platform,
    is_dir: bool,
    is_symlink: bool,
    is_reparse_point: bool,
    reparse_target_is_dir: Option<bool>,
) -> (r: FileNodeType)
    ensures
        r == node_type_of(p, is_dir, is_symlink, is_reparse_point, reparse_target_is_dir),
{
    if is_dir {
        match p {
            Platform::Windows => {
                if is_reparse_point {
                    match reparse_target_is_dir {
                        Some(true) => FileNodeType::Junction,
                        Some(false) => FileNodeType::Symlink,
                        None => FileNodeType::Junction,
                    }
                } else {
                    FileNodeType::Directory
                }
            },
            Platform::Unix => FileNodeType::Directory,
        }
    } else if is_symlink {
        FileNodeType::Symlink
    } else {
        FileNodeType::File
    }
}

/// The Windows prefix `\\?\` of extended-length paths.
pub open spec fn verbatim_prefix() -> Seq<char> {
    seq!['\\', '\\', '?', '\\']
}

/// The Windows prefix `\\?\UNC\` of extended-length network paths.
pub open spec fn unc_verbatim_prefix() -> Seq<char> {
    seq!['\\', '\\', '?', '\\', 'U', 'N', 'C', '\\']
}

/// A Windows path that is absolute on a drive, such as `C:\dir`: a letter,
/// a colon and a backslash.
pub open spec fn is_drive_absolute(s: Seq<char>) -> bool {
    &&& s.len() >= 3
    &&& (('a' <= s[0] && s[0] <= 'z') || ('A' <= s[0] && s[0] <= 'Z'))
    &&& s[1] == ':'
    &&& s[2] == '\\'
}

/// A Windows network path `\\server\share...` (neither extended-length nor
/// a device path `\\.\...`).
pub open spec fn is_unc(s: Seq<char>) -> bool {
    &&& s.len() >= 3
    &&& s[0] == '\\'
    &&& s[1] == '\\'
    &&& s[2] != '?'
    &&& s[2] != '.'
    &&& s[2] != '\\'
}

/// `s` in extended-length form: unchanged when it already is; a drive path
/// gets the prefix `\\?\`; a network path `\\server\share` becomes
/// `\\?\UNC\server\share`. Any other path (a relative one, for example) has
/// no extended-length form that names the same file and is left as it is.
pub open spec fn extended_form(s: Seq<char>) -> Seq<char> {
    if has_prefix(s, verbatim_prefix()) {
        s
    } else if is_drive_absolute(s) {
        verbatim_prefix() + s
    } else if is_unc(s) {
        unc_verbatim_prefix() + s.subrange(2, s.len() as int)
    } else {
        s
    }
}

/// The path to use for `path` on `p`, given its canonical form when it
/// could be computed: unchanged on Unix or when it already is an
/// extended-length path; otherwise the extended-length form of its
/// canonical form, or of `path` itself when there is none.
pub open spec fn extended_length_path(p: Platform, path: Seq<char>, canonical: Option<
    Seq<char>,
>) -> Seq<char> {
    if p == Platform::Unix || has_prefix(path, verbatim_prefix()) {
        path
    } else {
        extended_form(
            match canonical {
                Some(c) => c,
                None => path,
            },
        )
    }
}

/// The extended-length form of a Windows path; see `extended_form`.
fn extended_form_of(s: &str) -> (r: String)
    ensures
        r@ == extended_form(s@),
{
    proof {
        reveal_strlit("\\\\?\\");
        reveal_strlit("\\\\?\\UNC\\");
        assert("\\\\?\\"@ =~= verbatim_prefix());
        assert("\\\\?\\UNC\\"@ =~= unc_verbatim_prefix());
    }
    if starts_with(s, "\\\\?\\") {
        return String::from_str(s);
    }
    let n = s.unicode_len();
    if n >= 3 {
        let c0 = s.get_char(0);
        let c1 = s.get_char(1);
        let c2 = s.get_char(2);
        if (('a' <= c0 && c0 <= 'z') || ('A' <= c0 && c0 <= 'Z')) && c1 == ':' && c2 == '\\' {
            let mut r = String::from_str("\\\\?\\");
            r.append(s);
            return r;
        }
        if c0 == '\\' && c1 == '\\' && c2 != '?' && c2 != '.' && c2 != '\\' {
            let mut r = String::from_str("\\\\?\\UNC\\");
            r.append(s.substring_char(2, n));
            return r;
        }
    }
    String::from_str(s)
}

/// The path to use for `path`; see `extended_length_path`. `canonical` is
/// the canonical form of `path`, when it could be computed.
pub fn to_extended_length_path(p: Platform, path: &str, canonical: Option<&str>) -> (r: String)
    ensures
        r@ == extended_length_path(
            p,
            path@,
            match canonical {
                Some(c) => Some(c@),
                None => None,
            },
        ),
{
    proof {
        reveal_strlit("\\\\?\\");
        assert("\\\\?\\"@ =~= verbatim_prefix());
    }
    match p {
        Platform::Unix => String::from_str(path),
        Platform::Windows => {
            if starts_with(path, "\\\\?\\") {
                String::from_str(path)
            } else {
                match canonical {
                    None => extended_form_of(path),
                    Some(c) => extended_form_of(c),
                }
            }
        },
    }
}

/// The target of a Windows reparse point as reported by the system, with
/// the prefix `\\?\` removed when present.
pub open spec fn reparse_target(target: Seq<char>) -> Seq<char> {
    if has_prefix(target, verbatim_prefix()) {
        target.subrange(4, target.len() as int)
    } else {
        target
    }
}

/// Removes the prefix `\\?\` from a reparse point target; see
/// `reparse_target`.
pub fn reparse_target_path(target: &str) -> (r: String)
    ensures
        r@ == reparse_target(target@),
{
    proof {
        reveal_strlit("\\\\?\\");
        assert("\\\\?\\"@ =~= verbatim_prefix());
    }
    if starts_with(target, "\\\\?\\") {
        let n = target.unicode_len();
        String::from_str(target.substring_char(4, n))
    } else {
        String::from_str(target)
    }
}

/// A scan reports its progress every hundred files.
pub open spec fn reports_progress(files_scanned: u64) -> bool {
    files_scanned % 100 == 0
}

/// The progress report due after `files_scanned` files totalling
/// `bytes_scanned` bytes, the last one at `path`: one every hundred files.
pub fn progress_report(path: &str, files_scanned: u64, bytes_scanned: u64) -> (r: Option<
    ScanProgress,
>)
    ensures
        reports_progress(files_scanned) <==> r is Some,
        match r {
            Some(ScanProgress::Scanning { path: p, files_scanned: f, bytes_scanned: b }) => p@
                == path@ && f == files_scanned && b == bytes_scanned,
            Some(_) => false,
            None => true,
        },
{
    if files_scanned % 100 == 0 {
        Some(
            ScanProgress::Scanning {
                path: String::from_str(path),
                files_scanned,
                bytes_scanned,
            },
        )
    } else {
        None
    }
}

/// The nodes of a sequence of results that all succeeded.
pub open spec fn succeeded(s: Seq<Result<FileNode, ScanError>>) -> Seq<FileNode> {
    s.map_values(|x: Result<FileNode, ScanError>| x->Ok_0)
}

/// Whether the first `n` results all succeeded.
pub open spec fn all_ok(s: Seq<Result<FileNode, ScanError>>, n: int) -> bool {
    forall|j: int| 0 <= j < n ==> (#[trigger] s[j]) is Ok
}

/// Puts the scanned children of a directory below it, as a scan does once
/// all its entries are scanned: the first failure, in entry order, is the
/// result; otherwise every child is added (its size and item count added to
/// the directory's) and the children are ordered by size, largest first.
pub fn assemble_directory(node: FileNode, children: Vec<Result<FileNode, ScanError>>) -> (r:
    Result<FileNode, ScanError>)
    requires
        forall|n: int|
            0 <= n <= children@.len() && #[trigger] all_ok(children@, n) ==> node.size + sum_sizes(
                succeeded(children@.take(n)),
            ) <= u64::MAX && node.item_count + sum_item_counts(succeeded(children@.take(n)))
                <= u64::MAX,
    ensures
        r is Ok <==> all_ok(children@, children@.len() as int),
        r is Err ==> exists|f: int|
            0 <= f < children@.len() && all_ok(children@, f) && r == #[trigger] children@[f],
        r is Ok ==> {
            let d = r->Ok_0;
            &&& d.children@ == sort_desc(node.children@ + succeeded(children@))
            &&& d.size == node.size + sum_sizes(succeeded(children@))
            &&& d.item_count == node.item_count + sum_item_counts(succeeded(children@))
            &&& d.name == node.name
            &&& d.path == node.path
            &&& d.allocated == node.allocated
            &&& d.node_type == node.node_type
            &&& d.last_modified == node.last_modified
        },
{
    let ghost orig = children@;
    let ghost start = node;
    let mut pending = children;
    let total: usize = pending.len();
    let mut node = node;
    // Reverse the results so that popping yields them in entry order.
    let mut rev: Vec<Result<FileNode, ScanError>> = Vec::new();
    while pending.len() > 0
        invariant
            orig == children@,
            orig.len() == total,
            pending@ == orig.take(pending@.len() as int),
            pending@.len() <= orig.len(),
            rev@.len() == orig.len() - pending@.len(),
            forall|j: int| 0 <= j < rev@.len() ==> #[trigger] rev@[j] == orig[orig.len() - 1 - j],
        decreases pending@.len(),
    {
        let x = pending.pop().unwrap();
        rev.push(x);
        proof {
            assert(pending@ =~= orig.take(pending@.len() as int));
        }
    }
    let mut i: usize = 0;
    proof {
        assert(succeeded(orig.take(0)) =~= Seq::<FileNode>::empty());
        assert(node.children@ + Seq::<FileNode>::empty() =~= node.children@);
    }
    while rev.len() > 0
        invariant
            orig == children@,
            orig.len() <= usize::MAX,
            i + rev@.len() == orig.len(),
            forall|j: int| 0 <= j < rev@.len() ==> #[trigger] rev@[j] == orig[orig.len() - 1 - j],
            all_ok(orig, i as int),
            forall|n: int|
                0 <= n <= orig.len() && #[trigger] all_ok(orig, n) ==> start.size + sum_sizes(
                    succeeded(orig.take(n)),
                ) <= u64::MAX && start.item_count + sum_item_counts(succeeded(orig.take(n)))
                    <= u64::MAX,
            node.children@ == start.children@ + succeeded(orig.take(i as int)),
            node.size == start.size + sum_sizes(succeeded(orig.take(i as int))),
            node.item_count == start.item_count + sum_item_counts(succeeded(orig.take(i as int))),
            node.name == start.name,
            node.path == start.path,
            node.allocated == start.allocated,
            node.node_type == start.node_type,
            node.last_modified == start.last_modified,
        decreases rev@.len(),
    {
        let x = rev.pop().unwrap();
        proof {
            assert(x == orig[i as int]);
        }
        match x {
            Err(e) => {
                let r: Result<FileNode, ScanError> = Err(e);
                proof {
                    assert(r == orig[i as int]);
                    assert(!all_ok(orig, orig.len() as int));
                    assert(0 <= i < orig.len() && all_ok(orig, i as int) && r == orig[i as int]);
                }
                return r;
            },
            Ok(child) => {
                proof {
                    assert(all_ok(orig, i + 1));
                    assert(succeeded(orig.take(i + 1)) =~= succeeded(orig.take(i as int)).push(child));
                    lemma_totals_push(succeeded(orig.take(i as int)), child);
                    assert(start.children@ + succeeded(orig.take(i + 1)) =~= (start.children@
                        + succeeded(orig.take(i as int))).push(child));
                }
                node.add_child(child);
                i = i + 1;
            },
        }
    }
    proof {
        assert(orig.take(i as int) =~= orig);
    }
    node.sort_children();
    Ok(node)
}

/// A new directory assembled from consistent children, as
/// `assemble_directory` does, is consistent: its recorded size and item count
/// are the totals counted from its leaves.
pub proof fn lemma_assembled_consistent(node: FileNode, kids: Seq<FileNode>, d: FileNode)
    requires
        node.node_type == FileNodeType::Directory,
        node.children@.len() == 0,
        node.size == 0,
        node.item_count == 1,
        forall|i: int| 0 <= i < kids.len() ==> is_consistent(#[trigger] kids[i]),
        d.node_type == node.node_type,
        d.children@ == sort_desc(node.children@ + kids),
        d.size == node.size + sum_sizes(kids),
        d.item_count == node.item_count + sum_item_counts(kids),
    ensures
        is_consistent(d),
{
    assert(node.children@ + kids =~= kids);
    lemma_sums_match_totals(kids);
    lemma_sort_keeps_totals(kids);
    assert(node_total_size(d) == nodes_total_size(d.children@));
    assert(node_total_items(d) == nodes_total_items(d.children@) + 1);
}

} // verus!
