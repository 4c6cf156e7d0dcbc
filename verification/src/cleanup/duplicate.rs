//! Duplicate files: non-empty files whose contents hash to the same BLAKE3
//! digest. Only files that share their size with another file are hashed.
//! The first file of each group (in listing order) is kept as the original;
//! every later one is a candidate.
use vstd::prelude::*;
use vstd::string::*;
use std::collections::HashMap;

use crate::cleanup::detector::{CandidateView, CleanupCandidate, CleanupCategory, candidates_view};
use crate::sort::{
    is_sorted_desc, sort_desc, sort_by_size_desc, lemma_sort_desc_map, lemma_sort_desc_permutation,
    lemma_sort_desc_sorted,
};
use crate::text::{decimal, decimal_string};

verus! {

broadcast use vstd::std_specs::hash::group_hash_axioms;

/// The BLAKE3 digest of `data`, as computed by the `blake3` crate.
pub uninterp spec fn blake3_digest(data: Seq<u8>) -> Seq<u8>;

/// Hashes `data` with `blake3::hash`; the contract claims only that the
/// result is the crate's BLAKE3 digest of `data`, a value that depends on
/// `data` alone.
#[verifier::external_body]
fn blake3_hash(data: &[u8]) -> (r: [u8; 32])
    ensures
        r@ == blake3_digest(data@),
{
    *blake3::hash(data).as_bytes()
}

/// The BLAKE3 digest of the contents of one file.
pub fn hash_file(contents: &[u8]) -> (r: [u8; 32])
    ensures
        r@ == blake3_digest(contents@),
{
    blake3_hash(contents)
}

/// A file found under the scanned root, with its contents when they were
/// read (they are only needed for files that `hash_candidates` selects).
#[derive(Debug, Clone)]
pub struct FileContents {
    pub path: String,
    pub size: u64,
    pub contents: Option<Vec<u8>>,
}

/// A file with the digest of its contents, when it was hashed.
#[derive(Debug, Clone)]
pub struct HashedFile {
    pub path: String,
    pub size: u64,
    pub digest: Option<[u8; 32]>,
}

/// The contents of a `HashedFile` as values.
pub struct HashedView {
    pub path: Seq<char>,
    pub size: u64,
    pub digest: Option<Seq<u8>>,
}

impl View for HashedFile {
    type V = HashedView;

    open spec fn view(&self) -> HashedView {
        HashedView {
            path: self.path@,
            size: self.size,
            digest: match self.digest {
                Some(d) => Some(d@),
                None => None,
            },
        }
    }
}

/// The values of a sequence of hashed files.
pub open spec fn hashed_view(s: Seq<HashedFile>) -> Seq<HashedView> {
    s.map_values(|h: HashedFile| h@)
}

/// Two files that fall in one duplicate group: both non-empty, both hashed,
/// with the same digest.
pub open spec fn same_key(a: HashedView, b: HashedView) -> bool {
    &&& a.size != 0
    &&& b.size != 0
    &&& a.digest is Some
    &&& a.digest == b.digest
}

/// The number by which the groups of a digest are looked up: its first
/// eight bytes.
pub open spec fn digest_key(d: Seq<u8>) -> u64 {
    ((d[0] as u64) << 56u64) | ((d[1] as u64) << 48u64) | ((d[2] as u64) << 40u64) | ((
    d[3] as u64) << 32u64) | ((d[4] as u64) << 24u64) | ((d[5] as u64) << 16u64) | ((d[6] as u64)
        << 8u64) | (d[7] as u64)
}

/// The first index from `j` on, up to `i`, of a file in the group of file `i`.
pub open spec fn first_same_from(f: Seq<HashedView>, i: int, j: int) -> int
    decreases i - j,
{
    if j >= i {
        i
    } else if same_key(f[j], f[i]) {
        j
    } else {
        first_same_from(f, i, j + 1)
    }
}

/// The index of the first file in the group of file `i`: the original that
/// file `i` duplicates (or `i` itself).
pub open spec fn original_of(f: Seq<HashedView>, i: int) -> int {
    first_same_from(f, i, 0)
}

/// File `i` is a duplicate: it is non-empty, hashed, and an earlier
/// non-empty file has the same digest.
pub open spec fn is_duplicate(f: Seq<HashedView>, i: int) -> bool {
    &&& f[i].size != 0
    &&& f[i].digest is Some
    &&& original_of(f, i) < i
}

/// The candidate for duplicate file `i`, naming its original.
pub open spec fn duplicate_candidate(f: Seq<HashedView>, i: int) -> CandidateView {
    let o = f[original_of(f, i)];
    CandidateView {
        path: f[i].path,
        size: f[i].size,
        category: CleanupCategory::Duplicates,
        description: "Duplicate of "@ + o.path + " ("@ + decimal(o.size as nat) + " bytes)"@,
    }
}

/// The candidates among the first `n` files, in file order.
pub open spec fn duplicates_upto(f: Seq<HashedView>, n: int) -> Seq<CandidateView>
    decreases n,
{
    if n <= 0 {
        Seq::empty()
    } else {
        duplicates_upto(f, n - 1) + if is_duplicate(f, n - 1) {
            seq![duplicate_candidate(f, n - 1)]
        } else {
            Seq::empty()
        }
    }
}

/// All duplicate candidates, largest first, equal sizes in file order.
pub open spec fn duplicates_of(f: Seq<HashedView>) -> Seq<CandidateView> {
    sort_desc(duplicates_upto(f, f.len() as int))
}

/// File `j` starts a duplicate group: non-empty, hashed, no earlier file of
/// its group.
pub open spec fn is_original(f: Seq<HashedView>, j: int) -> bool {
    &&& f[j].size != 0
    &&& f[j].digest is Some
    &&& original_of(f, j) == j
}

/// Whether file `j` is hashed and its digest has lookup number `k`.
pub open spec fn has_key(f: Seq<HashedView>, j: int, k: u64) -> bool {
    f[j].digest is Some && digest_key(f[j].digest->0) == k
}

/// The group-starting files whose digests have lookup number `k` among the
/// first `n`, in file order.
pub open spec fn originals_of_key(f: Seq<HashedView>, n: int, k: u64) -> Seq<usize>
    decreases n,
{
    if n <= 0 {
        Seq::empty()
    } else {
        originals_of_key(f, n - 1, k) + if has_key(f, n - 1, k) && is_original(f, n - 1) {
            seq![(n - 1) as usize]
        } else {
            Seq::empty()
        }
    }
}

/// The number of times `k` occurs in `s`.
pub open spec fn count_of(s: Seq<u64>, k: u64) -> nat
    decreases s.len(),
{
    if s.len() == 0 {
        0
    } else {
        count_of(s.drop_last(), k) + if s.last() == k {
            1nat
        } else {
            0nat
        }
    }
}

/// A file of size `sizes[i]` is worth hashing: its size is not zero and at
/// least one other file has the same size.
pub open spec fn needs_hash(sizes: Seq<u64>, i: int) -> bool {
    sizes[i] != 0 && count_of(sizes, sizes[i]) >= 2
}

/// The sizes of a sequence of files.
pub open spec fn sizes_of(files: Seq<FileContents>) -> Seq<u64> {
    files.map_values(|x: FileContents| x.size)
}

/// The files with their digests: a file is hashed when it is worth hashing
/// and its contents were read.
pub open spec fn hashed_files(files: Seq<FileContents>) -> Seq<HashedView> {
    Seq::new(
        files.len(),
        |i: int|
            HashedView {
                path: files[i].path@,
                size: files[i].size,
                digest: match files[i].contents {
                    Some(c) => if needs_hash(sizes_of(files), i) {
                        Some(blake3_digest(c@))
                    } else {
                        None
                    },
                    None => None,
                },
            },
    )
}

proof fn lemma_first_same_from(f: Seq<HashedView>, i: int, j: int)
    requires
        0 <= j <= i < f.len(),
    ensures
        j <= first_same_from(f, i, j) <= i,
        first_same_from(f, i, j) < i ==> same_key(f[first_same_from(f, i, j)], f[i]),
        forall|t: int| j <= t < first_same_from(f, i, j) ==> !same_key(#[trigger] f[t], f[i]),
    decreases i - j,
{
    if j < i && !same_key(f[j], f[i]) {
        lemma_first_same_from(f, i, j + 1);
    }
}

/// The original of file `i` is the earliest file of its group.
proof fn lemma_original(f: Seq<HashedView>, i: int)
    requires
        0 <= i < f.len(),
    ensures
        0 <= original_of(f, i) <= i,
        original_of(f, i) < i ==> same_key(f[original_of(f, i)], f[i]),
        forall|t: int| 0 <= t < original_of(f, i) ==> !same_key(#[trigger] f[t], f[i]),
{
    lemma_first_same_from(f, i, 0);
}

/// No file of the group of `i` comes before its original.
proof fn lemma_original_min(f: Seq<HashedView>, i: int, y: int)
    requires
        0 <= y <= i < f.len(),
        same_key(f[y], f[i]),
    ensures
        original_of(f, i) <= y,
{
    lemma_original(f, i);
}

/// Every originals list holds exactly the group-starting files of its size.
proof fn lemma_originals_of_key(f: Seq<HashedView>, n: int, k: u64)
    requires
        0 <= n <= f.len(),
        f.len() <= usize::MAX,
    ensures
        forall|t: int|
            0 <= t < originals_of_key(f, n, k).len() ==> {
                let j = #[trigger] originals_of_key(f, n, k)[t] as int;
                &&& 0 <= j < n
                &&& has_key(f, j, k)
                &&& is_original(f, j)
            },
        forall|j: int|
            0 <= j < n && has_key(f, j, k) && is_original(f, j) ==> originals_of_key(
                f,
                n,
                k,
            ).contains(j as usize),
    decreases n,
{
    if n > 0 {
        lemma_originals_of_key(f, n - 1, k);
        let prev = originals_of_key(f, n - 1, k);
        let cur = originals_of_key(f, n, k);
        assert forall|j: int|
            0 <= j < n && has_key(f, j, k) && is_original(f, j) implies cur.contains(j as usize) by {
            if j < n - 1 {
                let t = choose|t: int| 0 <= t < prev.len() && prev[t] == j as usize;
                assert(cur[t] == prev[t]);
            } else {
                assert(cur[prev.len() as int] == j as usize);
            }
        }
        assert forall|t: int| 0 <= t < cur.len() implies {
            let j = #[trigger] cur[t] as int;
            &&& 0 <= j < n
            &&& has_key(f, j, k)
            &&& is_original(f, j)
        } by {
            if t < prev.len() {
                assert(cur[t] == prev[t]);
            }
        }
    }
}

/// Of each group of files with the same size and digest, the first file is
/// kept: a duplicate names an earlier file of its group as its original,
/// and that original is never reported itself.
pub proof fn lemma_original_kept(f: Seq<HashedView>, i: int)
    requires
        0 <= i < f.len(),
        is_duplicate(f, i),
    ensures
        0 <= original_of(f, i) < i,
        same_key(f[original_of(f, i)], f[i]),
        !is_duplicate(f, original_of(f, i)),
{
    lemma_original(f, i);
    let o = original_of(f, i);
    lemma_original(f, o);
    if original_of(f, o) < o {
        lemma_original_min(f, i, original_of(f, o));
    }
}

/// The report lists the largest duplicates first.
pub proof fn lemma_report_sorted(f: Seq<HashedView>)
    ensures
        is_sorted_desc(duplicates_of(f)),
{
    lemma_sort_desc_sorted(duplicates_upto(f, f.len() as int));
}

/// Whether two digests are equal.
fn digests_equal(a: &[u8; 32], b: &[u8; 32]) -> (r: bool)
    ensures
        r == (a@ == b@),
{
    let mut i: usize = 0;
    while i < 32
        invariant
            i <= 32,
            a@.len() == 32,
            b@.len() == 32,
            forall|j: int| 0 <= j < i ==> a@[j] == b@[j],
        decreases 32 - i,
    {
        if a[i] != b[i] {
            return false;
        }
        i = i + 1;
    }
    proof {
        assert(a@ =~= b@);
    }
    true
}

/// Finds, among the files listed in `list`, the one whose digest is `d`.
fn find_in_group(files: &Vec<HashedFile>, list: &Vec<usize>, d: &[u8; 32]) -> (r: Option<usize>)
    requires
        forall|t: int| 0 <= t < list@.len() ==> #[trigger] list@[t] < files@.len(),
    ensures
        match r {
            Some(j) => list@.contains(j) && files@[j as int]@.digest == Some(d@),
            None => forall|t: int|
                0 <= t < list@.len() ==> (#[trigger] files@[list@[t] as int])@.digest != Some(d@),
        },
{
    let mut t: usize = 0;
    while t < list.len()
        invariant
            t <= list@.len(),
            forall|u: int| 0 <= u < list@.len() ==> #[trigger] list@[u] < files@.len(),
            forall|u: int|
                0 <= u < t ==> (#[trigger] files@[list@[u] as int])@.digest != Some(d@),
        decreases list@.len() - t,
    {
        let j = list[t];
        match &files[j].digest {
            Some(e) => {
                if digests_equal(e, d) {
                    proof {
                        assert(list@[t as int] == j);
                    }
                    return Some(j);
                }
            },
            None => {},
        }
        t = t + 1;
    }
    None
}

/// The lookup number of a digest; see `digest_key`.
fn key_of(d: &[u8; 32]) -> (r: u64)
    ensures
        r == digest_key(d@),
{
    ((d[0] as u64) << 56) | ((d[1] as u64) << 48) | ((d[2] as u64) << 40) | ((d[3] as u64) << 32)
        | ((d[4] as u64) << 24) | ((d[5] as u64) << 16) | ((d[6] as u64) << 8) | (d[7] as u64)
}

/// The candidate for a duplicate file `dup` of `original`.
fn make_duplicate_candidate(dup: &HashedFile, original: &HashedFile) -> (c: CleanupCandidate)
    ensures
        c@ == (CandidateView {
            path: dup.path@,
            size: dup.size,
            category: CleanupCategory::Duplicates,
            description: "Duplicate of "@ + original.path@ + " ("@ + decimal(original.size as nat)
                + " bytes)"@,
        }),
{
    let mut description = String::from_str("Duplicate of ");
    description.append(original.path.as_str());
    description.append(" (");
    let n = decimal_string(original.size);
    description.append(n.as_str());
    description.append(" bytes)");
    CleanupCandidate {
        path: dup.path.clone(),
        size: dup.size,
        category: CleanupCategory::Duplicates,
        description,
    }
}

/// The duplicate candidates among hashed files: every non-empty file whose
/// digest equals that of an earlier non-empty file, described as a duplicate
/// of the first such file, largest first and in file order among equal sizes.
pub fn group_duplicates(files: &Vec<HashedFile>) -> (r: Vec<CleanupCandidate>)
    ensures
        candidates_view(r@) == duplicates_of(hashed_view(files@)),
{
    let ghost f = hashed_view(files@);
    let mut groups: HashMap<u64, Vec<usize>> = HashMap::new();
    let mut out: Vec<CleanupCandidate> = Vec::new();
    let mut i: usize = 0;
    proof {
        assert(candidates_view(out@) =~= duplicates_upto(f, 0));
    }
    while i < files.len()
        invariant
            i <= files@.len(),
            f == hashed_view(files@),
            candidates_view(out@) == duplicates_upto(f, i as int),
            forall|k: u64| #[trigger]
                groups@.contains_key(k) ==> groups@[k]@ == originals_of_key(f, i as int, k),
            forall|k: u64|
                !(#[trigger] groups@.contains_key(k)) ==> originals_of_key(f, i as int, k).len()
                    == 0,
        decreases files@.len() - i,
    {
        let ghost before = out@;
        let ghost old_groups = groups@;
        let file = &files[i];
        proof {
            lemma_original(f, i as int);
            assert(f[i as int] == file@);
        }
        if file.size != 0 && file.digest.is_some() {
            let d = file.digest.as_ref().unwrap();
            let key = key_of(d);
            proof {
                lemma_originals_of_key(f, i as int, key);
            }
            match groups.remove(&key) {
                None => {
                    // no earlier group of this size: file `i` starts one
                    proof {
                        if original_of(f, i as int) < i {
                            let o = original_of(f, i as int);
                            lemma_original(f, o);
                            if original_of(f, o) < o {
                                lemma_original_min(f, i as int, original_of(f, o));
                            }
                            assert(is_original(f, o));
                            assert(has_key(f, o, key));
                            assert(originals_of_key(f, i as int, key).contains(o as usize));
                        }
                    }
                    let mut list: Vec<usize> = Vec::new();
                    list.push(i);
                    groups.insert(key, list);
                },
                Some(mut list) => {
                    proof {
                        assert(list@ == originals_of_key(f, i as int, key));
                    }
                    match find_in_group(files, &list, d) {
                        Some(j) => {
                            proof {
                                let t = choose|t: int| 0 <= t < list@.len() && list@[t] == j;
                                assert(originals_of_key(f, i as int, key)[t] == j);
                                assert(same_key(f[j as int], f[i as int]));
                                lemma_original_min(f, i as int, j as int);
                                if original_of(f, i as int) < j {
                                    lemma_original_min(f, j as int, original_of(f, i as int));
                                }
                            }
                            let c = make_duplicate_candidate(file, &files[j]);
                            out.push(c);
                            proof {
                                assert(candidates_view(out@) =~= candidates_view(before).push(c@));
                            }
                        },
                        None => {
                            proof {
                                if original_of(f, i as int) < i {
                                    let o = original_of(f, i as int);
                                    lemma_original(f, o);
                                    if original_of(f, o) < o {
                                        lemma_original_min(f, i as int, original_of(f, o));
                                    }
                                    assert(is_original(f, o));
                                    let t = choose|t: int|
                                        0 <= t < list@.len() && list@[t] == o as usize;
                                    assert(files@[list@[t] as int]@.digest == Some(d@));
                                }
                            }
                            list.push(i);
                        },
                    }
                    groups.insert(key, list);
                },
            }
        }
        i = i + 1;
        proof {
            assert forall|k: u64| #[trigger]
                groups@.contains_key(k) implies groups@[k]@ == originals_of_key(
                f,
                i as int,
                k,
            ) by {
                assert(originals_of_key(f, i as int, k) =~= originals_of_key(f, i - 1, k) + if has_key(f, i - 1, k) && is_original(f, i - 1) {
                    seq![(i - 1) as usize]
                } else {
                    Seq::empty()
                });
            }
            assert forall|k: u64| !(#[trigger] groups@.contains_key(k)) implies originals_of_key(
                f,
                i as int,
                k,
            ).len() == 0 by {
                assert(originals_of_key(f, i as int, k) =~= originals_of_key(f, i - 1, k) + if has_key(f, i - 1, k) && is_original(f, i - 1) {
                    seq![(i - 1) as usize]
                } else {
                    Seq::empty()
                });
            }
        }
    }
    let ghost unsorted = out@;
    sort_by_size_desc(&mut out);
    proof {
        lemma_sort_desc_map(unsorted, |c: CleanupCandidate| c@);
    }
    out
}

/// For each size, whether a file of that size is worth hashing: its size is
/// not zero and another file has the same size.
pub fn hash_candidates(sizes: &Vec<u64>) -> (r: Vec<bool>)
    ensures
        r@.len() == sizes@.len(),
        forall|i: int| 0 <= i < sizes@.len() ==> #[trigger] r@[i] == needs_hash(sizes@, i),
{
    let mut counts: HashMap<u64, usize> = HashMap::new();
    let mut i: usize = 0;
    while i < sizes.len()
        invariant
            i <= sizes@.len(),
            forall|k: u64| #[trigger]
                counts@.contains_key(k) ==> counts@[k] == count_of(sizes@.take(i as int), k),
            forall|k: u64|
                !(#[trigger] counts@.contains_key(k)) ==> count_of(sizes@.take(i as int), k) == 0,
            forall|k: u64| #[trigger] count_of(sizes@.take(i as int), k) <= i,
        decreases sizes@.len() - i,
    {
        let s = sizes[i];
        proof {
            assert(sizes@.take(i + 1).drop_last() =~= sizes@.take(i as int));
            assert(sizes@.take(i + 1).last() == s);
        }
        let c: usize = match counts.get(&s) {
            Some(c) => *c,
            None => 0,
        };
        counts.insert(s, c + 1);
        proof {
            assert forall|k: u64| #[trigger] count_of(sizes@.take(i + 1), k) <= i + 1 by {
                assert(count_of(sizes@.take(i as int), k) <= i);
            }
        }
        i = i + 1;
    }
    proof {
        assert(sizes@.take(i as int) =~= sizes@);
    }
    let mut r: Vec<bool> = Vec::new();
    let mut j: usize = 0;
    while j < sizes.len()
        invariant
            j <= sizes@.len(),
            r@.len() == j,
            forall|k: u64| #[trigger]
                counts@.contains_key(k) ==> counts@[k] == count_of(sizes@, k),
            forall|k: u64| !(#[trigger] counts@.contains_key(k)) ==> count_of(sizes@, k) == 0,
            forall|t: int| 0 <= t < j ==> #[trigger] r@[t] == needs_hash(sizes@, t),
        decreases sizes@.len() - j,
    {
        let s = sizes[j];
        let worth = match counts.get(&s) {
            Some(c) => s != 0 && *c >= 2,
            None => false,
        };
        r.push(worth);
        j = j + 1;
    }
    r
}

/// Duplicate files: the files worth hashing (see `hash_candidates`) whose
/// contents were read are hashed with BLAKE3, then grouped as by
/// `group_duplicates`.
pub fn detect_duplicates(files: &Vec<FileContents>) -> (r: Vec<CleanupCandidate>)
    ensures
        candidates_view(r@) == duplicates_of(hashed_files(files@)),
{
    let mut sizes: Vec<u64> = Vec::new();
    let mut i: usize = 0;
    while i < files.len()
        invariant
            i <= files@.len(),
            sizes@ == sizes_of(files@).take(i as int),
        decreases files@.len() - i,
    {
        sizes.push(files[i].size);
        i = i + 1;
        proof {
            assert(sizes@ =~= sizes_of(files@).take(i as int));
        }
    }
    proof {
        assert(sizes@ =~= sizes_of(files@));
    }
    let worth = hash_candidates(&sizes);
    let mut hashed: Vec<HashedFile> = Vec::new();
    let mut j: usize = 0;
    while j < files.len()
        invariant
            j <= files@.len(),
            sizes@ == sizes_of(files@),
            worth@.len() == files@.len(),
            forall|t: int| 0 <= t < files@.len() ==> #[trigger] worth@[t] == needs_hash(sizes@, t),
            hashed_view(hashed@) == hashed_files(files@).take(j as int),
        decreases files@.len() - j,
    {
        let file = &files[j];
        let digest: Option<[u8; 32]> = match &file.contents {
            Some(c) => if worth[j] {
                Some(hash_file(c.as_slice()))
            } else {
                None
            },
            None => None,
        };
        let h = HashedFile { path: file.path.clone(), size: file.size, digest };
        proof {
            assert(h@ == hashed_files(files@)[j as int]);
        }
        let ghost before = hashed@;
        hashed.push(h);
        j = j + 1;
        proof {
            assert(hashed_view(hashed@) =~= hashed_view(before).push(h@));
            assert(hashed_view(hashed@) =~= hashed_files(files@).take(j as int));
        }
    }
    proof {
        assert(hashed_view(hashed@) =~= hashed_files(files@));
    }
    group_duplicates(&hashed)
}

/// A size occurs in a sequence exactly when it is counted at least once.
proof fn lemma_count_one(s: Seq<u64>, k: u64)
    ensures
        count_of(s, k) >= 1 <==> exists|t: int| 0 <= t < s.len() && s[t] == k,
    decreases s.len(),
{
    if s.len() > 0 {
        let r = s.drop_last();
        lemma_count_one(r, k);
        if exists|t: int| 0 <= t < r.len() && r[t] == k {
            let t = choose|t: int| 0 <= t < r.len() && r[t] == k;
            assert(s[t] == k);
        }
        if exists|t: int| 0 <= t < s.len() && s[t] == k {
            let t = choose|t: int| 0 <= t < s.len() && s[t] == k;
            if t < s.len() - 1 {
                assert(r[t] == k);
            }
        }
    }
}

/// A size is counted at least twice exactly when it occurs at two places.
proof fn lemma_count_two(s: Seq<u64>, k: u64)
    ensures
        count_of(s, k) >= 2 <==> exists|t: int, u: int| 0 <= t < u < s.len() && s[t] == k && s[u] == k,
    decreases s.len(),
{
    if s.len() > 0 {
        let r = s.drop_last();
        lemma_count_two(r, k);
        lemma_count_one(r, k);
        if exists|t: int, u: int| 0 <= t < u < r.len() && r[t] == k && r[u] == k {
            let (t, u) = choose|t: int, u: int| 0 <= t < u < r.len() && r[t] == k && r[u] == k;
            assert(s[t] == k && s[u] == k);
        }
        if s.last() == k {
            if exists|t: int| 0 <= t < r.len() && r[t] == k {
                let t = choose|t: int| 0 <= t < r.len() && r[t] == k;
                assert(s[t] == k && s[s.len() - 1] == k);
            }
        }
        if exists|t: int, u: int| 0 <= t < u < s.len() && s[t] == k && s[u] == k {
            let (t, u) = choose|t: int, u: int| 0 <= t < u < s.len() && s[t] == k && s[u] == k;
            if u < s.len() - 1 {
                assert(r[t] == k && r[u] == k);
            } else {
                assert(r[t] == k);
            }
        }
    }
}

/// Which files are hashed, and by what: a file is hashed exactly when its
/// contents were read, it is not empty and another file has its size; and
/// a hashed file's digest is the BLAKE3 digest of its whole contents.
pub proof fn lemma_hash_of_whole_contents(files: Seq<FileContents>, i: int)
    requires
        0 <= i < files.len(),
    ensures
        hashed_files(files)[i].path == files[i].path@,
        hashed_files(files)[i].size == files[i].size,
        hashed_files(files)[i].digest is Some <==> files[i].contents is Some && files[i].size != 0
            && exists|j: int| 0 <= j < files.len() && j != i && files[j].size == files[i].size,
        hashed_files(files)[i].digest is Some ==> hashed_files(files)[i].digest == Some(
            blake3_digest(files[i].contents->0@),
        ),
{
    let sizes = sizes_of(files);
    let k = files[i].size;
    lemma_count_two(sizes, k);
    if exists|j: int| 0 <= j < files.len() && j != i && files[j].size == k {
        let j = choose|j: int| 0 <= j < files.len() && j != i && files[j].size == k;
        assert(sizes[j] == k && sizes[i] == k);
        if j < i {
            assert(0 <= j < i < sizes.len() && sizes[j] == k && sizes[i] == k);
        } else {
            assert(0 <= i < j < sizes.len() && sizes[i] == k && sizes[j] == k);
        }
    }
    if count_of(sizes, k) >= 2 {
        let (t, u) = choose|t: int, u: int| 0 <= t < u < sizes.len() && sizes[t] == k && sizes[u] == k;
        if t != i {
            assert(files[t].size == k);
        } else {
            assert(files[u].size == k);
        }
    }
}

/// The candidates of a listing of duplicate files are its duplicates.
proof fn lemma_upto_members(f: Seq<HashedView>, n: int, c: CandidateView)
    requires
        0 <= n <= f.len(),
        duplicates_upto(f, n).contains(c),
    ensures
        exists|i: int| 0 <= i < n && is_duplicate(f, i) && c == duplicate_candidate(f, i),
    decreases n,
{
    if n > 0 {
        let prev = duplicates_upto(f, n - 1);
        let t = choose|t: int| 0 <= t < duplicates_upto(f, n).len() && duplicates_upto(f, n)[t] == c;
        if t < prev.len() {
            assert(prev[t] == c);
            lemma_upto_members(f, n - 1, c);
        } else {
            assert(is_duplicate(f, n - 1) && c == duplicate_candidate(f, n - 1));
        }
    }
}

/// Only files with the same contents are reported as duplicates: every
/// candidate is a later, non-empty file whose whole contents have the same
/// BLAKE3 digest as those of an earlier non-empty file, its original, which
/// is named in the description with its size; and no file before the
/// original has that digest.
pub proof fn lemma_reported_duplicates(files: Seq<FileContents>, c: CandidateView)
    requires
        duplicates_of(hashed_files(files)).contains(c),
    ensures
        exists|i: int, o: int|
            #![trigger files[i], files[o]]
            0 <= o < i < files.len() && c.path == files[i].path@ && c.size == files[i].size
                && c.category == CleanupCategory::Duplicates && files[i].size != 0
                && files[o].size != 0 && files[i].contents is Some && files[o].contents is Some
                && blake3_digest(files[o].contents->0@) == blake3_digest(files[i].contents->0@)
                && c.description == "Duplicate of "@ + files[o].path@ + " ("@ + decimal(
                files[o].size as nat,
            ) + " bytes)"@,
{
    broadcast use vstd::seq_lib::group_to_multiset_ensures;

    let f = hashed_files(files);
    let d = duplicates_upto(f, f.len() as int);
    lemma_sort_desc_permutation(d);
    assert(sort_desc(d).to_multiset().count(c) > 0);
    assert(d.contains(c));
    lemma_upto_members(f, f.len() as int, c);
    let i = choose|i: int| 0 <= i < f.len() && is_duplicate(f, i) && c == duplicate_candidate(f, i);
    lemma_original(f, i);
    let o = original_of(f, i);
    lemma_hash_of_whole_contents(files, i);
    lemma_hash_of_whole_contents(files, o);
    assert(files[i].size != 0 && files[o].size != 0);
}

/// Every duplicate of a listing is among its candidates.
proof fn lemma_upto_has(f: Seq<HashedView>, n: int, i: int)
    requires
        0 <= i < n <= f.len(),
        is_duplicate(f, i),
    ensures
        duplicates_upto(f, n).contains(duplicate_candidate(f, i)),
    decreases n,
{
    let prev = duplicates_upto(f, n - 1);
    if i < n - 1 {
        lemma_upto_has(f, n - 1, i);
        let t = choose|t: int| 0 <= t < prev.len() && prev[t] == duplicate_candidate(f, i);
        assert(duplicates_upto(f, n)[t] == duplicate_candidate(f, i));
    } else {
        assert(duplicates_upto(f, n)[prev.len() as int] == duplicate_candidate(f, i));
    }
}

/// Every later copy is reported: when two non-empty files of the same size
/// were read and their whole contents have the same BLAKE3 digest, the later
/// one is among the candidates, with its path and size.
pub proof fn lemma_copies_reported(files: Seq<FileContents>, o: int, i: int)
    requires
        0 <= o < i < files.len(),
        files[o].size == files[i].size,
        files[i].size != 0,
        files[o].contents is Some,
        files[i].contents is Some,
        blake3_digest(files[o].contents->0@) == blake3_digest(files[i].contents->0@),
    ensures
        exists|c: CandidateView|
            #[trigger] duplicates_of(hashed_files(files)).contains(c) && c.path == files[i].path@
                && c.size == files[i].size && c.category == CleanupCategory::Duplicates,
{
    broadcast use vstd::seq_lib::group_to_multiset_ensures;

    let f = hashed_files(files);
    lemma_hash_of_whole_contents(files, i);
    lemma_hash_of_whole_contents(files, o);
    assert(files[o].size == files[i].size && o != i);
    assert(same_key(f[o], f[i]));
    lemma_original_min(f, i, o);
    assert(is_duplicate(f, i));
    let d = duplicates_upto(f, f.len() as int);
    lemma_upto_has(f, f.len() as int, i);
    lemma_sort_desc_permutation(d);
    let c = duplicate_candidate(f, i);
    assert(d.to_multiset().count(c) > 0);
    assert(duplicates_of(f).contains(c));
}

} // verus!
