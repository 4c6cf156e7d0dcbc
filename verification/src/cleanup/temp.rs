//! Temporary files and browser caches: every regular file directly inside a
//! known temporary or cache directory is a candidate.
use vstd::prelude::*;
use vstd::string::*;

use crate::cleanup::detector::{
    CandidateView, CleanupCandidate, CleanupCategory, DirEntryInfo, DirListing, EntryView,
    candidates_view, entries_view, listing_dirs, listings_view, opt_str_view, strings_view,
};
use crate::text::{Platform, joined, join_path};

verus! {

/// The candidate for one listing entry: regular files only, described by
/// their file name.
pub open spec fn cache_file_candidate(e: EntryView, category: CleanupCategory) -> Option<
    CandidateView,
> {
    match e.file_size {
        Some(n) => Some(
            CandidateView {
                path: e.path,
                size: n,
                category,
                description: "Temporary/cache file: "@ + e.file_name,
            },
        ),
        None => None,
    }
}

/// The candidates found in one directory listing, in listing order.
pub open spec fn collected(entries: Seq<EntryView>, category: CleanupCategory) -> Seq<
    CandidateView,
> {
    entries.filter_map(|e: EntryView| cache_file_candidate(e, category))
}

/// The candidates found in several listings, one listing after the other.
pub open spec fn collected_all(listings: Seq<Seq<EntryView>>, category: CleanupCategory) -> Seq<
    CandidateView,
>
    decreases listings.len(),
{
    if listings.len() == 0 {
        Seq::empty()
    } else {
        collected_all(listings.drop_last(), category) + collected(listings.last(), category)
    }
}

/// The directories searched for temporary files, in search order: `Temp`
/// and `tmp` under the root on Windows; elsewhere `tmp` and `var/tmp` under
/// the root, the system directories `/tmp`, `/var/tmp`, `/dev/shm`, and the
/// user's `.cache` when a home directory is known.
pub open spec fn temp_dirs(p: Platform, root: Seq<char>, home: Option<Seq<char>>) -> Seq<Seq<char>> {
    if p == Platform::Windows {
        seq![joined(p, root, "Temp"@), joined(p, root, "tmp"@)]
    } else {
        seq![
            joined(p, root, "tmp"@),
            joined(p, root, "var/tmp"@),
            "/tmp"@,
            "/var/tmp"@,
            "/dev/shm"@,
        ] + match home {
            Some(h) => seq![joined(p, h, ".cache"@)],
            None => Seq::empty(),
        }
    }
}

/// The directories searched for browser caches under the root, in search
/// order.
pub open spec fn browser_cache_dirs_of(p: Platform, root: Seq<char>) -> Seq<Seq<char>> {
    if p == Platform::Windows {
        seq![joined(p, root, "Cache"@), joined(p, root, "cache"@), joined(p, root, "Code Cache"@)]
    } else {
        seq![joined(p, root, "cache"@), joined(p, root, ".cache"@)]
    }
}

/// Appends to `candidates` one candidate of `category` for every regular
/// file of the listing, in listing order.
pub fn collect_files(
    entries: &Vec<DirEntryInfo>,
    category: CleanupCategory,
    candidates: &mut Vec<CleanupCandidate>,
)
    ensures
        candidates_view(final(candidates)@) == candidates_view(old(candidates)@) + collected(
            entries_view(entries@),
            category,
        ),
{
    let ghost f = |e: EntryView| cache_file_candidate(e, category);
    let mut i: usize = 0;
    while i < entries.len()
        invariant
            i <= entries@.len(),
            f == (|e: EntryView| cache_file_candidate(e, category)),
            candidates_view(candidates@) == candidates_view(old(candidates)@) + entries_view(
                entries@,
            ).take(i as int).filter_map(f),
        decreases entries@.len() - i,
    {
        let ghost before = candidates@;
        let e = &entries[i];
        proof {
            let ev = entries_view(entries@);
            assert(ev.take(i + 1).drop_last() =~= ev.take(i as int));
            assert(ev.take(i + 1).last() == e@);
        }
        match e.file_size {
            Some(size) => {
                proof {
                    reveal_strlit("Temporary/cache file: ");
                }
                let mut description = String::from_str("Temporary/cache file: ");
                description.append(e.file_name.as_str());
                let c = CleanupCandidate {
                    path: e.path.clone(),
                    size,
                    category,
                    description,
                };
                candidates.push(c);
                proof {
                    assert(candidates_view(candidates@) =~= candidates_view(before).push(c@));
                    assert(f(e@) == Some(c@));
                }
            },
            None => {},
        }
        i = i + 1;
    }
    proof {
        assert(entries_view(entries@).take(i as int) =~= entries_view(entries@));
    }
}

/// Collects the candidates of every listing in turn.
fn collect_all(listings: &Vec<DirListing>, category: CleanupCategory) -> (r: Vec<
    CleanupCandidate,
>)
    ensures
        candidates_view(r@) == collected_all(listings_view(listings@), category),
{
    let mut r: Vec<CleanupCandidate> = Vec::new();
    let mut i: usize = 0;
    proof {
        assert(candidates_view(r@) =~= Seq::<CandidateView>::empty());
        assert(listings_view(listings@).take(0) =~= Seq::<Seq<EntryView>>::empty());
    }
    while i < listings.len()
        invariant
            i <= listings@.len(),
            candidates_view(r@) == collected_all(listings_view(listings@).take(i as int), category),
        decreases listings@.len() - i,
    {
        collect_files(&listings[i].entries, category, &mut r);
        proof {
            let lv = listings_view(listings@);
            assert(lv.take(i + 1).drop_last() =~= lv.take(i as int));
            assert(lv.take(i + 1).last() == entries_view(listings@[i as int].entries@));
        }
        i = i + 1;
    }
    proof {
        assert(listings_view(listings@).take(i as int) =~= listings_view(listings@));
    }
    r
}

/// The directories to search for temporary files; see `temp_dirs`.
pub fn temp_search_dirs(p: Platform, root: &str, home: Option<&str>) -> (r: Vec<String>)
    ensures
        strings_view(r@) == temp_dirs(p, root@, opt_str_view(home)),
{
    let mut r: Vec<String> = Vec::new();
    match p {
        Platform::Windows => {
            proof {
                reveal_strlit("Temp");
                reveal_strlit("tmp");
            }
            r.push(join_path(p, root, "Temp"));
            r.push(join_path(p, root, "tmp"));
        },
        Platform::Unix => {
            r.push(join_path(p, root, "tmp"));
            r.push(join_path(p, root, "var/tmp"));
            r.push(String::from_str("/tmp"));
            r.push(String::from_str("/var/tmp"));
            r.push(String::from_str("/dev/shm"));
            match home {
                Some(h) => {
                    r.push(join_path(p, h, ".cache"));
                },
                None => {},
            }
        },
    }
    proof {
        assert(strings_view(r@) =~= temp_dirs(p, root@, opt_str_view(home)));
    }
    r
}

/// Temporary files: when the root exists, the regular files of the listings
/// of the directories named by `temp_search_dirs`, in that order (a listing
/// has no entries where its directory is missing or unreadable). Nothing
/// when the root does not exist.
pub fn detect_temp_files(
    p: Platform,
    root: &str,
    home: Option<&str>,
    root_exists: bool,
    listings: &Vec<DirListing>,
) -> (r: Vec<CleanupCandidate>)
    requires
        root_exists ==> listing_dirs(listings@) == temp_dirs(p, root@, opt_str_view(home)),
    ensures
        candidates_view(r@) == if root_exists {
            collected_all(listings_view(listings@), CleanupCategory::TempFiles)
        } else {
            Seq::empty()
        },
{
    if !root_exists {
        let r: Vec<CleanupCandidate> = Vec::new();
        proof {
            assert(candidates_view(r@) =~= Seq::<CandidateView>::empty());
        }
        return r;
    }
    collect_all(listings, CleanupCategory::TempFiles)
}

/// The directories to search for browser caches; see `browser_cache_dirs_of`.
pub fn browser_cache_dirs(p: Platform, root: &str) -> (r: Vec<String>)
    ensures
        strings_view(r@) == browser_cache_dirs_of(p, root@),
{
    let mut r: Vec<String> = Vec::new();
    match p {
        Platform::Windows => {
            r.push(join_path(p, root, "Cache"));
            r.push(join_path(p, root, "cache"));
            r.push(join_path(p, root, "Code Cache"));
        },
        Platform::Unix => {
            r.push(join_path(p, root, "cache"));
            r.push(join_path(p, root, ".cache"));
        },
    }
    proof {
        assert(strings_view(r@) =~= browser_cache_dirs_of(p, root@));
    }
    r
}

/// Browser caches: when the root exists, the regular files of the listings
/// of the directories named by `browser_cache_dirs`, in that order. Nothing
/// when the root does not exist.
pub fn detect_browser_cache(p: Platform, root: &str, root_exists: bool, listings: &Vec<DirListing>) -> (r:
    Vec<CleanupCandidate>)
    requires
        root_exists ==> listing_dirs(listings@) == browser_cache_dirs_of(p, root@),
    ensures
        candidates_view(r@) == if root_exists {
            collected_all(listings_view(listings@), CleanupCategory::BrowserCache)
        } else {
            Seq::empty()
        },
{
    if !root_exists {
        let r: Vec<CleanupCandidate> = Vec::new();
        proof {
            assert(candidates_view(r@) =~= Seq::<CandidateView>::empty());
        }
        return r;
    }
    collect_all(listings, CleanupCategory::BrowserCache)
}

/// What one listing entry contributes to a detection: a regular file of
/// `n` bytes yields one candidate of `category` with its path, its size and
/// the description "Temporary/cache file: " followed by its file name; any
/// other entry yields nothing.
pub open spec fn entry_yield(e: EntryView, category: CleanupCategory) -> Seq<CandidateView> {
    match e.file_size {
        Some(n) => seq![
            CandidateView {
                path: e.path,
                size: n,
                category,
                description: "Temporary/cache file: "@ + e.file_name,
            },
        ],
        None => Seq::empty(),
    }
}

/// A listing yields one candidate per regular file, in listing order: an
/// empty listing yields nothing, and one more entry appends exactly what
/// that entry yields to what the earlier entries gave.
pub proof fn lemma_collected_appends(entries: Seq<EntryView>, e: EntryView, category: CleanupCategory)
    ensures
        collected(Seq::empty(), category) == Seq::<CandidateView>::empty(),
        collected(entries.push(e), category) == collected(entries, category) + entry_yield(
            e,
            category,
        ),
{
    let f = |x: EntryView| cache_file_candidate(x, category);
    assert(Seq::<EntryView>::empty().filter_map(f) =~= Seq::<CandidateView>::empty());
    assert(entries.push(e).drop_last() =~= entries);
    assert(entries.push(e).filter_map(f) =~= collected(entries, category) + entry_yield(e, category));
}

/// Several listings yield, in order, the candidates of every listing: no
/// listings yield nothing, and one more listing appends exactly its own
/// candidates, whatever the earlier listings gave.
pub proof fn lemma_collected_all_appends(
    listings: Seq<Seq<EntryView>>,
    l: Seq<EntryView>,
    category: CleanupCategory,
)
    ensures
        collected_all(Seq::empty(), category) == Seq::<CandidateView>::empty(),
        collected_all(listings.push(l), category) == collected_all(listings, category) + collected(
            l,
            category,
        ),
{
    assert(listings.push(l).drop_last() =~= listings);
}

/// Every regular file of every searched directory is a candidate: for the
/// `j`-th entry of the `i`-th listing, when it is a regular file, the
/// candidate for it is among the candidates of all listings.
pub proof fn lemma_every_file_collected(
    listings: Seq<Seq<EntryView>>,
    i: int,
    j: int,
    category: CleanupCategory,
)
    requires
        0 <= i < listings.len(),
        0 <= j < listings[i].len(),
        listings[i][j].file_size is Some,
    ensures
        collected_all(listings, category).contains(
            CandidateView {
                path: listings[i][j].path,
                size: listings[i][j].file_size->0,
                category,
                description: "Temporary/cache file: "@ + listings[i][j].file_name,
            },
        ),
    decreases listings.len(),
{
    let c = CandidateView {
        path: listings[i][j].path,
        size: listings[i][j].file_size->0,
        category,
        description: "Temporary/cache file: "@ + listings[i][j].file_name,
    };
    let last = listings.len() - 1;
    lemma_collected_all_appends(listings.drop_last(), listings.last(), category);
    assert(listings.drop_last().push(listings.last()) =~= listings);
    if i < last {
        assert(listings.drop_last()[i] == listings[i]);
        lemma_every_file_collected(listings.drop_last(), i, j, category);
        let a = collected_all(listings.drop_last(), category);
        let t = choose|t: int| 0 <= t < a.len() && a[t] == c;
        assert((a + collected(listings.last(), category))[t] == c);
    } else {
        lemma_entry_collected(listings[i], j, category);
        let a = collected_all(listings.drop_last(), category);
        let b = collected(listings[i], category);
        let t = choose|t: int| 0 <= t < b.len() && b[t] == c;
        assert((a + b)[a.len() + t] == c);
    }
}

/// A regular-file entry of a listing yields its candidate.
proof fn lemma_entry_collected(entries: Seq<EntryView>, j: int, category: CleanupCategory)
    requires
        0 <= j < entries.len(),
        entries[j].file_size is Some,
    ensures
        collected(entries, category).contains(
            CandidateView {
                path: entries[j].path,
                size: entries[j].file_size->0,
                category,
                description: "Temporary/cache file: "@ + entries[j].file_name,
            },
        ),
    decreases entries.len(),
{
    let c = CandidateView {
        path: entries[j].path,
        size: entries[j].file_size->0,
        category,
        description: "Temporary/cache file: "@ + entries[j].file_name,
    };
    let last = entries.len() - 1;
    lemma_collected_appends(entries.drop_last(), entries.last(), category);
    assert(entries.drop_last().push(entries.last()) =~= entries);
    let a = collected(entries.drop_last(), category);
    if j < last {
        assert(entries.drop_last()[j] == entries[j]);
        lemma_entry_collected(entries.drop_last(), j, category);
        let t = choose|t: int| 0 <= t < a.len() && a[t] == c;
        assert((a + entry_yield(entries.last(), category))[t] == c);
    } else {
        assert((a + entry_yield(entries.last(), category))[a.len() as int] == c);
    }
}

} // verus!
