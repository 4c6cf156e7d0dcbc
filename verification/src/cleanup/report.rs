//! The cleanup report: the candidates of all detectors together, and the
//! summary of a removal.
use vstd::prelude::*;

use crate::cleanup::detector::{
    CandidateView, CleanupCandidate, CleanupCategory, DirListing, candidates_view, listing_dirs,
    listings_view, opt_str_view,
};
use crate::cleanup::docker::{
    DockerProbe, detect_stale_docker_volumes, docker_dirs, estimate_dir_size, probe_dirs,
    probes_artifacts, sum_of,
};
use crate::cleanup::duplicate::{FileContents, detect_duplicates, duplicates_of, hashed_files};
use crate::cleanup::temp::{
    browser_cache_dirs_of, collected_all, detect_browser_cache, detect_temp_files, temp_dirs,
};
use crate::text::Platform;

verus! {

/// All candidates of a root: temporary files, then browser caches, then
/// duplicates, then Docker leftovers; nothing when the root does not exist.
pub open spec fn all_candidates(
    p: Platform,
    root_exists: bool,
    temp: Seq<DirListing>,
    caches: Seq<DirListing>,
    files: Seq<FileContents>,
    probes: Seq<DockerProbe>,
) -> Seq<CandidateView> {
    if root_exists {
        collected_all(listings_view(temp), CleanupCategory::TempFiles) + collected_all(
            listings_view(caches),
            CleanupCategory::BrowserCache,
        ) + duplicates_of(hashed_files(files)) + probes_artifacts(p, probes)
    } else {
        Seq::empty()
    }
}

/// Runs every detector on what was found under `root` and lists their
/// candidates one detector after the other (see `all_candidates`). `temp`
/// and `caches` are the listings of the directories that `temp_search_dirs`
/// and `browser_cache_dirs` name, `files` the regular files below the root,
/// `probes` the probes of the directories that `docker_search_dirs` names.
pub fn detect_cleanup_candidates(
    p: Platform,
    root: &str,
    home: Option<&str>,
    root_exists: bool,
    temp: &Vec<DirListing>,
    caches: &Vec<DirListing>,
    files: &Vec<FileContents>,
    probes: &Vec<DockerProbe>,
) -> (r: Result<Vec<CleanupCandidate>, String>)
    requires
        root_exists ==> listing_dirs(temp@) == temp_dirs(p, root@, opt_str_view(home)),
        root_exists ==> listing_dirs(caches@) == browser_cache_dirs_of(p, root@),
        root_exists ==> probe_dirs(probes@) == docker_dirs(p, root@, opt_str_view(home)),
    ensures
        r is Ok,
        candidates_view(r->Ok_0@) == all_candidates(p, root_exists, temp@, caches@, files@, probes@),
{
    let mut out = detect_temp_files(p, root, home, root_exists, temp);
    let mut more = detect_browser_cache(p, root, root_exists, caches);
    let ghost a = out@;
    let ghost b = more@;
    out.append(&mut more);
    proof {
        assert(candidates_view(out@) =~= candidates_view(a) + candidates_view(b));
    }
    if root_exists {
        let ghost c0 = out@;
        let mut dups = detect_duplicates(files);
        let ghost c1 = dups@;
        out.append(&mut dups);
        proof {
            assert(candidates_view(out@) =~= candidates_view(c0) + candidates_view(c1));
        }
    }
    let ghost d0 = out@;
    let mut docker = detect_stale_docker_volumes(p, root, home, root_exists, probes);
    let ghost d1 = docker@;
    out.append(&mut docker);
    proof {
        assert(candidates_view(out@) =~= candidates_view(d0) + candidates_view(d1));
        assert(candidates_view(out@) =~= all_candidates(
            p,
            root_exists,
            temp@,
            caches@,
            files@,
            probes@,
        ));
    }
    Ok(out)
}

/// What a removal achieved: how many paths were removed and how many bytes
/// they took.
#[derive(Debug, Clone, Copy, PartialEq, Eq, Structural)]
pub struct RemovalSummary {
    pub removed: usize,
    pub freed: u64,
}

/// The summary of a removal from the sizes of the paths that were removed:
/// their number and the sum of their sizes; `None` when the sum does not
/// fit in 64 bits.
pub fn removal_summary(removed_sizes: &Vec<u64>) -> (r: Option<RemovalSummary>)
    ensures
        match r {
            Some(s) => s.removed == removed_sizes@.len() && s.freed == sum_of(removed_sizes@),
            None => sum_of(removed_sizes@) > u64::MAX,
        },
{
    match estimate_dir_size(removed_sizes) {
        Some(freed) => Some(RemovalSummary { removed: removed_sizes.len(), freed }),
        None => None,
    }
}

} // verus!
