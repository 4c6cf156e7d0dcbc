//! Leftover Docker data: the `volumes`, `overlay2` and `image` directories
//! inside the places where Docker keeps its state.
use vstd::prelude::*;
use vstd::string::*;

use crate::cleanup::detector::{
    CandidateView, CleanupCandidate, CleanupCategory, candidates_view, opt_str_view, strings_view,
};
use crate::text::{Platform, joined, join_path};

verus! {

/// The directories in which Docker data is looked for, in search order. On
/// Windows: `AppData/Local/Docker` under the root. Elsewhere: the user's
/// `.docker/desktop` when a home directory is known, the system directories
/// `/var/lib/docker/desktop` and `/var/lib/docker/containers`, then
/// `var/lib/docker`, `.docker` and `.docker/desktop` under the root.
pub open spec fn docker_dirs(p: Platform, root: Seq<char>, home: Option<Seq<char>>) -> Seq<
    Seq<char>,
> {
    if p == Platform::Windows {
        seq![joined(p, joined(p, joined(p, root, "AppData"@), "Local"@), "Docker"@)]
    } else {
        (match home {
            Some(h) => seq![joined(p, joined(p, h, ".docker"@), "desktop"@)],
            None => Seq::empty(),
        }) + seq![
            "/var/lib/docker/desktop"@,
            "/var/lib/docker/containers"@,
            joined(p, joined(p, joined(p, root, "var"@), "lib"@), "docker"@),
            joined(p, root, ".docker"@),
            joined(p, joined(p, root, ".docker"@), "desktop"@),
        ]
    }
}

/// The names of the Docker directories that are reported, in report order.
pub open spec fn indicator(i: int) -> Seq<char> {
    if i == 0 {
        "volumes"@
    } else if i == 1 {
        "overlay2"@
    } else {
        "image"@
    }
}

/// The candidate for the `i`-th indicator directory of `dir` when it exists
/// and holds `size` bytes.
pub open spec fn artifact_candidate(p: Platform, dir: Seq<char>, i: int, size: u64) -> CandidateView {
    CandidateView {
        path: joined(p, dir, indicator(i)),
        size,
        category: CleanupCategory::DockerVolumes,
        description: "Docker "@ + indicator(i) + " directory"@,
    }
}

/// The candidates of one Docker directory: one per indicator directory that
/// was found, in indicator order.
pub open spec fn artifacts(p: Platform, dir: Seq<char>, sizes: Seq<Option<u64>>) -> Seq<
    CandidateView,
> {
    artifacts_upto(p, dir, sizes, 3)
}

/// The candidates of the first `n` indicators.
pub open spec fn artifacts_upto(p: Platform, dir: Seq<char>, sizes: Seq<Option<u64>>, n: int) -> Seq<
    CandidateView,
>
    decreases n,
{
    if n <= 0 {
        Seq::empty()
    } else {
        artifacts_upto(p, dir, sizes, n - 1) + match sizes[n - 1] {
            Some(size) => seq![artifact_candidate(p, dir, n - 1, size)],
            None => Seq::empty(),
        }
    }
}

/// The sum of a sequence of sizes.
pub open spec fn sum_of(s: Seq<u64>) -> int
    decreases s.len(),
{
    if s.len() == 0 {
        0
    } else {
        sum_of(s.drop_last()) + s.last()
    }
}

/// What was found in one Docker directory: for each indicator directory in
/// indicator order, its estimated size when it exists (so all `None` when
/// the Docker directory itself does not exist).
#[derive(Debug, Clone)]
pub struct DockerProbe {
    pub dir: String,
    pub artifact_sizes: [Option<u64>; 3],
}

/// The candidates of several probed Docker directories, one after the other.
pub open spec fn probes_artifacts(p: Platform, probes: Seq<DockerProbe>) -> Seq<CandidateView>
    decreases probes.len(),
{
    if probes.len() == 0 {
        Seq::empty()
    } else {
        probes_artifacts(p, probes.drop_last()) + artifacts(
            p,
            probes.last().dir@,
            probes.last().artifact_sizes@,
        )
    }
}

/// The directories to search for Docker data; see `docker_dirs`.
pub fn docker_search_dirs(p: Platform, root: &str, home: Option<&str>) -> (r: Vec<String>)
    ensures
        strings_view(r@) == docker_dirs(p, root@, opt_str_view(home)),
{
    let mut r: Vec<String> = Vec::new();
    match p {
        Platform::Windows => {
            let a = join_path(p, root, "AppData");
            let b = join_path(p, a.as_str(), "Local");
            r.push(join_path(p, b.as_str(), "Docker"));
        },
        Platform::Unix => {
            match home {
                Some(h) => {
                    let a = join_path(p, h, ".docker");
                    r.push(join_path(p, a.as_str(), "desktop"));
                },
                None => {},
            }
            r.push(String::from_str("/var/lib/docker/desktop"));
            r.push(String::from_str("/var/lib/docker/containers"));
            let a = join_path(p, root, "var");
            let b = join_path(p, a.as_str(), "lib");
            r.push(join_path(p, b.as_str(), "docker"));
            r.push(join_path(p, root, ".docker"));
            let c = join_path(p, root, ".docker");
            r.push(join_path(p, c.as_str(), "desktop"));
        },
    }
    proof {
        assert(strings_view(r@) =~= docker_dirs(p, root@, opt_str_view(home)));
    }
    r
}

/// The name of the `i`-th indicator directory.
fn indicator_name(i: usize) -> (r: &'static str)
    requires
        i < 3,
    ensures
        r@ == indicator(i as int),
{
    if i == 0 {
        "volumes"
    } else if i == 1 {
        "overlay2"
    } else {
        "image"
    }
}

/// The paths of the indicator directories inside `dir`, in indicator order.
pub fn docker_artifact_paths(p: Platform, dir: &str) -> (r: Vec<String>)
    ensures
        r@.len() == 3,
        forall|i: int| 0 <= i < 3 ==> #[trigger] r@[i]@ == joined(p, dir@, indicator(i)),
{
    let mut r: Vec<String> = Vec::new();
    let mut i: usize = 0;
    while i < 3
        invariant
            i <= 3,
            r@.len() == i,
            forall|j: int| 0 <= j < i ==> #[trigger] r@[j]@ == joined(p, dir@, indicator(j)),
        decreases 3 - i,
    {
        r.push(join_path(p, dir, indicator_name(i)));
        i = i + 1;
    }
    r
}

/// Appends one candidate for every indicator directory of `dir` that was
/// found (`artifact_sizes[i]` holds its estimated size), in indicator order.
pub fn collect_docker_artifacts(
    p: Platform,
    dir: &str,
    artifact_sizes: &[Option<u64>; 3],
    candidates: &mut Vec<CleanupCandidate>,
)
    ensures
        candidates_view(final(candidates)@) == candidates_view(old(candidates)@) + artifacts(
            p,
            dir@,
            artifact_sizes@,
        ),
{
    let mut i: usize = 0;
    while i < 3
        invariant
            i <= 3,
            artifact_sizes@.len() == 3,
            candidates_view(candidates@) == candidates_view(old(candidates)@) + artifacts_upto(
                p,
                dir@,
                artifact_sizes@,
                i as int,
            ),
        decreases 3 - i,
    {
        let ghost before = candidates@;
        match artifact_sizes[i] {
            Some(size) => {
                let name = indicator_name(i);
                proof {
                    reveal_strlit("Docker ");
                    reveal_strlit(" directory");
                }
                let mut description = String::from_str("Docker ");
                description.append(name);
                description.append(" directory");
                let c = CleanupCandidate {
                    path: join_path(p, dir, name),
                    size,
                    category: CleanupCategory::DockerVolumes,
                    description,
                };
                candidates.push(c);
                proof {
                    assert(candidates_view(candidates@) =~= candidates_view(before).push(c@));
                    assert(c@ == artifact_candidate(p, dir@, i as int, size));
                }
            },
            None => {},
        }
        i = i + 1;
    }
}

/// The total size of a directory from the sizes of the regular files found
/// below it; `None` when the total does not fit in 64 bits.
pub fn estimate_dir_size(file_sizes: &Vec<u64>) -> (r: Option<u64>)
    ensures
        match r {
            Some(total) => total == sum_of(file_sizes@),
            None => sum_of(file_sizes@) > u64::MAX,
        },
{
    let mut total: u64 = 0;
    let mut i: usize = 0;
    while i < file_sizes.len()
        invariant
            i <= file_sizes@.len(),
            total == sum_of(file_sizes@.take(i as int)),
        decreases file_sizes@.len() - i,
    {
        proof {
            assert(file_sizes@.take(i + 1).drop_last() =~= file_sizes@.take(i as int));
        }
        match total.checked_add(file_sizes[i]) {
            Some(t) => {
                total = t;
            },
            None => {
                proof {
                    lemma_sum_prefix_le(file_sizes@, i + 1);
                }
                return None;
            },
        }
        i = i + 1;
    }
    proof {
        assert(file_sizes@.take(i as int) =~= file_sizes@);
    }
    Some(total)
}

/// A prefix sums to no more than the whole sequence.
proof fn lemma_sum_prefix_le(s: Seq<u64>, k: int)
    requires
        0 <= k <= s.len(),
    ensures
        sum_of(s.take(k)) <= sum_of(s),
    decreases s.len() - k,
{
    if k < s.len() {
        lemma_sum_prefix_le(s, k + 1);
        assert(s.take(k + 1).drop_last() =~= s.take(k));
    } else {
        assert(s.take(k) =~= s);
    }
}

/// The directories of several probes, in order.
pub open spec fn probe_dirs(probes: Seq<DockerProbe>) -> Seq<Seq<char>> {
    probes.map_values(|x: DockerProbe| x.dir@)
}

/// Docker leftovers: when the root exists, the candidates of the probes of
/// the directories named by `docker_search_dirs`, in that order. Nothing
/// when the root does not exist.
pub fn detect_stale_docker_volumes(
    p: Platform,
    root: &str,
    home: Option<&str>,
    root_exists: bool,
    probes: &Vec<DockerProbe>,
) -> (r: Vec<CleanupCandidate>)
    requires
        root_exists ==> probe_dirs(probes@) == docker_dirs(p, root@, opt_str_view(home)),
    ensures
        candidates_view(r@) == if root_exists {
            probes_artifacts(p, probes@)
        } else {
            Seq::empty()
        },
{
    let mut r: Vec<CleanupCandidate> = Vec::new();
    proof {
        assert(candidates_view(r@) =~= Seq::<CandidateView>::empty());
    }
    if !root_exists {
        return r;
    }
    let mut i: usize = 0;
    proof {
        assert(probes@.take(0) =~= Seq::<DockerProbe>::empty());
    }
    while i < probes.len()
        invariant
            i <= probes@.len(),
            candidates_view(r@) == probes_artifacts(p, probes@.take(i as int)),
        decreases probes@.len() - i,
    {
        let probe = &probes[i];
        collect_docker_artifacts(p, probe.dir.as_str(), &probe.artifact_sizes, &mut r);
        proof {
            assert(probes@.take(i + 1).drop_last() =~= probes@.take(i as int));
        }
        i = i + 1;
    }
    proof {
        assert(probes@.take(i as int) =~= probes@);
    }
    r
}

/// The candidate for an indicator directory `name` of `dir` holding `size`
/// bytes: its path, its size, and the description "Docker <name> directory".
pub open spec fn found_candidate(p: Platform, dir: Seq<char>, name: Seq<char>, size: u64) -> CandidateView {
    CandidateView {
        path: joined(p, dir, name),
        size,
        category: CleanupCategory::DockerVolumes,
        description: "Docker "@ + name + " directory"@,
    }
}

/// What one indicator directory contributes: one candidate when it was
/// found, nothing otherwise.
pub open spec fn found_yield(p: Platform, dir: Seq<char>, name: Seq<char>, size: Option<u64>) -> Seq<
    CandidateView,
> {
    match size {
        Some(n) => seq![found_candidate(p, dir, name, n)],
        None => Seq::empty(),
    }
}

/// Every indicator directory that was found yields exactly one candidate,
/// whichever others were found: the candidates of a Docker directory are
/// those of `volumes`, then `overlay2`, then `image`, each present exactly
/// when its size is known.
pub proof fn lemma_artifacts_each_found(p: Platform, dir: Seq<char>, sizes: Seq<Option<u64>>)
    requires
        sizes.len() == 3,
    ensures
        artifacts(p, dir, sizes) == found_yield(p, dir, "volumes"@, sizes[0]) + found_yield(
            p,
            dir,
            "overlay2"@,
            sizes[1],
        ) + found_yield(p, dir, "image"@, sizes[2]),
{
    reveal_with_fuel(artifacts_upto, 4);
    assert(artifacts_upto(p, dir, sizes, 0) =~= Seq::<CandidateView>::empty());
    assert(artifacts_upto(p, dir, sizes, 1) =~= found_yield(p, dir, "volumes"@, sizes[0]));
    assert(artifacts_upto(p, dir, sizes, 2) =~= found_yield(p, dir, "volumes"@, sizes[0])
        + found_yield(p, dir, "overlay2"@, sizes[1]));
    assert(artifacts(p, dir, sizes) =~= found_yield(p, dir, "volumes"@, sizes[0]) + found_yield(
        p,
        dir,
        "overlay2"@,
        sizes[1],
    ) + found_yield(p, dir, "image"@, sizes[2]));
}

/// The candidates of several probed directories are those of each probe in
/// turn: none for no probe, and one more probe appends exactly its own.
pub proof fn lemma_probes_append(p: Platform, probes: Seq<DockerProbe>, x: DockerProbe)
    ensures
        probes_artifacts(p, Seq::empty()) == Seq::<CandidateView>::empty(),
        probes_artifacts(p, probes.push(x)) == probes_artifacts(p, probes) + artifacts(
            p,
            x.dir@,
            x.artifact_sizes@,
        ),
{
    assert(probes.push(x).drop_last() =~= probes);
}

/// A sum counts every size as often as it occurs: nothing sums to zero, and
/// one more size adds exactly that size.
pub proof fn lemma_sum_appends(s: Seq<u64>, x: u64)
    ensures
        sum_of(Seq::empty()) == 0,
        sum_of(s.push(x)) == sum_of(s) + x,
{
    assert(s.push(x).drop_last() =~= s);
}

} // verus!
