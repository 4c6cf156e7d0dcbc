//! The types shared by the cleanup detectors.
use vstd::prelude::*;

use crate::sort::SizeKeyed;

verus! {

/// Why a file or directory is proposed for removal.
#[derive(Debug, Clone, Copy, PartialEq, Eq, Structural)]
pub enum CleanupCategory {
    TempFiles,
    Duplicates,
    DockerVolumes,
    BrowserCache,
}

/// A file or directory proposed for removal.
#[derive(Debug, Clone)]
pub struct CleanupCandidate {
    pub path: String,
    pub size: u64,
    pub category: CleanupCategory,
    pub description: String,
}

/// The contents of a `CleanupCandidate` as values.
pub struct CandidateView {
    pub path: Seq<char>,
    pub size: u64,
    pub category: CleanupCategory,
    pub description: Seq<char>,
}

impl View for CleanupCandidate {
    type V = CandidateView;

    open spec fn view(&self) -> CandidateView {
        CandidateView {
            path: self.path@,
            size: self.size,
            category: self.category,
            description: self.description@,
        }
    }
}

impl SizeKeyed for CleanupCandidate {
    open spec fn size_key(&self) -> u64 {
        self.size
    }

    fn key(&self) -> (r: u64) {
        self.size
    }
}

impl SizeKeyed for CandidateView {
    open spec fn size_key(&self) -> u64 {
        self.size
    }

    fn key(&self) -> (r: u64) {
        self.size
    }
}

/// A set of candidates and the space they take together.
#[derive(Debug, Clone)]
pub struct CleanupResult {
    pub candidates: Vec<CleanupCandidate>,
    pub total_size: u64,
}

/// One entry of a directory listing as the detectors see it: its path, its
/// file name, and its length when it is a regular file whose metadata could
/// be read (`None` for directories, other objects and unreadable entries).
#[derive(Debug, Clone)]
pub struct DirEntryInfo {
    pub path: String,
    pub file_name: String,
    pub file_size: Option<u64>,
}

/// The contents of a `DirEntryInfo` as values.
pub struct EntryView {
    pub path: Seq<char>,
    pub file_name: Seq<char>,
    pub file_size: Option<u64>,
}

impl View for DirEntryInfo {
    type V = EntryView;

    open spec fn view(&self) -> EntryView {
        EntryView { path: self.path@, file_name: self.file_name@, file_size: self.file_size }
    }
}

/// The values of a sequence of candidates.
pub open spec fn candidates_view(s: Seq<CleanupCandidate>) -> Seq<CandidateView> {
    s.map_values(|c: CleanupCandidate| c@)
}

/// The values of a directory listing.
pub open spec fn entries_view(s: Seq<DirEntryInfo>) -> Seq<EntryView> {
    s.map_values(|e: DirEntryInfo| e@)
}

/// The listing of one searched directory: the directory's path and its
/// entries (none when it does not exist or cannot be read).
#[derive(Debug, Clone)]
pub struct DirListing {
    pub dir: String,
    pub entries: Vec<DirEntryInfo>,
}

/// The directories of several listings, in order.
pub open spec fn listing_dirs(s: Seq<DirListing>) -> Seq<Seq<char>> {
    s.map_values(|l: DirListing| l.dir@)
}

/// The entries of several listings, as values, one listing after another.
pub open spec fn listings_view(s: Seq<DirListing>) -> Seq<Seq<EntryView>> {
    s.map_values(|l: DirListing| entries_view(l.entries@))
}

/// An optional string as a value.
pub open spec fn opt_str_view(o: Option<&str>) -> Option<Seq<char>> {
    match o {
        Some(h) => Some(h@),
        None => None,
    }
}

/// The values of a sequence of strings.
pub open spec fn strings_view(s: Seq<String>) -> Seq<Seq<char>> {
    s.map_values(|x: String| x@)
}

} // verus!
