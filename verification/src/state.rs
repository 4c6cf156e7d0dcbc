//! The scan status that the application keeps between requests: whether a
//! scan runs, its latest progress, its result or error.
use vstd::prelude::*;
use vstd::string::*;

use crate::scanner::ScanProgress;
use crate::tree::Tree;

verus! {

/// The status of the current or last scan.
#[derive(Debug)]
pub struct ScanState {
    pub is_scanning: bool,
    pub current_path: String,
    pub files_scanned: u64,
    pub bytes_scanned: u64,
    pub result: Option<Tree>,
    pub partial_tree: Option<Tree>,
    pub error: Option<String>,
}

/// The contents of a `ScanState` as values.
pub struct ScanStateView {
    pub is_scanning: bool,
    pub current_path: Seq<char>,
    pub files_scanned: u64,
    pub bytes_scanned: u64,
    pub result: Option<Tree>,
    pub partial_tree: Option<Tree>,
    pub error: Option<Seq<char>>,
}

impl View for ScanState {
    type V = ScanStateView;

    open spec fn view(&self) -> ScanStateView {
        ScanStateView {
            is_scanning: self.is_scanning,
            current_path: self.current_path@,
            files_scanned: self.files_scanned,
            bytes_scanned: self.bytes_scanned,
            result: self.result,
            partial_tree: self.partial_tree,
            error: match self.error {
                Some(e) => Some(e@),
                None => None,
            },
        }
    }
}

/// The status before any scan: idle, nothing scanned, no result.
pub open spec fn idle_state() -> ScanStateView {
    ScanStateView {
        is_scanning: false,
        current_path: Seq::empty(),
        files_scanned: 0,
        bytes_scanned: 0,
        result: None,
        partial_tree: None,
        error: None,
    }
}

/// Whether a request to start a scan is refused: one is already running.
pub open spec fn start_refused(s: ScanStateView) -> bool {
    s.is_scanning
}

/// The status after a scan was started: running, counters and current path
/// reset, result and error cleared; the last partial tree is kept.
pub open spec fn started(s: ScanStateView) -> ScanStateView {
    ScanStateView {
        is_scanning: true,
        current_path: Seq::empty(),
        files_scanned: 0,
        bytes_scanned: 0,
        result: None,
        error: None,
        ..s
    }
}

/// The status after a progress report.
pub open spec fn after_progress(s: ScanStateView, p: ScanProgress) -> ScanStateView {
    match p {
        ScanProgress::Scanning { path, files_scanned, bytes_scanned } => ScanStateView {
            current_path: path@,
            files_scanned,
            bytes_scanned,
            ..s
        },
        ScanProgress::PartialTree(t) => ScanStateView { partial_tree: Some(t), ..s },
        ScanProgress::Completed(t) => ScanStateView { is_scanning: false, result: Some(t), ..s },
        ScanProgress::Error(m) => ScanStateView { is_scanning: false, error: Some(m@), ..s },
    }
}

/// The status after a scan could not be started: not running, with the
/// error's message.
pub open spec fn after_failure(s: ScanStateView, message: Seq<char>) -> ScanStateView {
    ScanStateView { is_scanning: false, error: Some(message), ..s }
}

/// The status after a cancel request: not running, all else kept.
pub open spec fn after_cancel(s: ScanStateView) -> ScanStateView {
    ScanStateView { is_scanning: false, ..s }
}

impl Default for ScanState {
    /// The status before any scan.
    fn default() -> (r: ScanState)
        ensures
            r@ == idle_state(),
    {
        ScanState {
            is_scanning: false,
            current_path: String::new(),
            files_scanned: 0,
            bytes_scanned: 0,
            result: None,
            partial_tree: None,
            error: None,
        }
    }
}

impl ScanState {
    /// Starts a scan unless one is running; a refused start leaves the
    /// status unchanged and answers "Scan already in progress".
    pub fn begin_scan(&mut self) -> (r: Result<(), String>)
        ensures
            start_refused(old(self)@) ==> final(self)@ == old(self)@ && r is Err && r->Err_0@
                == "Scan already in progress"@,
            !start_refused(old(self)@) ==> final(self)@ == started(old(self)@) && r is Ok,
            r is Ok ==> final(self).is_scanning && final(self).current_path@.len() == 0
                && final(self).files_scanned == 0 && final(self).bytes_scanned == 0
                && final(self).result is None && final(self).error is None
                && final(self).partial_tree == old(self).partial_tree,
            r is Ok <==> !old(self).is_scanning,
    {
        if self.is_scanning {
            return Err(String::from_str("Scan already in progress"));
        }
        self.is_scanning = true;
        self.current_path = String::new();
        self.files_scanned = 0;
        self.bytes_scanned = 0;
        self.result = None;
        self.error = None;
        Ok(())
    }

    /// Records a progress report of the running scan.
    pub fn apply_progress(&mut self, progress: ScanProgress)
        ensures
            final(self)@ == after_progress(old(self)@, progress),
    {
        match progress {
            ScanProgress::Scanning { path, files_scanned, bytes_scanned } => {
                self.current_path = path;
                self.files_scanned = files_scanned;
                self.bytes_scanned = bytes_scanned;
            },
            ScanProgress::PartialTree(tree) => {
                self.partial_tree = Some(tree);
            },
            ScanProgress::Completed(tree) => {
                self.is_scanning = false;
                self.result = Some(tree);
            },
            ScanProgress::Error(msg) => {
                self.is_scanning = false;
                self.error = Some(msg);
            },
        }
    }

    /// Records that the scan could not be started.
    pub fn record_failure(&mut self, message: String)
        ensures
            final(self)@ == after_failure(old(self)@, message@),
    {
        self.is_scanning = false;
        self.error = Some(message);
    }

    /// Records a cancel request.
    pub fn cancel(&mut self)
        ensures
            final(self)@ == after_cancel(old(self)@),
    {
        self.is_scanning = false;
    }
}

/// Only one scan runs at a time: right after a scan was started, a second
/// start is refused (and `begin_scan` then leaves the status unchanged).
pub proof fn lemma_second_start_refused(s: ScanStateView)
    requires
        !start_refused(s),
    ensures
        start_refused(started(s)),
{
}

/// Once a scan has stopped (completed, failed, reported an error or been
/// cancelled), a new scan may be started.
pub proof fn lemma_start_after_stop(s: ScanStateView, p: ScanProgress, message: Seq<char>)
    ensures
        !start_refused(after_cancel(s)),
        !start_refused(after_failure(s, message)),
        (p is Completed || p is Error) ==> !start_refused(after_progress(s, p)),
{
}

/// Progress reports of kind `Scanning` and `PartialTree` never stop a scan.
pub proof fn lemma_progress_keeps_running(s: ScanStateView, p: ScanProgress)
    requires
        p is Scanning || p is PartialTree,
    ensures
        after_progress(s, p).is_scanning == s.is_scanning,
{
}

/// A completed scan's tree is the result and the scan stops.
pub proof fn lemma_completion_records_result(s: ScanStateView, t: Tree)
    ensures
        after_progress(s, ScanProgress::Completed(t)).result == Some(t),
        !after_progress(s, ScanProgress::Completed(t)).is_scanning,
{
}

/// Starting a scan resets its status whatever it was before: the scan
/// runs, with an empty current path, no file and no byte scanned, and no
/// result or error; only the last partial tree is kept.
pub proof fn lemma_start_resets(s: ScanStateView)
    ensures
        started(s).is_scanning,
        started(s).current_path == Seq::<char>::empty(),
        started(s).files_scanned == 0,
        started(s).bytes_scanned == 0,
        started(s).result is None,
        started(s).error is None,
        started(s).partial_tree == s.partial_tree,
{
}

/// What each report does to the status: a `Scanning` report records the
/// current path and the counters and touches nothing else; a partial tree is
/// kept as the latest one; a completed tree becomes the result and stops the
/// scan; an error message is recorded and stops the scan. A cancel request
/// only stops the scan, and a failed start stops it with its message.
pub proof fn lemma_report_effects(s: ScanStateView, p: ScanProgress, message: Seq<char>)
    ensures
        p matches ScanProgress::Scanning { path, files_scanned, bytes_scanned } ==> {
            let t = after_progress(s, p);
            &&& t.current_path == path@
            &&& t.files_scanned == files_scanned
            &&& t.bytes_scanned == bytes_scanned
            &&& t.is_scanning == s.is_scanning
            &&& t.result == s.result
            &&& t.partial_tree == s.partial_tree
            &&& t.error == s.error
        },
        p matches ScanProgress::PartialTree(tree) ==> after_progress(s, p) == (ScanStateView {
            partial_tree: Some(tree),
            ..s
        }),
        p matches ScanProgress::Completed(tree) ==> after_progress(s, p) == (ScanStateView {
            is_scanning: false,
            result: Some(tree),
            ..s
        }),
        p matches ScanProgress::Error(m) ==> after_progress(s, p) == (ScanStateView {
            is_scanning: false,
            error: Some(m@),
            ..s
        }),
        after_cancel(s) == (ScanStateView { is_scanning: false, ..s }),
        after_failure(s, message) == (ScanStateView { is_scanning: false, error: Some(message), ..s }),
{
}

} // verus!
