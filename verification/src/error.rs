//! Errors of a scan.
use vstd::prelude::*;
use vstd::string::*;

verus! {

/// Why a scan failed. An I/O error carries the text of the underlying
/// error, as read by the application.
#[derive(Debug)]
pub enum ScanError {
    Io(String),
    PathNotFound(String),
    PermissionDenied(String),
    Cancelled,
    Other(String),
}

/// The message shown for an error.
pub open spec fn error_message(e: ScanError) -> Seq<char> {
    match e {
        ScanError::Io(m) => "I/O error: "@ + m@,
        ScanError::PathNotFound(p) => "Path not found: "@ + p@,
        ScanError::PermissionDenied(p) => "Permission denied: "@ + p@,
        ScanError::Cancelled => "Scan was cancelled"@,
        ScanError::Other(m) => m@,
    }
}

impl ScanError {
    /// The message shown for this error.
    pub fn message(&self) -> (r: String)
        ensures
            r@ == error_message(*self),
    {
        match self {
            ScanError::Io(m) => {
                let mut r = String::from_str("I/O error: ");
                r.append(m.as_str());
                r
            },
            ScanError::PathNotFound(p) => {
                let mut r = String::from_str("Path not found: ");
                r.append(p.as_str());
                r
            },
            ScanError::PermissionDenied(p) => {
                let mut r = String::from_str("Permission denied: ");
                r.append(p.as_str());
                r
            },
            ScanError::Cancelled => String::from_str("Scan was cancelled"),
            ScanError::Other(m) => m.clone(),
        }
    }
}

} // verus!
