//! Error kinds of the generation run.
//!
//! All kinds are fatal: a run either produces a complete in-memory model or
//! fails with a single descriptive message naming the offending path or
//! segment.

use vstd::prelude::*;

verus! {

/// What can go wrong while resolving content.
///
/// * `InvalidSegment` — an illegal character or reserved name was met while
///   composing an identifier.
/// * `ScanError` — an I/O failure while reading a directory, carrying the
///   offending path (raised by the unverified scanning shell, never by the
///   library itself).
/// * `MissingRootIndex` — the content root has no index file.
/// * `DanglingReference` — an adjacency inconsistency between the traversal
///   maps; it signals an internal defect rather than bad input.
#[derive(Debug)]
pub enum Error {
    InvalidSegment(String),
    ScanError(String),
    MissingRootIndex,
    DanglingReference(String),
}

/// The user-visible message of each error kind.
pub open spec fn msg_of(e: Error) -> Seq<char> {
    match e {
        Error::InvalidSegment(s) => "invalid segment: "@ + s@,
        Error::ScanError(p) => "error reading directory: "@ + p@,
        Error::MissingRootIndex => "No root index file found"@,
        Error::DanglingReference(s) => "dangling reference: "@ + s@,
    }
}

impl Error {
    /// The single descriptive message identifying the offending path or
    /// segment.
    pub fn message(&self) -> (r: String)
        ensures
            r@ == msg_of(*self),
    {
        match self {
            Error::InvalidSegment(s) => {
                let mut r = "invalid segment: ".to_owned();
                r.append(s.as_str());
                r
            },
            Error::ScanError(p) => {
                let mut r = "error reading directory: ".to_owned();
                r.append(p.as_str());
                r
            },
            Error::MissingRootIndex => "No root index file found".to_owned(),
            Error::DanglingReference(s) => {
                let mut r = "dangling reference: ".to_owned();
                r.append(s.as_str());
                r
            },
        }
    }
}

} // verus!
