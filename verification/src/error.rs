//! The error algebra of the library.
//!
//! Grammar errors carry the character position at which parsing failed;
//! graph-integrity and monotonicity errors carry the index of the node
//! concerned, so a caller can point back at the offending commit.

use vstd::prelude::*;

verus! {

/// Everything that can go wrong inside the library.
#[derive(Clone, Copy, Debug, PartialEq, Eq, Structural)]
pub enum CcError {
    /// Malformed log record, commit subject, version string or format
    /// string; `pos` is the character position where parsing failed.
    Grammar { pos: usize },
    /// A record handed to the graph builder is not well formed: its
    /// commit hash is not a full forty-digit hash, or its timestamp lies
    /// outside the supported range.
    MalformedRecord { index: usize },
    /// A commit names a parent hash that no record in the log carries.
    UnresolvedParent { child: usize },
    /// No parentless (root) commit exists in the history.
    NoTail,
    /// More than one parentless commit exists in the history.
    MultipleTails,
    /// No commit carries the current-HEAD marker.
    NoHead,
    /// More than one commit carries the current-HEAD marker.
    MultipleHeads,
    /// The parent edges close a cycle, so no dependency order exists.
    CycleDetected,
    /// An explicit version tag is lower than a version already reached by
    /// one of the commit's ancestors.
    MonotonicityViolation,
    /// Two version numbers of incompatible representations were compared.
    IncomparableVersionNumbers,
}

impl CcError {
    /// A short human-readable account of the error kind.
    pub fn message(&self) -> (r: &'static str) {
        match self {
            CcError::Grammar { .. } => "malformed input: parsing failed",
            CcError::MalformedRecord { .. } => "a log record holds an invalid hash or timestamp",
            CcError::UnresolvedParent { .. } => "a commit names a parent that is not in the log",
            CcError::NoTail => "no parentless (root) commit found in the history",
            CcError::MultipleTails => "more than one parentless commit found in the history",
            CcError::NoHead => "no commit carries the HEAD marker",
            CcError::MultipleHeads => "more than one commit carries the HEAD marker",
            CcError::CycleDetected => "the parent edges close a cycle",
            CcError::MonotonicityViolation => "a tag is lower than a version already reached by an ancestor",
            CcError::IncomparableVersionNumbers => "cannot compare version numbers of different representations",
        }
    }
}

} // verus!
