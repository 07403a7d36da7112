//! Run reports: the aggregate counters a run returns to its caller.

use vstd::prelude::*;

verus! {

/// Counters of a snapshot run: how many files were already present in the
/// store under their content key, and how many blobs were uploaded.
#[derive(Debug, Clone, Copy, PartialEq, Eq, Structural)]
pub struct CreateReport {
    /// Files whose blob already existed in the store (the dedup fast path).
    pub n_already_existing: usize,
    /// Files whose blob was compressed and uploaded by this run.
    pub n_uploaded: usize,
}

/// Counters of a reconcile run.
#[derive(Debug, Clone, Copy, PartialEq, Eq, Structural)]
pub struct SwitchReport {
    /// Records whose local file already matched length and digest.
    pub n_unchanged: usize,
    /// Records whose local file existed but differed and was overwritten.
    pub n_changed: usize,
    /// Records whose local file was missing and was restored.
    pub n_missing: usize,
}

impl SwitchReport {
    /// The all-zero report an empty reconcile run returns.
    pub open spec fn zero() -> SwitchReport {
        SwitchReport { n_unchanged: 0, n_changed: 0, n_missing: 0 }
    }
}

} // verus!
