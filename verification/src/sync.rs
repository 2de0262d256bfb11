//! What the two ways of keeping a cohort in step have in common.
//!
//! A node that has finished a phase enters the boundary in front of the next
//! one and is held there until every node of the cohort has entered the same
//! boundary; then all of them go on. Nodes in one process meet at a
//! `CountingBarrier`. Nodes on a network announce their arrival to each
//! other, and each keeps a `ReadinessRecord` of what it has heard.

use vstd::prelude::*;

verus! {

/// Why a barrier or a record could not be made, or a boundary not be
/// entered.
#[derive(Clone, Copy, Debug, PartialEq, Eq, Structural)]
pub enum SyncError {
    /// The cohort is empty, or the node's place lies outside it.
    InvalidCohort,
    /// The boundary is not the one that is being entered now.
    WrongBoundary,
}

} // verus!
