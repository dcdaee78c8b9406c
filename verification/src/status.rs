//! Events that workers put on the notification channel.

use vstd::prelude::*;

verus! {

/// Whether an assignment is pending on the reporting side.
#[derive(Debug, Clone, Copy, PartialEq, Eq, Structural)]
pub enum SlotStatus {
    /// No pending work.
    Idle,
    /// A segment assignment has been requested and is not yet confirmed
    /// taken.
    Requested,
}

/// One event on the notification channel. Each field reports on its own
/// axis; an absent field means that there is nothing to report on it.
#[derive(Debug, Clone, Copy, PartialEq, Eq)]
pub struct WorkerStatusUpdate {
    /// The new status, if it changed.
    pub status: Option<SlotStatus>,
    /// A slot index and whether that slot became available (`true`) or
    /// stopped being available (`false`).
    pub slot_delta: Option<(usize, bool)>,
}

} // verus!
