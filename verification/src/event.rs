//! Errors reported by the event operations.

use vstd::prelude::*;

verus! {

/// Why an event operation was refused.
#[derive(Clone, Copy, Debug, PartialEq, Eq, Structural)]
pub enum EventError {
    /// The contract is paused.
    Paused,
    /// No event exists under the given id.
    EventNotFound,
    /// The event has been cancelled.
    EventCancelled,
    /// The event has already been finalized.
    AlreadyFinalized,
    /// The event has not reached its end time yet.
    EventNotEnded,
    /// Some match of the event has no result (or is missing).
    MatchesNotComplete,
    /// A token transfer failed.
    TransferFailed,
    /// The event has not been finalized yet.
    EventNotFinalized,
    /// The caller has no prize allocation for the event.
    NoAllocation,
    /// The allocation was already settled, by a claim or by a clawback.
    AlreadyClaimed,
    /// The claim period of the event has not expired yet.
    ClaimPeriodNotExpired,
}

} // verus!
