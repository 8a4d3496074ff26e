//! Cost-optimal scheduling and reliable command dispatch for smart devices.
//!
//! The crate has two centers of gravity. The schedule optimizer turns a day's
//! hourly electricity prices and a user rule into a feasible, cost-minimal
//! sequence of ON time slots. The command lifecycle manager owns the state
//! machine of every command sent to a device over an unreliable mobile link:
//! queuing, delivery, acknowledgment, bounded retry, and expiry. Around them
//! sit the device state projector (last-write-wins state records) and the
//! sync coordinator (idempotent reconciliation of mobile-reported devices).
//!
//! Everything is a pure function of its arguments except the two wrappers
//! in the platform module (random identifiers and the wall clock), which
//! are the crate's only trusted items.

use vstd::prelude::*;

pub mod auth;
pub mod command;
pub mod device;
pub mod lifecycle;
pub mod optimizer;
pub mod platform;
pub mod projector;
pub mod rule;
pub mod schedule;
pub mod session;
pub mod store;
pub mod sync;

verus! {

/// Error taxonomy of the library.
///
/// `InvalidRuleParameters` rejects malformed input before any state
/// change; `NotFound` covers unknown entities and entities the caller
/// does not own; `InvalidTransition` is an attempted state-machine move not
/// permitted from the current state; `StorageConflict` is a key collision in
/// the backing store, surfaced as a retryable failure.
#[derive(Clone, Copy, Debug, PartialEq, Eq, Structural)]
pub enum CoreError {
    InvalidRuleParameters,
    NotFound,
    DeviceNotOwned,
    Unauthorized,
    InvalidTransition,
    StorageConflict,
}

/// The text `CoreError::message` returns for each variant.
pub open spec fn spec_message(e: CoreError) -> Seq<char> {
    match e {
        CoreError::InvalidRuleParameters => "invalid rule parameters"@,
        CoreError::NotFound => "not found"@,
        CoreError::DeviceNotOwned => "device not owned by caller"@,
        CoreError::Unauthorized => "not authenticated"@,
        CoreError::InvalidTransition => "invalid state transition"@,
        CoreError::StorageConflict => "storage conflict"@,
    }
}

impl CoreError {
    /// A human-readable message for the error, persisted with terminal failures.
    pub fn message(&self) -> (r: &'static str)
        ensures
            r@ == spec_message(*self),
    {
        match self {
            CoreError::InvalidRuleParameters => "invalid rule parameters",
            CoreError::NotFound => "not found",
            CoreError::DeviceNotOwned => "device not owned by caller",
            CoreError::Unauthorized => "not authenticated",
            CoreError::InvalidTransition => "invalid state transition",
            CoreError::StorageConflict => "storage conflict",
        }
    }
}

} // verus!
