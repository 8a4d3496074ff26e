//! Trusted access to the platform: random identifiers and the wall clock.
//!
//! Everything else in the crate is a pure function of its arguments; the two
//! calls here are the only sources of nondeterminism, and every function
//! that uses them states what holds of its result whatever value came back.

use vstd::prelude::*;

verus! {

/// Relies on `uuid::Uuid::new_v4` (a version-4 random UUID) read out through
/// `Uuid::as_u128`. The value is random, so nothing is promised of it;
/// callers check it against existing identifiers before storing it.
#[verifier::external_body]
pub fn fresh_id() -> u128 {
    uuid::Uuid::new_v4().as_u128()
}

/// Relies on `chrono::Utc::now` read out through `DateTime::timestamp`: the
/// current wall-clock time in whole seconds since the Unix epoch. The clock
/// is outside the program, so nothing is promised of the value; callers
/// treat it as an arbitrary instant.
#[verifier::external_body]
pub fn now_epoch_seconds() -> i64 {
    chrono::Utc::now().timestamp()
}

} // verus!
