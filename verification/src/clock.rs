//! The one place the library reads the wall clock.

use vstd::prelude::*;

verus! {

/// Relies on `chrono::Utc::now` and `chrono::DateTime::timestamp`: the
/// wall-clock time as whole seconds since the Unix epoch. Nothing is assumed
/// of the reading; callers state what holds whatever the clock returns.
#[verifier::external_body]
pub(crate) fn now_seconds() -> u64 {
    chrono::Utc::now().timestamp() as u64
}

} // verus!
