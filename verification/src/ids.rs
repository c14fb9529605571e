//! Identifier generation, delegated to the `uuid` crate.

use vstd::prelude::*;

verus! {

/// Relies on `uuid::Uuid::now_v7`: a fresh time-ordered unique identifier.
/// The value depends on the clock and on randomness, so nothing is promised
/// of it; callers must treat collisions as possible.
#[verifier::external_body]
pub(crate) fn fresh_ref_id() -> u128 {
    uuid::Uuid::now_v7().as_u128()
}

/// Relies on `uuid::Uuid::new_v4`: a fresh random identifier, rendered in
/// its canonical hyphenated form.  The value is random, so nothing is
/// promised of it.
#[verifier::external_body]
pub(crate) fn fresh_handle_id() -> String {
    uuid::Uuid::new_v4().to_string()
}

} // verus!
