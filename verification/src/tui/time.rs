//! The clock used to stamp status messages and loaded views.

use vstd::prelude::*;

verus! {

/// `std::time::Instant` is carried unchanged.
#[verifier::external_type_specification]
#[verifier::external_body]
pub struct ExInstant(std::time::Instant);

/// The current time, from `std::time::Instant::now()`. Nothing is stated of
/// the value.
#[verifier::external_body]
pub(crate) fn now() -> (t: std::time::Instant) {
    std::time::Instant::now()
}

} // verus!
