//! Instants of the system clock, as the rest of the library holds them.
use vstd::prelude::*;
use std::time::Instant;

verus! {

#[verifier::external_type_specification]
#[verifier::external_body]
pub struct ExInstant(std::time::Instant);

/// `Instant::clone`: the same instant.
pub assume_specification[ <std::time::Instant as Clone>::clone ](i: &Instant) -> (res: Instant)
    ensures
        res == *i,
;

/// `Instant::now`: the current time (nothing is known of its value).
#[verifier::external_body]
pub(crate) fn instant_now() -> (res: Instant) {
    Instant::now()
}

} // verus!
