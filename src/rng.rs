//! The random source: a tinyrand Wyrand generator, seeded once and drawn
//! from every frame.

use vstd::prelude::*;
use tinyrand::{RandRange, Wyrand};

verus! {

#[verifier::external_type_specification]
#[verifier::external_body]
pub struct ExWyrand(Wyrand);

/// Relies on tinyrand's derived `Default` for `Wyrand`: a generator in its
/// default state. Nothing is stated of that state.
#[verifier::external_body]
pub(crate) fn default_rng() -> Wyrand {
    Wyrand::default()
}

/// Relies on tinyrand's `RandRange::<u16>::next_range`: a draw from `0..n`
/// lies below `n` (it panics on an empty range, which `requires` leaves out).
#[verifier::external_body]
pub(crate) fn next_below(rng: &mut Wyrand, n: u16) -> (r: u16)
    requires
        0 < n,
    ensures
        r < n,
{
    rng.next_range(0..n)
}

} // verus!
