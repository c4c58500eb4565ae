use vstd::prelude::*;

use rltk::RandomNumberGenerator;

verus! {

#[verifier::external_type_specification]
#[verifier::external_body]
pub struct ExRandomNumberGenerator(RandomNumberGenerator);

/// Relies on rltk's `RandomNumberGenerator::new`: a generator seeded from the system.
#[verifier::external_body]
pub(crate) fn new_rng() -> (r: RandomNumberGenerator) {
    RandomNumberGenerator::new()
}

/// Relies on rltk's `RandomNumberGenerator::range`: a value from `lo` up to, but not
/// including, `hi`; it panics on an empty range.
#[verifier::external_body]
pub(crate) fn random_range(rng: &mut RandomNumberGenerator, lo: i32, hi: i32) -> (r: i32)
    requires
        lo < hi,
    ensures
        lo <= r < hi,
{
    rng.range(lo, hi)
}

/// Relies on rltk's `RandomNumberGenerator::roll_dice` with a single die: a value from 1
/// to `sides`; it draws from `1..sides + 1`, which must not be empty or overflow.
#[verifier::external_body]
pub(crate) fn roll_die(rng: &mut RandomNumberGenerator, sides: i32) -> (r: i32)
    requires
        1 <= sides < i32::MAX,
    ensures
        1 <= r <= sides,
{
    rng.roll_dice(1, sides)
}

} // verus!
