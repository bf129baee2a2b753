use vstd::prelude::*;
use oorandom::Rand32;

verus! {

/// oorandom's seeded PCG generator, carried through opaquely.
#[verifier::external_type_specification]
#[verifier::external_body]
pub struct ExRand32(Rand32);

/// Relies on oorandom's `Rand32::rand_u32`: any `u32`, advancing the generator.
pub assume_specification[ Rand32::rand_u32 ](rng: &mut Rand32) -> u32;

/// Relies on oorandom's `Rand32::rand_range`: a value in `[start, end)` for a
/// non-empty range (the result is `(x * (end - start)) >> 32` plus `start`
/// for a 32-bit `x`).
pub assume_specification[ Rand32::rand_range ](rng: &mut Rand32, range: core::ops::Range<u32>) -> (r: u32)
    requires
        range.start < range.end,
    ensures
        range.start <= r < range.end,
;

} // verus!
