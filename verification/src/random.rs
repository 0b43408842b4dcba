//! The dice that levels and spawns are drawn with.

use bracket_lib::prelude::RandomNumberGenerator;
use vstd::prelude::*;

verus! {

/// `bracket_lib::prelude::RandomNumberGenerator`, whose inside the
/// verifier does not see.
#[verifier::external_type_specification]
#[verifier::external_body]
pub struct ExRandomNumberGenerator(RandomNumberGenerator);

/// Calls `RandomNumberGenerator::roll_dice`, which adds up `n` draws from
/// `1..=die_type`. Trusted: the sum lies between `n` and `n * die_type`.
/// Which value comes is left open. The call panics on a die without faces
/// and where the sum leaves `i32`, so such dice are not admitted.
#[verifier::external_body]
pub(crate) fn roll_dice(rng: &mut RandomNumberGenerator, n: i32, die_type: i32) -> (total: i32)
    requires
        0 <= n,
        1 <= die_type < i32::MAX,
        n * die_type <= i32::MAX,
    ensures
        n <= total <= n * die_type,
{
    rng.roll_dice(n, die_type)
}

} // verus!
