//! The library's single source of randomness: a bounded draw from the
//! thread-local generator, and the random snow glyph built on it.

use vstd::prelude::*;

verus! {

use crate::is_snow_glyph;

/// Relies on rand::Rng::gen_range on rand::thread_rng: a draw from the
/// half-open range `0..n` is uniform and always below `n` (the range must
/// be non-empty, or gen_range panics).
#[verifier::external_body]
pub(crate) fn random_below(n: u32) -> (r: u32)
    requires
        n >= 1,
    ensures
        r < n,
{
    rand::Rng::gen_range(&mut rand::thread_rng(), 0..n)
}

/// One snow glyph, chosen uniformly among the three of the alphabet.
pub fn random_snowflake() -> (c: char)
    ensures
        is_snow_glyph(c),
{
    let num: u32 = random_below(3);
    match num {
        0 => '.',
        1 => '+',
        _ => '*',
    }
}

} // verus!
