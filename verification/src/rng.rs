//! The randomness source, and the one place the library leans on an outside
//! crate.  Every verified consumer states what holds of every outcome; no
//! contract here pins a drawn value down.

use vstd::prelude::*;

verus! {

/// Relies on rand::random: a fresh draw from the thread-local generator.
/// Nothing can be promised of a random value.
#[verifier::external_body]
pub fn random_u64() -> u64 {
    rand::random::<u64>()
}

/// A draw mapped into the half-open range `[lo, hi)` by a remainder.
pub fn random_raw_in(lo: i64, hi: i64) -> (r: i64)
    requires
        lo < hi,
    ensures
        lo <= r < hi,
{
    let span: u64 = ((hi as i128) - (lo as i128)) as u64;
    let raw: u64 = random_u64();
    let x: u64 = raw % span;
    proof {
        vstd::arithmetic::div_mod::lemma_mod_division_less_than_divisor(raw as int, span as int);
    }
    ((lo as i128) + (x as i128)) as i64
}

} // verus!
