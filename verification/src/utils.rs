use vstd::prelude::*;

use crate::fixed::Fixed;

verus! {

/// Relies on rand::random_range: a draw from a non-empty half-open integer
/// range lies in that range. Nothing more is assumed of the value.
#[verifier::external_body]
fn rand_i64(lo: i64, hi: i64) -> (r: i64)
    requires
        lo < hi,
    ensures
        lo <= r < hi,
{
    rand::random_range(lo..hi)
}

/// A uniform fixed-point draw from the half-open interval [0, 1).
pub fn random() -> (r: Fixed)
    ensures
        0 <= r.val() < 65536,
{
    Fixed::new(rand_i64(0, 65536))
}

/// A uniform fixed-point draw from the half-open interval [min, max).
pub fn random_range(min: Fixed, max: Fixed) -> (r: Fixed)
    requires
        min.val() < max.val(),
    ensures
        min.val() <= r.val() < max.val(),
{
    Fixed::new(rand_i64(min.raw, max.raw))
}

/// `x` forced into the closed interval [min, max]: `min` when `x` lies below
/// it, `max` when `x` lies above it, `x` itself otherwise.
pub fn clamp(x: Fixed, min: Fixed, max: Fixed) -> (r: Fixed)
    ensures
        r.val() == if x.val() < min.val() {
            min.val()
        } else if x.val() > max.val() {
            max.val()
        } else {
            x.val()
        },
{
    if x.raw < min.raw {
        min
    } else if x.raw > max.raw {
        max
    } else {
        x
    }
}

} // verus!
