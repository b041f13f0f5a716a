//! The part of the vector algebra that order alone decides.

use vstd::prelude::*;

verus! {

/// Whether a component of rank `c` is smaller in magnitude than the bound of
/// rank `bound`.
pub open spec fn within(c: i64, bound: i64) -> bool {
    -(bound as int) < c < bound
}

/// Whether the vector with components of ranks `x`, `y`, `z` is near zero:
/// each component is smaller in magnitude than `bound`. With a bound that is
/// not positive no vector is.
pub fn near_zero(x: i64, y: i64, z: i64, bound: i64) -> (near: bool)
    ensures
        near == (within(x, bound) && within(y, bound) && within(z, bound)),
{
    if bound <= 0 {
        return false;
    }
    let low: i64 = -bound;
    low < x && x < bound && low < y && y < bound && low < z && z < bound
}

/// Whether a sample is kept by a rejection sampler of the unit ball or the
/// unit disk, where `len_squared` is the rank of the sample's squared length
/// and `one` the rank of one: it is kept if it lies strictly inside.
pub fn in_unit_ball(len_squared: i64, one: i64) -> (inside: bool)
    ensures
        inside == (len_squared < one),
{
    len_squared < one
}

/// Whether a sample lies in the hemisphere of a normal, where `facing` is
/// the rank of its dot product with the normal. A sample that does not is
/// flipped.
pub fn in_hemisphere(facing: i64) -> (inside: bool)
    ensures
        inside == (facing > 0),
{
    facing > 0
}

/// Whether Snell's law gives a refracted direction, where `discriminant` is
/// the rank of one minus the squared ratio times the squared sine of the
/// angle of incidence: it does unless the discriminant is zero or negative.
pub fn refracts(discriminant: i64) -> (exists: bool)
    ensures
        exists == (discriminant > 0),
{
    discriminant > 0
}

} // verus!
