//! What each material decides when a ray meets it.
//!
//! A diffuse surface always scatters. A metal scatters unless the reflected
//! ray, once blurred, points into the surface. A dielectric always scatters,
//! and chooses between reflecting and refracting.

use vstd::prelude::*;
use crate::color::{clamp, clamped};
use crate::vec3::{near_zero, within};

verus! {

/// The face of a dielectric surface that a ray meets.
#[derive(Clone, Copy, Debug, PartialEq, Eq, Structural)]
pub enum Side {
    /// The ray runs against the normal: it enters the medium. The normal
    /// stands, and the refraction ratio is one over the medium's index.
    Front,
    /// The ray runs along the normal: it leaves the medium. The normal is
    /// flipped, and the refraction ratio is the medium's index.
    Back,
}

/// What a dielectric does with a ray.
#[derive(Clone, Copy, Debug, PartialEq, Eq, Structural)]
pub enum Turn {
    Reflect,
    Refract,
}

/// The direction in which a diffuse surface scatters.
#[derive(Clone, Copy, Debug, PartialEq, Eq, Structural)]
pub enum Diffuse {
    /// The normal plus a random unit vector.
    Offset,
    /// The normal itself, where the sum all but cancels.
    Normal,
}

/// The direction a diffuse surface takes, where `x`, `y`, `z` are the ranks
/// of the components of the normal plus the random unit vector: that sum,
/// unless it is near zero under `bound`; then the normal itself.
pub fn lambertian_direction(x: i64, y: i64, z: i64, bound: i64) -> (d: Diffuse)
    ensures
        d == if within(x, bound) && within(y, bound) && within(z, bound) {
            Diffuse::Normal
        } else {
            Diffuse::Offset
        },
{
    if near_zero(x, y, z, bound) {
        Diffuse::Normal
    } else {
        Diffuse::Offset
    }
}

/// The fuzz of a metal that is made with `fuzziness`, where `one` is the
/// rank of one: `fuzziness` held to the interval from zero to one.
pub fn metal_fuzz(fuzziness: i64, one: i64) -> (fuzz: i64)
    ensures
        fuzz == clamped(fuzziness, 0, one),
        0 <= one ==> 0 <= fuzz <= one,
{
    clamp(fuzziness, 0, one)
}

/// Whether a metal scatters a ray, where `facing` is the rank of the dot
/// product of the outgoing direction with the normal. It does unless the
/// outgoing direction points into the surface; then the ray is absorbed.
pub fn metal_scatters(facing: i64) -> (scatters: bool)
    ensures
        scatters == (facing >= 0),
{
    facing >= 0
}

/// The face that a ray meets, where `facing` is the rank of the dot product
/// of its direction with the normal.
pub fn dielectric_side(facing: i64) -> (side: Side)
    ensures
        side == if facing > 0 { Side::Back } else { Side::Front },
{
    if facing > 0 {
        Side::Back
    } else {
        Side::Front
    }
}

/// When a dielectric reflects: under total internal reflection, which is
/// where `bend` exceeds `one`; where the uniform draw falls below the
/// reflectance; and where no refracted direction exists.
pub open spec fn reflects(bend: i64, one: i64, reflectance: i64, draw: i64, refracts: bool) -> bool {
    bend > one || draw < reflectance || !refracts
}

/// Whether a dielectric reflects or refracts. `bend` is the rank of the
/// refraction ratio times the sine of the angle of incidence and `one` the
/// rank of one; `reflectance` and `draw` are the ranks of the Schlick
/// reflectance and of a uniform draw; `refracts` says whether Snell's law
/// gives a direction.
pub fn dielectric_turn(bend: i64, one: i64, reflectance: i64, draw: i64, refracts: bool) -> (turn:
    Turn)
    ensures
        turn == if reflects(bend, one, reflectance, draw, refracts) {
            Turn::Reflect
        } else {
            Turn::Refract
        },
{
    if bend > one || draw < reflectance || !refracts {
        Turn::Reflect
    } else {
        Turn::Refract
    }
}

/// A dielectric refracts only where a refracted direction exists and there
/// is no total internal reflection; and one that reflects nothing, its
/// reflectance below every draw, refracts wherever it can.
pub proof fn lemma_dielectric_turn(bend: i64, one: i64, reflectance: i64, draw: i64, refracts: bool)
    ensures
        !reflects(bend, one, reflectance, draw, refracts) ==> refracts && bend <= one,
        bend > one ==> reflects(bend, one, reflectance, draw, refracts),
        reflectance <= draw && bend <= one && refracts ==> !reflects(
            bend,
            one,
            reflectance,
            draw,
            refracts,
        ),
{
}

} // verus!
