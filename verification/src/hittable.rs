//! The record of a ray meeting a surface.

use vstd::prelude::*;

verus! {

/// Where a ray meets a scene: the rank of the ray parameter, and the place in
/// the scene of the surface that was hit, by which its material is found.
#[derive(Clone, Copy, Debug, PartialEq, Eq, Structural)]
pub struct HitRecord {
    pub t: i64,
    pub surface: usize,
}

} // verus!
