//! Which root of a sphere's quadratic a ray takes.

use vstd::prelude::*;

verus! {

/// Whether the parameter `t` lies in the closed interval from `t_min` to
/// `t_max`.
pub open spec fn admissible(t: i64, t_min: i64, t_max: i64) -> bool {
    t_min <= t <= t_max
}

/// The two parameters at which a ray's line meets a sphere, by rank, the
/// smaller first. A line that touches the sphere has both equal.
#[derive(Clone, Copy, Debug)]
pub struct Chord {
    near: i64,
    far: i64,
}

impl Chord {
    /// The smaller root.
    pub closed spec fn spec_near(&self) -> i64 {
        self.near
    }

    /// The larger root.
    pub closed spec fn spec_far(&self) -> i64 {
        self.far
    }

    /// Every chord has its roots in order.
    #[verifier::type_invariant]
    pub open spec fn ordered(self) -> bool {
        self.spec_near() <= self.spec_far()
    }

    /// The root that a ray takes on the interval from `t_min` to `t_max`: the
    /// smaller one if it is admissible, else the larger one if that is.
    pub open spec fn first_hit(self, t_min: i64, t_max: i64) -> Option<i64> {
        if admissible(self.spec_near(), t_min, t_max) {
            Some(self.spec_near())
        } else if admissible(self.spec_far(), t_min, t_max) {
            Some(self.spec_far())
        } else {
            None
        }
    }

    /// The chord with the roots `a` and `b`, given in either order.
    pub fn new(a: i64, b: i64) -> (c: Chord)
        ensures
            c.ordered(),
            c.spec_near() == if a <= b { a } else { b },
            c.spec_far() == if a <= b { b } else { a },
    {
        if a <= b {
            Chord { near: a, far: b }
        } else {
            Chord { near: b, far: a }
        }
    }

    /// The smaller root.
    #[verifier::when_used_as_spec(spec_near)]
    pub fn near(&self) -> (t: i64)
        ensures
            t == self.spec_near(),
    {
        self.near
    }

    /// The larger root.
    #[verifier::when_used_as_spec(spec_far)]
    pub fn far(&self) -> (t: i64)
        ensures
            t == self.spec_far(),
    {
        self.far
    }

    /// Tries the smaller root, then the larger, against the interval from
    /// `t_min` to `t_max`.
    pub fn hit(&self, t_min: i64, t_max: i64) -> (t: Option<i64>)
        ensures
            t == self.first_hit(t_min, t_max),
    {
        if t_min <= self.near && self.near <= t_max {
            Some(self.near)
        } else if t_min <= self.far && self.far <= t_max {
            Some(self.far)
        } else {
            None
        }
    }
}

/// Whether a sphere can be made with the radius of rank `radius`: with any
/// but zero. A negative radius makes a sphere whose normals point inward.
pub fn valid_radius(radius: i64) -> (valid: bool)
    ensures
        valid == (radius != 0),
{
    radius != 0
}

/// Whether the quadratic of a ray and a sphere has roots, where
/// `discriminant` is the rank of its discriminant: it has unless the
/// discriminant is negative.
pub fn has_roots(discriminant: i64) -> (roots: bool)
    ensures
        roots == (discriminant >= 0),
{
    discriminant >= 0
}

/// What `hit` returns for a sphere that the ray's line may miss: nothing where
/// the quadratic has no root, else the chord's first admissible root.
pub open spec fn first_hit(crossing: Option<Chord>, t_min: i64, t_max: i64) -> Option<i64> {
    match crossing {
        None => None,
        Some(chord) => chord.first_hit(t_min, t_max),
    }
}

/// The parameter at which a ray hits a sphere on the interval from `t_min` to
/// `t_max`, where `crossing` holds the roots of the sphere's quadratic, or
/// nothing if its discriminant is negative.
pub fn hit(crossing: &Option<Chord>, t_min: i64, t_max: i64) -> (t: Option<i64>)
    ensures
        t == first_hit(*crossing, t_min, t_max),
{
    match crossing {
        None => None,
        Some(chord) => chord.hit(t_min, t_max),
    }
}

/// A hit is the least admissible root: it is admissible, no admissible root
/// of the chord lies below it, and there is none exactly when neither root is
/// admissible.
pub proof fn lemma_hit_is_least_admissible(chord: Chord, t_min: i64, t_max: i64)
    requires
        chord.ordered(),
    ensures
        match chord.first_hit(t_min, t_max) {
            Some(t) => {
                &&& admissible(t, t_min, t_max)
                &&& (t == chord.spec_near() || t == chord.spec_far())
                &&& admissible(chord.spec_near(), t_min, t_max) ==> t <= chord.spec_near()
                &&& admissible(chord.spec_far(), t_min, t_max) ==> t <= chord.spec_far()
            },
            None => {
                &&& !admissible(chord.spec_near(), t_min, t_max)
                &&& !admissible(chord.spec_far(), t_min, t_max)
            },
        },
{
}

/// A sphere wholly ahead of the ray's origin is hit where the ray enters it.
pub proof fn lemma_outside_hits_near(chord: Chord, t_min: i64, t_max: i64)
    requires
        chord.ordered(),
        t_min <= chord.spec_near(),
        chord.spec_far() <= t_max,
    ensures
        chord.first_hit(t_min, t_max) == Some(chord.spec_near()),
{
}

/// A ray that starts inside a sphere has exactly one admissible root, the
/// larger, and hits there.
pub proof fn lemma_inside_hits_far(chord: Chord, t_min: i64, t_max: i64)
    requires
        chord.ordered(),
        chord.spec_near() < t_min <= chord.spec_far() <= t_max,
    ensures
        !admissible(chord.spec_near(), t_min, t_max),
        admissible(chord.spec_far(), t_min, t_max),
        chord.first_hit(t_min, t_max) == Some(chord.spec_far()),
{
}

/// A sphere wholly behind the origin, or wholly beyond the interval, is not
/// hit.
pub proof fn lemma_behind_or_beyond_misses(chord: Chord, t_min: i64, t_max: i64)
    requires
        chord.ordered(),
        chord.spec_far() < t_min || t_max < chord.spec_near(),
    ensures
        chord.first_hit(t_min, t_max).is_none(),
{
}

} // verus!
