//! The nearest hit of a ray among the surfaces of a scene.

use vstd::prelude::*;
use crate::hittable::HitRecord;
use crate::sphere::{admissible, first_hit, hit, Chord};

verus! {

/// Whether `rec` is the nearest hit among the first `n` surfaces of `ls` on
/// the interval from `t_min` to `t_max`: it is the hit of the surface it
/// names, no surface among them is hit at a smaller parameter, and none
/// before it at the same one. No record is the nearest hit exactly when none
/// of them is hit.
pub open spec fn is_nearest_among(
    ls: Seq<Option<Chord>>,
    n: int,
    t_min: i64,
    t_max: i64,
    rec: Option<HitRecord>,
) -> bool {
    match rec {
        None => forall|i: int| 0 <= i < n ==> (#[trigger] first_hit(ls[i], t_min, t_max)).is_none(),
        Some(r) => {
            &&& 0 <= r.surface < n
            &&& first_hit(ls[r.surface as int], t_min, t_max) == Some(r.t)
            &&& forall|i: int|
                0 <= i < n ==> match #[trigger] first_hit(ls[i], t_min, t_max) {
                    Some(t) => r.t <= t,
                    None => true,
                }
            &&& forall|i: int|
                0 <= i < r.surface ==> match #[trigger] first_hit(ls[i], t_min, t_max) {
                    Some(t) => r.t < t,
                    None => true,
                }
        },
    }
}

/// Whether `rec` is the nearest hit among all the surfaces of `ls`.
pub open spec fn is_nearest(
    ls: Seq<Option<Chord>>,
    t_min: i64,
    t_max: i64,
    rec: Option<HitRecord>,
) -> bool {
    is_nearest_among(ls, ls.len() as int, t_min, t_max, rec)
}

/// Whether every chord of `ls` has its roots in order.
pub open spec fn all_ordered(ls: Seq<Option<Chord>>) -> bool {
    forall|i: int| 0 <= i < ls.len() ==> match #[trigger] ls[i] {
        Some(chord) => chord.ordered(),
        None => true,
    }
}

/// The surfaces of a scene as one ray meets them, in scene order: for each the
/// roots of its quadratic, or nothing where the ray's line misses it.
pub struct HittableList {
    pub ls: Vec<Option<Chord>>,
}

impl HittableList {
    pub fn new(ls: Vec<Option<Chord>>) -> (list: HittableList)
        ensures
            list.ls == ls,
    {
        HittableList { ls }
    }

    /// The nearest hit on the interval from `t_min` to `t_max`. The surfaces
    /// are asked in order, each on an interval that ends at the closest hit
    /// found so far, and of two surfaces hit at one parameter the earlier
    /// stays.
    pub fn hit(&self, t_min: i64, t_max: i64) -> (rec: Option<HitRecord>)
        ensures
            is_nearest(self.ls@, t_min, t_max, rec),
    {
        let mut closest_so_far: i64 = t_max;
        let mut rec: Option<HitRecord> = None;
        let mut i: usize = 0;
        while i < self.ls.len()
            invariant
                i <= self.ls.len(),
                is_nearest_among(self.ls@, i as int, t_min, t_max, rec),
                closest_so_far <= t_max,
                closest_so_far == match rec {
                    Some(r) => r.t,
                    None => t_max,
                },
            decreases self.ls.len() - i,
        {
            let entry = &self.ls[i];
            proof {
                match entry {
                    Some(chord) => {
                        use_type_invariant(chord);
                    },
                    None => {},
                }
            }
            match hit(entry, t_min, closest_so_far) {
                None => {},
                Some(t) => {
                    if rec.is_none() || t < closest_so_far {
                        closest_so_far = t;
                        rec = Some(HitRecord { t, surface: i });
                    }
                },
            }
            i += 1;
        }
        rec
    }
}

/// A scene has one nearest hit: two records that are each the nearest are
/// the same.
pub proof fn lemma_nearest_is_unique(
    ls: Seq<Option<Chord>>,
    t_min: i64,
    t_max: i64,
    a: Option<HitRecord>,
    b: Option<HitRecord>,
)
    requires
        is_nearest(ls, t_min, t_max, a),
        is_nearest(ls, t_min, t_max, b),
    ensures
        a == b,
{
    match (a, b) {
        (Some(x), Some(y)) => {
            assert(first_hit(ls[x.surface as int], t_min, t_max) == Some(x.t));
            assert(first_hit(ls[y.surface as int], t_min, t_max) == Some(y.t));
            assert(x.t == y.t);
            assert(x.surface == y.surface);
        },
        (Some(x), None) => {
            assert(first_hit(ls[x.surface as int], t_min, t_max) == Some(x.t));
        },
        (None, Some(y)) => {
            assert(first_hit(ls[y.surface as int], t_min, t_max) == Some(y.t));
        },
        (None, None) => {},
    }
}

/// The nearest hit lies at the least admissible root of the whole scene: it
/// is admissible, and no root of any chord is admissible and smaller. Where
/// nothing is hit, no root of any chord is admissible.
pub proof fn lemma_nearest_is_least_root(
    ls: Seq<Option<Chord>>,
    t_min: i64,
    t_max: i64,
    rec: Option<HitRecord>,
)
    requires
        all_ordered(ls),
        is_nearest(ls, t_min, t_max, rec),
    ensures
        rec matches Some(r) ==> admissible(r.t, t_min, t_max),
        forall|i: int|
            0 <= i < ls.len() ==> match (rec, #[trigger] ls[i]) {
                (Some(r), Some(chord)) => {
                    &&& admissible(chord.spec_near(), t_min, t_max) ==> r.t <= chord.spec_near()
                    &&& admissible(chord.spec_far(), t_min, t_max) ==> r.t <= chord.spec_far()
                },
                (None, Some(chord)) => {
                    &&& !admissible(chord.spec_near(), t_min, t_max)
                    &&& !admissible(chord.spec_far(), t_min, t_max)
                },
                _ => true,
            },
{
    match rec {
        Some(r) => {
            assert(first_hit(ls[r.surface as int], t_min, t_max) == Some(r.t));
            assert(ls[r.surface as int].is_some());
        },
        None => {},
    }
    assert forall|i: int| 0 <= i < ls.len() implies match (rec, #[trigger] ls[i]) {
        (Some(r), Some(chord)) => {
            &&& admissible(chord.spec_near(), t_min, t_max) ==> r.t <= chord.spec_near()
            &&& admissible(chord.spec_far(), t_min, t_max) ==> r.t <= chord.spec_far()
        },
        (None, Some(chord)) => {
            &&& !admissible(chord.spec_near(), t_min, t_max)
            &&& !admissible(chord.spec_far(), t_min, t_max)
        },
        _ => true,
    } by {
        match ls[i] {
            Some(chord) => {
                assert(first_hit(ls[i], t_min, t_max) == chord.first_hit(t_min, t_max));
            },
            None => {},
        }
    }
}

/// The nearest hit does not depend on the order of the surfaces. Asked in
/// reverse order, a scene is hit exactly when it is hit in order, and at the
/// same parameter; and where no other surface is hit at that parameter, it is
/// the same surface that is hit, now found at the mirrored place.
pub proof fn lemma_nearest_of_reversed(
    ls: Seq<Option<Chord>>,
    t_min: i64,
    t_max: i64,
    forward: Option<HitRecord>,
    backward: Option<HitRecord>,
)
    requires
        is_nearest(ls, t_min, t_max, forward),
        is_nearest(ls.reverse(), t_min, t_max, backward),
    ensures
        forward.is_none() <==> backward.is_none(),
        match (forward, backward) {
            (Some(f), Some(b)) => {
                &&& b.t == f.t
                &&& (forall|i: int|
                    0 <= i < ls.len() && i != f.surface ==> #[trigger] first_hit(
                        ls[i],
                        t_min,
                        t_max,
                    ) != Some(f.t)) ==> b.surface == ls.len() - 1 - f.surface
            },
            _ => true,
        },
{
    let rev = ls.reverse();
    let n = ls.len() as int;
    assert(rev.len() == n);
    assert forall|i: int| 0 <= i < n implies #[trigger] rev[i] == ls[n - 1 - i] by {}
    match forward {
        Some(f) => {
            let j = n - 1 - f.surface;
            assert(rev[j] == ls[f.surface as int]);
            assert(first_hit(rev[j], t_min, t_max) == Some(f.t));
            assert(backward.is_some());
            let b = backward.unwrap();
            let k = n - 1 - b.surface;
            assert(rev[b.surface as int] == ls[k]);
            assert(first_hit(ls[k], t_min, t_max) == Some(b.t));
            assert(f.t <= b.t);
            assert(b.t <= f.t);
        },
        None => {
            match backward {
                Some(b) => {
                    let k = n - 1 - b.surface;
                    assert(rev[b.surface as int] == ls[k]);
                    assert(first_hit(ls[k], t_min, t_max) == Some(b.t));
                },
                None => {},
            }
        },
    }
}

} // verus!
