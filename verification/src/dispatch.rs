//! The work of a rendering, dealt out and gathered in.
//!
//! Each pixel is a piece of work of its own, with a random source of its
//! own. Workers take consecutive shares of the places of the image, deliver
//! their pixels in whatever order they finish, and the pixels are put back
//! into raster order, or the rendering fails.

use vstd::prelude::*;
use vstd::relations::injective_on;
use vstd::set_lib::{lemma_int_range, lemma_map_size, set_int_range};
use crate::color::Pixel;

verus! {

/// The seed of the random source of the worker on the pixel at place `k`,
/// in a rendering with the seed `seed`: their sum, modulo two to the 64.
pub open spec fn seed_at(seed: u64, k: u64) -> u64 {
    ((seed + k) % 0x1_0000_0000_0000_0000) as u64
}

/// The seed of the random source of the worker on the pixel at place `k`.
/// Each worker has a source of its own, so that no state is shared, and with
/// one `seed` each pixel has the same source in every rendering.
pub fn task_seed(seed: u64, k: u64) -> (s: u64)
    ensures
        s == seed_at(seed, k),
{
    seed.wrapping_add(k)
}

/// Under one seed no two places have the same seed.
pub proof fn lemma_seeds_are_distinct(seed: u64, k1: u64, k2: u64)
    requires
        k1 != k2,
    ensures
        seed_at(seed, k1) != seed_at(seed, k2),
{
}

/// The first place of the share of worker `w`, where `count` places are
/// dealt out to `workers` workers in consecutive shares: each share holds
/// `count / workers` places, and each of the first `count % workers` shares
/// one more.
pub open spec fn share_start(count: int, workers: int, w: int) -> int {
    w * (count / workers) + if w < count % workers {
        w
    } else {
        count % workers
    }
}

/// The places of worker `worker` among `workers`, as the first place and the
/// place after the last, if there is such a worker.
pub fn share(count: u64, workers: u64, worker: u64) -> (r: Option<(u64, u64)>)
    ensures
        r.is_some() <==> worker < workers,
        r matches Some((from, to)) ==> {
            &&& from == share_start(count as int, workers as int, worker as int)
            &&& to == share_start(count as int, workers as int, worker + 1)
            &&& from <= to <= count
        },
{
    if worker >= workers {
        return None;
    }
    let base: u64 = count / workers;
    let extra: u64 = count % workers;
    proof {
        lemma_shares_are_consecutive(count as int, workers as int, worker as int);
        lemma_shares_are_consecutive(count as int, workers as int, worker + 1);
        assert(worker * base <= workers * base) by (nonlinear_arith)
            requires
                worker <= workers,
                0 <= base,
        ;
        assert((worker + 1) * base == worker * base + base) by (nonlinear_arith);
        assert(workers * base + extra == count) by (nonlinear_arith)
            requires
                workers > 0,
                base == count / workers,
                extra == count % workers,
        ;
    }
    let given: u64 = if worker < extra {
        worker
    } else {
        extra
    };
    let from: u64 = worker * base + given;
    let size: u64 = if worker < extra {
        base + 1
    } else {
        base
    };
    Some((from, from + size))
}

/// The shares lie one after the other and fill the image: the first begins
/// at place 0, each begins where the one before it ends, the last ends at
/// `count`, and a share holds `count / workers` places or one more.
pub proof fn lemma_shares_are_consecutive(count: int, workers: int, w: int)
    requires
        0 <= count,
        0 < workers,
        0 <= w <= workers,
    ensures
        share_start(count, workers, 0) == 0,
        share_start(count, workers, workers) == count,
        0 <= share_start(count, workers, w) <= count,
        w < workers ==> {
            let size = share_start(count, workers, w + 1) - share_start(count, workers, w);
            size == count / workers + if w < count % workers {
                1int
            } else {
                0int
            }
        },
{
    let base = count / workers;
    let extra = count % workers;
    assert(workers * base + extra == count && 0 <= extra < workers && 0 <= base)
        by (nonlinear_arith)
        requires
            0 <= count,
            0 < workers,
            base == count / workers,
            extra == count % workers,
    ;
    assert(0 * base == 0) by (nonlinear_arith);
    assert((w + 1) * base == w * base + base) by (nonlinear_arith);
    assert(0 <= w * base <= workers * base) by (nonlinear_arith)
        requires
            0 <= w <= workers,
            0 <= base,
    ;
}

/// Every place belongs to the share of a worker: the shares leave no place
/// out. With the shares consecutive, no place belongs to two.
pub proof fn lemma_every_place_has_a_worker(count: int, workers: int, k: int) -> (w: int)
    requires
        0 < workers,
        0 <= k < count,
    ensures
        0 <= w < workers,
        share_start(count, workers, w) <= k < share_start(count, workers, w + 1),
{
    lemma_shares_are_consecutive(count, workers, 0);
    worker_from(count, workers, k, 0)
}

/// The worker at or after `w` whose share holds the place `k`, which lies
/// at or after the start of the share of `w`.
proof fn worker_from(count: int, workers: int, k: int, w: int) -> (found: int)
    requires
        0 < workers,
        0 <= k < count,
        0 <= w < workers,
        share_start(count, workers, w) <= k,
    ensures
        w <= found < workers,
        share_start(count, workers, found) <= k < share_start(count, workers, found + 1),
    decreases workers - w,
{
    lemma_shares_are_consecutive(count, workers, w + 1);
    if k < share_start(count, workers, w + 1) {
        w
    } else {
        worker_from(count, workers, k, w + 1)
    }
}

/// A pixel as a worker delivers it: the pixel's place in raster order, and
/// its color.
#[derive(Clone, Copy, Debug, PartialEq, Eq, Structural)]
pub struct Arrival {
    pub place: usize,
    pub pixel: Pixel,
}

/// Why the pixels that were delivered do not make up the image.
#[derive(Clone, Copy, Debug, PartialEq, Eq, Structural)]
pub enum JoinError {
    /// The arrival at index `at` names a place outside the image.
    OutOfRange { at: usize },
    /// The arrival at index `at` names a place that an earlier one named.
    Duplicate { at: usize },
    /// No arrival names the place `place`.
    Missing { place: usize },
}

/// Whether one of the first `n` arrivals names the place `p`.
pub open spec fn delivered_before(arrivals: Seq<Arrival>, n: int, p: int) -> bool {
    exists|i: int| 0 <= i < n && (#[trigger] arrivals[i]).place == p
}

/// Whether some arrival names the place `p`.
pub open spec fn delivered(arrivals: Seq<Arrival>, p: int) -> bool {
    delivered_before(arrivals, arrivals.len() as int, p)
}

/// Whether the arrival at index `at` has no place in an image of `count`
/// pixels: its place lies outside, or an earlier arrival has taken it.
pub open spec fn is_stray(arrivals: Seq<Arrival>, count: int, at: int) -> bool {
    arrivals[at].place >= count || delivered_before(arrivals, at, arrivals[at].place as int)
}

/// Whether none of the first `n` arrivals is stray.
pub open spec fn none_stray_before(arrivals: Seq<Arrival>, count: int, n: int) -> bool {
    forall|j: int| 0 <= j < n ==> !is_stray(arrivals, count, j)
}

/// Whether the arrivals make up an image of `count` pixels: none is stray,
/// and every place is named.
pub open spec fn is_complete(arrivals: Seq<Arrival>, count: int) -> bool {
    &&& none_stray_before(arrivals, count, arrivals.len() as int)
    &&& forall|p: int| 0 <= p < count ==> delivered(arrivals, p)
}

/// Puts the pixels of an image of `count` pixels, delivered in any order,
/// into raster order.
///
/// The image is returned exactly when each of its places is named by one
/// arrival and no arrival names anything else. Otherwise the first stray
/// arrival is reported, and if there is none, the first place that no
/// arrival names.
pub fn assemble(count: usize, arrivals: &Vec<Arrival>) -> (r: Result<Vec<Pixel>, JoinError>)
    ensures
        match r {
            Ok(image) => {
                &&& image.len() == count
                &&& arrivals.len() == count
                &&& is_complete(arrivals@, count as int)
                &&& forall|j: int|
                    0 <= j < arrivals.len() ==> (#[trigger] arrivals[j]).place < count
                        && image[arrivals[j].place as int] == arrivals[j].pixel
            },
            Err(JoinError::OutOfRange { at }) => {
                &&& at < arrivals.len()
                &&& none_stray_before(arrivals@, count as int, at as int)
                &&& arrivals[at as int].place >= count
            },
            Err(JoinError::Duplicate { at }) => {
                &&& at < arrivals.len()
                &&& none_stray_before(arrivals@, count as int, at as int)
                &&& arrivals[at as int].place < count
                &&& delivered_before(arrivals@, at as int, arrivals[at as int].place as int)
            },
            Err(JoinError::Missing { place }) => {
                &&& none_stray_before(arrivals@, count as int, arrivals.len() as int)
                &&& place < count
                &&& !delivered(arrivals@, place as int)
                &&& forall|p: int| 0 <= p < place ==> delivered(arrivals@, p)
            },
        },
{
    let mut slots: Vec<Option<Pixel>> = Vec::new();
    let mut k: usize = 0;
    while k < count
        invariant
            k <= count,
            slots.len() == k,
            forall|p: int| 0 <= p < k ==> (#[trigger] slots[p]).is_none(),
        decreases count - k,
    {
        slots.push(None);
        k += 1;
    }
    let mut j: usize = 0;
    while j < arrivals.len()
        invariant
            j <= arrivals.len(),
            slots.len() == count,
            none_stray_before(arrivals@, count as int, j as int),
            forall|p: int|
                0 <= p < count ==> ((#[trigger] slots[p]).is_some() <==> delivered_before(
                    arrivals@,
                    j as int,
                    p,
                )),
            forall|i: int|
                0 <= i < j ==> (#[trigger] arrivals[i]).place < count && slots[arrivals[i].place as int]
                    == Some(arrivals[i].pixel),
        decreases arrivals.len() - j,
    {
        let arrival: Arrival = arrivals[j];
        if arrival.place >= count {
            return Err(JoinError::OutOfRange { at: j });
        }
        if slots[arrival.place].is_some() {
            return Err(JoinError::Duplicate { at: j });
        }
        let ghost before = slots@;
        slots.set(arrival.place, Some(arrival.pixel));
        proof {
            assert(!delivered_before(arrivals@, j as int, arrival.place as int));
            assert(!is_stray(arrivals@, count as int, j as int));
            assert forall|p: int| 0 <= p < count implies ((#[trigger] slots[p]).is_some()
                <==> delivered_before(arrivals@, j + 1, p)) by {
                if p == arrival.place {
                    assert(arrivals[j as int].place == p);
                } else {
                    assert(slots[p] == before[p]);
                    if delivered_before(arrivals@, j + 1, p) {
                        let i = choose|i: int| 0 <= i < j + 1 && (#[trigger] arrivals[i]).place == p;
                        assert(i < j);
                    }
                    if delivered_before(arrivals@, j as int, p) {
                        let i = choose|i: int| 0 <= i < j && (#[trigger] arrivals[i]).place == p;
                        assert(0 <= i < j + 1 && arrivals[i].place == p);
                    }
                }
            }
            assert forall|i: int| 0 <= i < j + 1 implies (#[trigger] arrivals[i]).place < count
                && slots[arrivals[i].place as int] == Some(arrivals[i].pixel) by {
                if i < j {
                    assert(before[arrivals[i].place as int] == Some(arrivals[i].pixel));
                    assert(delivered_before(arrivals@, j as int, arrivals[i].place as int));
                    assert(arrivals[i].place != arrival.place);
                }
            }
            assert forall|i: int| 0 <= i < j + 1 implies !is_stray(arrivals@, count as int, i) by {}
        }
        j += 1;
    }
    let mut image: Vec<Pixel> = Vec::new();
    let mut p: usize = 0;
    while p < count
        invariant
            p <= count,
            j == arrivals.len(),
            slots.len() == count,
            image.len() == p,
            forall|q: int| 0 <= q < p ==> slots[q] == Some(#[trigger] image[q]),
            none_stray_before(arrivals@, count as int, j as int),
            forall|i: int|
                0 <= i < j ==> (#[trigger] arrivals[i]).place < count && slots[arrivals[i].place as int]
                    == Some(arrivals[i].pixel),
            forall|q: int|
                0 <= q < count ==> ((#[trigger] slots[q]).is_some() <==> delivered_before(
                    arrivals@,
                    j as int,
                    q,
                )),
        decreases count - p,
    {
        match slots[p] {
            None => {
                proof {
                    assert forall|q: int| 0 <= q < p implies delivered(arrivals@, q) by {
                        assert(slots[q] == Some(image[q]));
                    }
                }
                return Err(JoinError::Missing { place: p });
            },
            Some(pixel) => {
                image.push(pixel);
            },
        }
        p += 1;
    }
    proof {
        assert forall|q: int| 0 <= q < count implies delivered(arrivals@, q) by {
            assert(slots[q] == Some(image[q]));
        }
        lemma_complete_has_count_arrivals(arrivals@, count as int);
        assert forall|i: int| 0 <= i < arrivals.len() implies (#[trigger] arrivals[i]).place < count
            && image[arrivals[i].place as int] == arrivals[i].pixel by {
            let q = arrivals[i].place as int;
            assert(slots[q] == Some(image[q]));
        }
    }
    Ok(image)
}

/// Where no arrival is stray, no two arrivals name one place.
pub proof fn lemma_places_are_distinct(arrivals: Seq<Arrival>, count: int, i: int, j: int)
    requires
        none_stray_before(arrivals, count, arrivals.len() as int),
        0 <= i < arrivals.len(),
        0 <= j < arrivals.len(),
        arrivals[i].place == arrivals[j].place,
    ensures
        i == j,
{
    if i < j {
        assert(!is_stray(arrivals, count, j));
        assert(delivered_before(arrivals, j, arrivals[j].place as int));
    } else if j < i {
        assert(!is_stray(arrivals, count, i));
        assert(delivered_before(arrivals, i, arrivals[i].place as int));
    }
}

/// The arrivals that make up an image are as many as its pixels.
pub proof fn lemma_complete_has_count_arrivals(arrivals: Seq<Arrival>, count: int)
    requires
        0 <= count,
        is_complete(arrivals, count),
    ensures
        arrivals.len() == count,
{
    let n = arrivals.len() as int;
    let indices = set_int_range(0, n);
    let places = set_int_range(0, count);
    let f = |i: int| arrivals[i].place as int;
    lemma_int_range(0, n);
    lemma_int_range(0, count);
    assert(injective_on(f, indices)) by {
        assert forall|i: int, j: int|
            indices.contains(i) && indices.contains(j) && #[trigger] f(i) == #[trigger] f(j) implies i
            == j by {
            lemma_places_are_distinct(arrivals, count, i, j);
        }
    }
    assert(indices.map(f) =~= places) by {
        assert forall|p: int| places.contains(p) implies indices.map(f).contains(p) by {
            assert(delivered(arrivals, p));
            let i = choose|i: int| 0 <= i < n && (#[trigger] arrivals[i]).place == p;
            assert(indices.contains(i) && f(i) == p);
        }
        assert forall|p: int| indices.map(f).contains(p) implies places.contains(p) by {
            let i = choose|i: int| indices.contains(i) && f(i) == p;
            assert(!is_stray(arrivals, count, i));
        }
    }
    lemma_map_size(indices, places, f);
}

} // verus!
