//! The executable layout algorithm: window precomputation, the collision
//! predicate, the jiggle search and the placement loop.

use vstd::pervasive::VecAdditionalExecFns;
use vstd::prelude::*;

use crate::model::base_candidate;
use crate::model::beeswarm_spec;
use crate::model::candidate_at;
use crate::model::collides;
use crate::model::lemma_dist_sq_to_symmetric;
use crate::model::lemma_swarm_spec_none;
use crate::model::lemma_window_iff;
use crate::model::opt_swarm_view;
use crate::model::sorted;
use crate::model::swarm_spec;
use crate::model::dist_sq;
use crate::model::find_clear;
use crate::model::jiggle_spec;
use crate::model::jiggle_step;
use crate::model::lemma_find_clear_one_dim;
use crate::model::max_iterations;
use crate::model::opt_point_view;
use crate::model::scan_iteration;
use crate::model::tentative_wf;
use crate::model::DISP_LIMIT;
use crate::model::intersecting_upto;
use crate::model::lemma_intersecting_upto_empty_iff;
use crate::model::swarm_view;
use crate::model::swarm_wf;
use crate::model::dist_sq_to;
use crate::model::first_qualifying;
use crate::model::last_qualifying;
use crate::model::point_wf;
use crate::model::qualifies;
use crate::model::values_bounded;
use crate::model::window_hi;
use crate::model::window_lo;
use crate::model::DIM_LIMIT;
use crate::model::RADIUS_LIMIT;

verus! {

/// Squared Euclidean distance between two points, computed exactly.
pub fn euclidean_distance_sq(a: &Vec<i64>, b: &Vec<i64>) -> (r: i128)
    requires
        a@.len() == b@.len(),
        a@.len() <= DIM_LIMIT,
        point_wf(a@, a@.len() as int),
        point_wf(b@, b@.len() as int),
    ensures
        r == dist_sq(a@, b@),
{
    let n: usize = a.len();
    let mut acc: i128 = 0;
    let mut k: usize = 0;
    while k < n
        invariant
            0 <= k <= n,
            n == a@.len() == b@.len(),
            n <= DIM_LIMIT,
            point_wf(a@, n as int),
            point_wf(b@, n as int),
            acc == dist_sq_to(a@, b@, k as int),
            acc <= k * 0x100_0000_0000_0000_0000_0000_0000,
        decreases n - k,
    {
        let d: i64 = a[k] - b[k];
        proof {
            assert(0 <= (d as int) * (d as int) <= 0x100_0000_0000_0000_0000_0000_0000)
                by (nonlinear_arith)
                requires
                    -0x10_0000_0000_0000 <= d as int <= 0x10_0000_0000_0000,
            ;
        }
        let dd: i128 = (d as i128) * (d as i128);
        acc = acc + dd;
        k = k + 1;
    }
    acc
}

/// The collision check: returns the already-placed points that candidate
/// point `candidate` (to be placed at index `idx`) overlaps, considering
/// only indices inside the window `[lo, hi]` and skipping `idx` itself.
/// The candidate collides exactly when the result is non-empty.
pub fn intersections(
    placed: &Vec<Vec<i64>>,
    radius: i64,
    idx: usize,
    candidate: &Vec<i64>,
    lo: usize,
    hi: usize,
) -> (r: Vec<Vec<i64>>)
    requires
        swarm_wf(swarm_view(placed@), candidate@.len() as int),
        point_wf(candidate@, candidate@.len() as int),
        candidate@.len() <= DIM_LIMIT,
        1 <= radius <= RADIUS_LIMIT,
    ensures
        swarm_view(r@) == intersecting_upto(
            swarm_view(placed@),
            radius,
            idx as int,
            candidate@,
            lo as int,
            hi as int,
            placed@.len() as int,
        ),
        r@.len() == 0 <==> !collides(
            swarm_view(placed@),
            radius,
            idx as int,
            candidate@,
            lo as int,
            hi as int,
        ),
{
    let ghost pv = swarm_view(placed@);
    proof {
        assert(0 <= (radius as int) * (radius as int) <= 0x1_0000_0000_0000_0000)
            by (nonlinear_arith)
            requires
                1 <= radius as int <= 0x1_0000_0000,
        ;
    }
    let rr: i128 = (radius as i128) * (radius as i128);
    let n: usize = placed.len();
    let mut result: Vec<Vec<i64>> = Vec::new();
    let mut k: usize = 0;
    while k < n
        invariant
            0 <= k <= n,
            n == placed@.len(),
            pv == swarm_view(placed@),
            pv.len() == n,
            swarm_wf(pv, candidate@.len() as int),
            point_wf(candidate@, candidate@.len() as int),
            candidate@.len() <= DIM_LIMIT,
            1 <= radius <= RADIUS_LIMIT,
            rr == (radius as int) * (radius as int),
            swarm_view(result@) == intersecting_upto(
                pv,
                radius,
                idx as int,
                candidate@,
                lo as int,
                hi as int,
                k as int,
            ),
        decreases n - k,
    {
        let p: &Vec<i64> = &placed[k];
        proof {
            assert(pv[k as int] == p@);
        }
        let d: i128 = euclidean_distance_sq(p, candidate);
        let ghost before = result@;
        if lo <= k && k <= hi && k != idx && d <= rr {
            let q: Vec<i64> = p.clone();
            proof {
                assert(q@ =~= p@);
            }
            result.push(q);
            proof {
                assert(swarm_view(result@) =~= swarm_view(before).push(q@));
            }
        }
        k = k + 1;
    }
    proof {
        lemma_intersecting_upto_empty_iff(
            pv,
            radius,
            idx as int,
            candidate@,
            lo as int,
            hi as int,
            n as int,
        );
    }
    result
}

/// Does index `k` qualify for index `i`'s window: do the two input values
/// differ by less than twice the radius?
fn is_qualifying(sorted_points: &Vec<i64>, radius: i64, i: usize, k: usize) -> (b: bool)
    requires
        i < sorted_points@.len(),
        k < sorted_points@.len(),
        values_bounded(sorted_points@),
        1 <= radius <= RADIUS_LIMIT,
    ensures
        b == qualifies(sorted_points@, radius, i as int, k as int),
{
    let d: i64 = sorted_points[k] - sorted_points[i];
    let two_r: i64 = 2 * radius;
    d < two_r && -two_r < d
}

/// Window precomputation for index `i`: the inclusive index span
/// `[lo, hi]` of the least and greatest index whose value lies within twice
/// the radius of `sorted_points[i]`. The span always contains `i` itself,
/// since every value qualifies against itself.
pub fn intersection_range(sorted_points: &Vec<i64>, radius: i64, i: usize) -> (r: (usize, usize))
    requires
        i < sorted_points@.len(),
        values_bounded(sorted_points@),
        1 <= radius <= RADIUS_LIMIT,
    ensures
        r.0 == window_lo(sorted_points@, radius, i as int),
        r.1 == window_hi(sorted_points@, radius, i as int),
        r.0 <= i <= r.1 < sorted_points@.len(),
{
    let ghost vals = sorted_points@;
    let n: usize = sorted_points.len();
    proof {
        assert(qualifies(vals, radius, i as int, i as int));
    }
    let mut lo: usize = 0;
    let mut found_lo: bool = is_qualifying(sorted_points, radius, i, lo);
    while !found_lo
        invariant
            0 <= lo <= i < n,
            n == vals.len(),
            vals == sorted_points@,
            values_bounded(vals),
            1 <= radius <= RADIUS_LIMIT,
            qualifies(vals, radius, i as int, i as int),
            found_lo == qualifies(vals, radius, i as int, lo as int),
            window_lo(vals, radius, i as int) == first_qualifying(
                vals,
                radius,
                i as int,
                lo as int,
            ),
        decreases i - lo,
    {
        proof {
            assert(first_qualifying(vals, radius, i as int, lo as int) == first_qualifying(
                vals,
                radius,
                i as int,
                lo as int + 1,
            ));
        }
        lo = lo + 1;
        found_lo = is_qualifying(sorted_points, radius, i, lo);
    }
    let mut hi: usize = n - 1;
    let mut found_hi: bool = is_qualifying(sorted_points, radius, i, hi);
    while !found_hi
        invariant
            0 <= i <= hi < n,
            n == vals.len(),
            vals == sorted_points@,
            values_bounded(vals),
            1 <= radius <= RADIUS_LIMIT,
            qualifies(vals, radius, i as int, i as int),
            found_hi == qualifies(vals, radius, i as int, hi as int),
            window_hi(vals, radius, i as int) == last_qualifying(vals, radius, i as int, hi as int),
        decreases hi - i,
    {
        proof {
            assert(last_qualifying(vals, radius, i as int, hi as int) == last_qualifying(
                vals,
                radius,
                i as int,
                hi as int - 1,
            ));
        }
        hi = hi - 1;
        found_hi = is_qualifying(sorted_points, radius, i, hi);
    }
    (lo, hi)
}

/// The jiggle search: given the points placed so far, the radius, the window
/// of the point being placed and its tentative position, find a displaced
/// position that collides with nothing in the window. Displacements are
/// probed in a fixed order — iteration ascending, dimension ascending, the
/// "+" variant before the "-" variant — and the first clearing candidate is
/// returned. `None` reports that no feasible placement was found: the layout
/// has no secondary dimension to displace into, the step rounds to zero on
/// the fixed-point grid, or every candidate within the displacement budget
/// collides.
pub fn jiggle(
    placed: &Vec<Vec<i64>>,
    radius: i64,
    lo: usize,
    hi: usize,
    tentative: &Vec<i64>,
) -> (r: Option<Vec<i64>>)
    requires
        swarm_wf(swarm_view(placed@), tentative@.len() as int),
        tentative_wf(tentative@),
        1 <= radius <= RADIUS_LIMIT,
    ensures
        opt_point_view(r) == jiggle_spec(
            swarm_view(placed@),
            radius,
            placed@.len() as int,
            lo as int,
            hi as int,
            tentative@,
        ),
        r matches Some(c) ==> point_wf(c@, tentative@.len() as int) && c@[0] == tentative@[0]
            && !collides(
            swarm_view(placed@),
            radius,
            placed@.len() as int,
            c@,
            lo as int,
            hi as int,
        ),
{
    let ghost pv = swarm_view(placed@);
    let ghost tent = tentative@;
    let dim: usize = tentative.len();
    let idx: usize = placed.len();
    let step: i64 = radius / 2;
    if step < 1 {
        return None;
    }
    if dim < 2 {
        proof {
            lemma_find_clear_one_dim(
                pv,
                radius,
                idx as int,
                lo as int,
                hi as int,
                tent,
                step as int,
                1,
                max_iterations(step as int) as nat,
            );
        }
        return None;
    }
    let max_t: i64 = DISP_LIMIT / step;
    proof {
        vstd::arithmetic::div_mod::lemma_fundamental_div_mod(DISP_LIMIT as int, step as int);
        vstd::arithmetic::div_mod::lemma_mod_bound(DISP_LIMIT as int, step as int);
        assert(1 <= max_t) by (nonlinear_arith)
            requires
                DISP_LIMIT as int == (step as int) * (max_t as int) + DISP_LIMIT as int % (
                step as int),
                0 <= DISP_LIMIT as int % (step as int) < step as int,
                1 <= step as int <= 0x8000_0000,
        ;
    }
    let ghost fuel0: nat = max_t as nat;
    let limit: usize = 2 * (dim - 1);
    let mut t: i64 = 1;
    while t <= max_t
        invariant
            1 <= t <= max_t + 1,
            2 <= dim <= DIM_LIMIT,
            limit == 2 * (dim - 1),
            idx == placed@.len(),
            1 <= radius <= RADIUS_LIMIT,
            step as int == jiggle_step(radius),
            1 <= step <= 0x8000_0000,
            max_t as int == max_iterations(step as int),
            1 <= max_t,
            fuel0 == max_t as nat,
            pv == swarm_view(placed@),
            tent == tentative@,
            tent.len() == dim,
            swarm_wf(pv, dim as int),
            tentative_wf(tent),
            find_clear(pv, radius, idx as int, lo as int, hi as int, tent, step as int, 1, fuel0)
                == find_clear(
                pv,
                radius,
                idx as int,
                lo as int,
                hi as int,
                tent,
                step as int,
                t as int,
                (max_t - t + 1) as nat,
            ),
        decreases max_t - t + 1,
    {
        proof {
            vstd::arithmetic::div_mod::lemma_fundamental_div_mod(DISP_LIMIT as int, step as int);
            vstd::arithmetic::div_mod::lemma_mod_bound(DISP_LIMIT as int, step as int);
            assert(1 <= (t as int) * (step as int) <= DISP_LIMIT as int) by (nonlinear_arith)
                requires
                    DISP_LIMIT as int == (step as int) * (max_iterations(step as int))
                        + DISP_LIMIT as int % (step as int),
                    0 <= DISP_LIMIT as int % (step as int) < step as int,
                    1 <= step as int,
                    1 <= t as int <= max_iterations(step as int),
            ;
        }
        let disp: i64 = t * step;
        let mut j: usize = 0;
        while j < limit
            invariant
                0 <= j <= limit,
                2 <= dim <= DIM_LIMIT,
                limit == 2 * (dim - 1),
                idx == placed@.len(),
                1 <= radius <= RADIUS_LIMIT,
                step as int == jiggle_step(radius),
                1 <= step <= 0x8000_0000,
                1 <= t <= max_t,
                max_t as int == max_iterations(step as int),
                fuel0 == max_t as nat,
                find_clear(
                    pv,
                    radius,
                    idx as int,
                    lo as int,
                    hi as int,
                    tent,
                    step as int,
                    1,
                    fuel0,
                ) == find_clear(
                    pv,
                    radius,
                    idx as int,
                    lo as int,
                    hi as int,
                    tent,
                    step as int,
                    t as int,
                    (max_t - t + 1) as nat,
                ),
                disp == (t as int) * (step as int),
                1 <= disp <= DISP_LIMIT,
                pv == swarm_view(placed@),
                tent == tentative@,
                tent.len() == dim,
                swarm_wf(pv, dim as int),
                tentative_wf(tent),
                scan_iteration(
                    pv,
                    radius,
                    idx as int,
                    lo as int,
                    hi as int,
                    tent,
                    step as int,
                    t as int,
                    0,
                ) == scan_iteration(
                    pv,
                    radius,
                    idx as int,
                    lo as int,
                    hi as int,
                    tent,
                    step as int,
                    t as int,
                    j as int,
                ),
            decreases limit - j,
        {
            let d: usize = 1 + j / 2;
            proof {
                assert(d < dim);
                assert(tent[d as int] == 0);
            }
            let mut c: Vec<i64> = tentative.clone();
            proof {
                assert(c@ =~= tent);
            }
            let val: i64 = if j % 2 == 0 {
                tentative[d] + disp
            } else {
                tentative[d] - disp
            };
            c.set(d, val);
            proof {
                assert(c@ =~= candidate_at(tent, step as int, t as int, j as int));
                assert(point_wf(c@, dim as int));
            }
            let inter: Vec<Vec<i64>> = intersections(placed, radius, idx, &c, lo, hi);
            if inter.len() == 0 {
                proof {
                    assert(scan_iteration(
                        pv,
                        radius,
                        idx as int,
                        lo as int,
                        hi as int,
                        tent,
                        step as int,
                        t as int,
                        j as int,
                    ) == Some(c@));
                    assert((max_t - t + 1) as nat >= 1);
                    assert(find_clear(
                        pv,
                        radius,
                        idx as int,
                        lo as int,
                        hi as int,
                        tent,
                        step as int,
                        t as int,
                        (max_t - t + 1) as nat,
                    ) == Some(c@));
                }
                return Some(c);
            }
            proof {
                assert(scan_iteration(
                    pv,
                    radius,
                    idx as int,
                    lo as int,
                    hi as int,
                    tent,
                    step as int,
                    t as int,
                    j as int,
                ) == scan_iteration(
                    pv,
                    radius,
                    idx as int,
                    lo as int,
                    hi as int,
                    tent,
                    step as int,
                    t as int,
                    j as int + 1,
                ));
            }
            j = j + 1;
        }
        proof {
            assert(scan_iteration(
                pv,
                radius,
                idx as int,
                lo as int,
                hi as int,
                tent,
                step as int,
                t as int,
                limit as int,
            ) == None::<Seq<i64>>);
            assert(find_clear(
                pv,
                radius,
                idx as int,
                lo as int,
                hi as int,
                tent,
                step as int,
                t as int,
                (max_t - t + 1) as nat,
            ) == find_clear(
                pv,
                radius,
                idx as int,
                lo as int,
                hi as int,
                tent,
                step as int,
                t as int + 1,
                (max_t - t) as nat,
            ));
        }
        t = t + 1;
    }
    proof {
        assert(find_clear(
            pv,
            radius,
            idx as int,
            lo as int,
            hi as int,
            tent,
            step as int,
            1,
            fuel0,
        ) == None::<Seq<i64>>);
    }
    None
}

/// The beeswarm layout. The input values must be sorted in non-decreasing
/// order and the radius positive; each value is assigned a `dim`-dimensional
/// point whose primary coordinate is the value itself. Values are placed in
/// input order: a value whose tentative position collides with an
/// already-placed point of its window is displaced by the jiggle search.
///
/// `None` reports that some value could not be placed (no secondary
/// dimension to displace into, a radius too fine for the fixed-point grid,
/// or a search that exhausted its displacement budget). On success the
/// output has one point per input value, in input order, and any two points
/// whose indices lie within each other's windows are strictly more than the
/// radius apart.
pub fn beeswarm(sorted_points: &Vec<i64>, radius: i64, dim: usize) -> (r: Option<Vec<Vec<i64>>>)
    requires
        sorted(sorted_points@),
        values_bounded(sorted_points@),
        1 <= radius <= RADIUS_LIMIT,
        1 <= dim <= DIM_LIMIT,
    ensures
        opt_swarm_view(r) == beeswarm_spec(sorted_points@, radius, dim as nat),
        r matches Some(out) ==> out@.len() == sorted_points@.len(),
        r matches Some(out) ==> forall|i: int|
            0 <= i < out@.len() ==> (#[trigger] swarm_view(out@)[i]).len() == dim,
        r matches Some(out) ==> forall|i: int|
            0 <= i < out@.len() ==> (#[trigger] swarm_view(out@)[i])[0] == sorted_points@[i],
        r matches Some(out) ==> forall|i: int, j: int|
            0 <= i < out@.len() && 0 <= j < out@.len() && i != j && qualifies(
                sorted_points@,
                radius,
                i,
                j,
            ) ==> dist_sq(#[trigger] swarm_view(out@)[i], #[trigger] swarm_view(out@)[j]) > radius
                * radius,
{
    let ghost vals = sorted_points@;
    let n: usize = sorted_points.len();
    let mut ranges: Vec<(usize, usize)> = Vec::new();
    let mut i: usize = 0;
    while i < n
        invariant
            0 <= i <= n,
            n == vals.len(),
            vals == sorted_points@,
            sorted(vals),
            values_bounded(vals),
            1 <= radius <= RADIUS_LIMIT,
            ranges@.len() == i,
            forall|k: int|
                0 <= k < i ==> (#[trigger] ranges@[k]).0 == window_lo(vals, radius, k)
                    && ranges@[k].1 == window_hi(vals, radius, k) && ranges@[k].0 <= k
                    <= ranges@[k].1 < n,
        decreases n - i,
    {
        let w: (usize, usize) = intersection_range(sorted_points, radius, i);
        ranges.push(w);
        i = i + 1;
    }
    let mut swarm: Vec<Vec<i64>> = Vec::new();
    proof {
        assert(swarm_view(swarm@) =~= Seq::<Seq<i64>>::empty());
    }
    let mut i: usize = 0;
    while i < n
        invariant
            0 <= i <= n,
            n == vals.len(),
            vals == sorted_points@,
            sorted(vals),
            values_bounded(vals),
            1 <= radius <= RADIUS_LIMIT,
            1 <= dim <= DIM_LIMIT,
            ranges@.len() == n,
            forall|k: int|
                0 <= k < n ==> (#[trigger] ranges@[k]).0 == window_lo(vals, radius, k)
                    && ranges@[k].1 == window_hi(vals, radius, k) && ranges@[k].0 <= k
                    <= ranges@[k].1 < n,
            swarm@.len() == i,
            swarm_spec(vals, radius, dim as nat, i as int) == Some(swarm_view(swarm@)),
            swarm_wf(swarm_view(swarm@), dim as int),
            forall|k: int| 0 <= k < i ==> (#[trigger] swarm_view(swarm@)[k])[0] == vals[k],
            forall|k: int, l: int|
                0 <= k < i && 0 <= l < i && k != l && qualifies(vals, radius, k, l) ==> dist_sq(
                    #[trigger] swarm_view(swarm@)[k],
                    #[trigger] swarm_view(swarm@)[l],
                ) > radius * radius,
        decreases n - i,
    {
        let w: (usize, usize) = ranges[i];
        let v: i64 = sorted_points[i];
        let mut tent: Vec<i64> = Vec::new();
        tent.push(v);
        let mut d: usize = 1;
        while d < dim
            invariant
                1 <= d <= dim,
                tent@.len() == d,
                tent@[0] == v,
                forall|e: int| 1 <= e < d ==> #[trigger] tent@[e] == 0,
            decreases dim - d,
        {
            tent.push(0);
            d = d + 1;
        }
        let ghost tentg = tent@;
        let ghost prev = swarm_view(swarm@);
        proof {
            assert(tentg =~= base_candidate(vals[i as int], dim as nat));
            assert(tentative_wf(tentg));
            assert(point_wf(tentg, dim as int));
            lemma_window_iff(vals, radius, i as int);
        }
        let inter: Vec<Vec<i64>> = intersections(&swarm, radius, i, &tent, w.0, w.1);
        if inter.len() == 0 {
            swarm.push(tent);
            proof {
                assert(swarm_view(swarm@) =~= prev.push(tentg));
            }
        } else {
            match jiggle(&swarm, radius, w.0, w.1, &tent) {
                Option::None => {
                    proof {
                        assert(swarm_spec(vals, radius, dim as nat, i as int + 1) is None);
                        lemma_swarm_spec_none(vals, radius, dim as nat, i as int + 1, n as int);
                    }
                    return None;
                },
                Option::Some(c) => {
                    let ghost cg = c@;
                    swarm.push(c);
                    proof {
                        assert(swarm_view(swarm@) =~= prev.push(cg));
                    }
                },
            }
        }
        proof {
            let s2 = swarm_view(swarm@);
            let newp = s2[i as int];
            assert(!collides(prev, radius, i as int, newp, w.0 as int, w.1 as int));
            assert(newp[0] == vals[i as int]);
            assert(point_wf(newp, dim as int));
            assert(swarm_spec(vals, radius, dim as nat, i as int + 1) == Some(s2));
            assert forall|k: int, l: int|
                0 <= k < i + 1 && 0 <= l < i + 1 && k != l && qualifies(vals, radius, k, l)
                implies dist_sq(#[trigger] s2[k], #[trigger] s2[l]) > radius * radius by {
                if k < i && l < i {
                    assert(s2[k] == prev[k]);
                    assert(s2[l] == prev[l]);
                } else if l == i {
                    assert(qualifies(vals, radius, i as int, k));
                    assert(w.0 <= k <= w.1);
                    assert(s2[k] == prev[k]);
                    assert(dist_sq(prev[k], newp) > radius * radius);
                    lemma_dist_sq_to_symmetric(prev[k], newp, dim as int);
                } else {
                    assert(qualifies(vals, radius, i as int, l));
                    assert(w.0 <= l <= w.1);
                    assert(s2[l] == prev[l]);
                    assert(dist_sq(prev[l], newp) > radius * radius);
                    lemma_dist_sq_to_symmetric(newp, prev[l], dim as int);
                }
            };
        }
        i = i + 1;
    }
    Some(swarm)
}

} // verus!
