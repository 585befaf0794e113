//! The mathematical model of the swarm layout: sortedness of the input,
//! which index pairs can possibly collide, and squared Euclidean distance.
//!
//! All coordinates are fixed-point values held in `i64`. Working on integers
//! keeps every distance comparison exact; the bounds below keep every
//! computation inside the machine's integer range.

use vstd::prelude::*;

verus! {

/// Largest magnitude allowed for an input value on the primary axis.
pub const VALUE_LIMIT: i64 = 0x100_0000_0000;

/// Largest allowed separation radius.
pub const RADIUS_LIMIT: i64 = 0x1_0000_0000;

/// Largest displacement the jiggle search will apply to a secondary
/// coordinate before giving up.
pub const DISP_LIMIT: i64 = 0x4_0000_0000_0000;

/// Every coordinate of every point handled by the layout stays strictly
/// below this bound in magnitude (primary coordinates are input values,
/// secondary coordinates are jiggle displacements).
pub const COORD_LIMIT: i64 = 0x8_0000_0000_0000;

/// Largest supported dimensionality.
pub const DIM_LIMIT: usize = 4096;

/// The input sequence is sorted in non-decreasing order.
pub open spec fn sorted(vals: Seq<i64>) -> bool {
    forall|a: int, b: int| 0 <= a <= b < vals.len() ==> vals[a] <= vals[b]
}

/// Every value of the sequence is bounded in magnitude by `VALUE_LIMIT`.
pub open spec fn values_bounded(vals: Seq<i64>) -> bool {
    forall|k: int| 0 <= k < vals.len() ==> -VALUE_LIMIT <= #[trigger] vals[k] <= VALUE_LIMIT
}

/// A point is a coordinate tuple of the layout's dimensionality whose
/// coordinates all stay within `COORD_LIMIT`.
pub open spec fn point_wf(p: Seq<i64>, dim: int) -> bool {
    &&& p.len() == dim
    &&& forall|d: int| 0 <= d < p.len() ==> -COORD_LIMIT <= #[trigger] p[d] <= COORD_LIMIT
}

/// Index `k` qualifies for index `i`'s window: the two input values differ
/// by less than twice the radius, so the pair could possibly collide.
pub open spec fn qualifies(vals: Seq<i64>, radius: i64, i: int, k: int) -> bool {
    &&& vals[k] - vals[i] < 2 * radius
    &&& vals[i] - vals[k] < 2 * radius
}

/// First index at or after `k` that qualifies for index `i`'s window, or
/// `vals.len()` when none does.
pub open spec fn first_qualifying(vals: Seq<i64>, radius: i64, i: int, k: int) -> int
    decreases vals.len() - k
        when 0 <= k <= vals.len()
{
    if k >= vals.len() {
        vals.len() as int
    } else if qualifies(vals, radius, i, k) {
        k
    } else {
        first_qualifying(vals, radius, i, k + 1)
    }
}

/// Last index at or before `k` that qualifies for index `i`'s window, or
/// `-1` when none does.
pub open spec fn last_qualifying(vals: Seq<i64>, radius: i64, i: int, k: int) -> int
    decreases k + 1
        when k < vals.len()
{
    if k < 0 {
        -1
    } else if qualifies(vals, radius, i, k) {
        k
    } else {
        last_qualifying(vals, radius, i, k - 1)
    }
}

/// Lower end (inclusive) of index `i`'s window: the least qualifying index.
pub open spec fn window_lo(vals: Seq<i64>, radius: i64, i: int) -> int {
    first_qualifying(vals, radius, i, 0)
}

/// Upper end (inclusive) of index `i`'s window: the greatest qualifying index.
pub open spec fn window_hi(vals: Seq<i64>, radius: i64, i: int) -> int {
    last_qualifying(vals, radius, i, vals.len() - 1)
}

pub proof fn lemma_first_qualifying_props(vals: Seq<i64>, radius: i64, i: int, k: int)
    requires
        0 <= k <= vals.len(),
    ensures
        k <= first_qualifying(vals, radius, i, k) <= vals.len(),
        first_qualifying(vals, radius, i, k) < vals.len() ==> qualifies(
            vals,
            radius,
            i,
            first_qualifying(vals, radius, i, k),
        ),
        forall|m: int|
            k <= m < first_qualifying(vals, radius, i, k) ==> !qualifies(vals, radius, i, m),
    decreases vals.len() - k,
{
    if k < vals.len() && !qualifies(vals, radius, i, k) {
        lemma_first_qualifying_props(vals, radius, i, k + 1);
    }
}

pub proof fn lemma_last_qualifying_props(vals: Seq<i64>, radius: i64, i: int, k: int)
    requires
        -1 <= k < vals.len(),
    ensures
        -1 <= last_qualifying(vals, radius, i, k) <= k,
        last_qualifying(vals, radius, i, k) >= 0 ==> qualifies(
            vals,
            radius,
            i,
            last_qualifying(vals, radius, i, k),
        ),
        forall|m: int|
            last_qualifying(vals, radius, i, k) < m <= k ==> !qualifies(vals, radius, i, m),
    decreases k + 1,
{
    if k >= 0 && !qualifies(vals, radius, i, k) {
        lemma_last_qualifying_props(vals, radius, i, k - 1);
    }
}

/// On a sorted input the window of index `i` is exactly the set of indices
/// that qualify for it: the qualifying indices form a contiguous span that
/// contains `i` itself.
pub proof fn lemma_window_iff(vals: Seq<i64>, radius: i64, i: int)
    requires
        sorted(vals),
        radius >= 1,
        0 <= i < vals.len(),
    ensures
        0 <= window_lo(vals, radius, i) <= i <= window_hi(vals, radius, i) < vals.len(),
        forall|k: int|
            0 <= k < vals.len() ==> (#[trigger] qualifies(vals, radius, i, k) <==> window_lo(
                vals,
                radius,
                i,
            ) <= k <= window_hi(vals, radius, i)),
{
    let lo = window_lo(vals, radius, i);
    let hi = window_hi(vals, radius, i);
    lemma_first_qualifying_props(vals, radius, i, 0);
    lemma_last_qualifying_props(vals, radius, i, vals.len() - 1);
    assert(qualifies(vals, radius, i, i));
    assert(lo <= i);
    assert(i <= hi);
    assert forall|k: int| lo <= k <= hi implies #[trigger] qualifies(vals, radius, i, k) by {
        assert(qualifies(vals, radius, i, lo));
        assert(qualifies(vals, radius, i, hi));
        if k <= i {
            assert(vals[lo] <= vals[k]);
            assert(vals[k] <= vals[i]);
        } else {
            assert(vals[i] <= vals[k]);
            assert(vals[k] <= vals[hi]);
        }
    };
}

/// Sum of squared coordinate differences over the first `n` coordinates.
pub open spec fn dist_sq_to(a: Seq<i64>, b: Seq<i64>, n: int) -> int
    decreases n,
{
    if n <= 0 {
        0
    } else {
        let d = a[n - 1] - b[n - 1];
        dist_sq_to(a, b, n - 1) + d * d
    }
}

/// Squared Euclidean distance between two points of equal dimensionality.
/// Two points overlap exactly when this is at most the squared radius.
pub open spec fn dist_sq(a: Seq<i64>, b: Seq<i64>) -> int {
    dist_sq_to(a, b, a.len() as int)
}

proof fn lemma_square_symmetric(x: int, y: int)
    by (nonlinear_arith)
    ensures
        (x - y) * (x - y) == (y - x) * (y - x),
{
}

/// The placed points of a swarm as plain coordinate sequences.
pub open spec fn swarm_view(s: Seq<Vec<i64>>) -> Seq<Seq<i64>> {
    s.map_values(|p: Vec<i64>| p@)
}

/// Every point of the swarm is a well-formed point of dimensionality `dim`.
pub open spec fn swarm_wf(s: Seq<Seq<i64>>, dim: int) -> bool {
    forall|k: int| 0 <= k < s.len() ==> point_wf(#[trigger] s[k], dim)
}

/// The collision predicate over the model: some placed point whose index
/// lies inside the window `[lo, hi]`, other than the candidate's own index
/// `idx`, lies within the radius of candidate point `c`.
pub open spec fn collides(
    placed: Seq<Seq<i64>>,
    radius: i64,
    idx: int,
    c: Seq<i64>,
    lo: int,
    hi: int,
) -> bool {
    exists|k: int|
        0 <= k < placed.len() && lo <= k <= hi && k != idx && dist_sq(#[trigger] placed[k], c)
            <= radius * radius
}

/// The placed points with index below `n` that candidate `c` overlaps, in
/// index order: only indices inside the window count, and the candidate's
/// own index is skipped.
pub open spec fn intersecting_upto(
    placed: Seq<Seq<i64>>,
    radius: i64,
    idx: int,
    c: Seq<i64>,
    lo: int,
    hi: int,
    n: int,
) -> Seq<Seq<i64>>
    decreases n,
{
    if n <= 0 {
        Seq::empty()
    } else {
        let rest = intersecting_upto(placed, radius, idx, c, lo, hi, n - 1);
        if lo <= n - 1 <= hi && n - 1 != idx && dist_sq(placed[n - 1], c) <= radius * radius {
            rest.push(placed[n - 1])
        } else {
            rest
        }
    }
}

/// The list of overlapping points is empty exactly when no placed point
/// with index below `n` collides with the candidate.
pub proof fn lemma_intersecting_upto_empty_iff(
    placed: Seq<Seq<i64>>,
    radius: i64,
    idx: int,
    c: Seq<i64>,
    lo: int,
    hi: int,
    n: int,
)
    ensures
        intersecting_upto(placed, radius, idx, c, lo, hi, n).len() == 0 <==> (forall|k: int|
            0 <= k < n && lo <= k <= hi && k != idx ==> dist_sq(#[trigger] placed[k], c) > radius
                * radius),
    decreases n,
{
    if n > 0 {
        lemma_intersecting_upto_empty_iff(placed, radius, idx, c, lo, hi, n - 1);
    }
}

/// The coordinates of an optional point.
pub open spec fn opt_point_view(r: Option<Vec<i64>>) -> Option<Seq<i64>> {
    match r {
        Option::None => Option::None,
        Option::Some(v) => Option::Some(v@),
    }
}

/// The displacement added per widening iteration: half the radius.
pub open spec fn jiggle_step(radius: i64) -> int {
    radius as int / 2
}

/// Iteration budget of the jiggle search: widening stops once the
/// displacement would exceed `DISP_LIMIT`.
pub open spec fn max_iterations(step: int) -> int {
    DISP_LIMIT as int / step
}

/// A tentative position: the point anchored at its input value on the
/// primary axis, with every secondary coordinate still zero.
pub open spec fn tentative_wf(tent: Seq<i64>) -> bool {
    &&& 1 <= tent.len() <= DIM_LIMIT
    &&& -VALUE_LIMIT <= tent[0] <= VALUE_LIMIT
    &&& forall|d: int| 1 <= d < tent.len() ==> #[trigger] tent[d] == 0
}

/// Candidate number `j` of widening iteration `t`: the tentative position
/// displaced along a single secondary dimension. Candidates are enumerated
/// dimension-ascending, the "+" variant before the "-" variant, so candidate
/// `2 * (d - 1)` displaces dimension `d` upward and `2 * (d - 1) + 1`
/// displaces it downward.
pub open spec fn candidate_at(tent: Seq<i64>, step: int, t: int, j: int) -> Seq<i64> {
    let d = 1 + j / 2;
    if j % 2 == 0 {
        tent.update(d, (tent[d] + t * step) as i64)
    } else {
        tent.update(d, (tent[d] - t * step) as i64)
    }
}

/// The first collision-free candidate of iteration `t`, scanning candidate
/// numbers upward from `j`, or `None` when every candidate of the iteration
/// collides. A one-dimensional layout has no candidates at all.
pub open spec fn scan_iteration(
    placed: Seq<Seq<i64>>,
    radius: i64,
    idx: int,
    lo: int,
    hi: int,
    tent: Seq<i64>,
    step: int,
    t: int,
    j: int,
) -> Option<Seq<i64>>
    decreases 2 * tent.len() - j
        when 0 <= j
{
    if j >= 2 * (tent.len() - 1) {
        None
    } else {
        let c = candidate_at(tent, step, t, j);
        if !collides(placed, radius, idx, c, lo, hi) {
            Some(c)
        } else {
            scan_iteration(placed, radius, idx, lo, hi, tent, step, t, j + 1)
        }
    }
}

/// The jiggle search: widen the iteration counter from `t0` for at most
/// `fuel` iterations and return the first candidate, in enumeration order,
/// that collides with nothing.
pub open spec fn find_clear(
    placed: Seq<Seq<i64>>,
    radius: i64,
    idx: int,
    lo: int,
    hi: int,
    tent: Seq<i64>,
    step: int,
    t0: int,
    fuel: nat,
) -> Option<Seq<i64>>
    decreases fuel,
{
    if fuel == 0 {
        None
    } else {
        match scan_iteration(placed, radius, idx, lo, hi, tent, step, t0, 0) {
            Some(c) => Some(c),
            None => find_clear(
                placed,
                radius,
                idx,
                lo,
                hi,
                tent,
                step,
                t0 + 1,
                (fuel - 1) as nat,
            ),
        }
    }
}

/// What the jiggle search returns for a tentative position that collides:
/// `None` when the step size rounds to zero (the radius is too fine for the
/// fixed-point grid) and otherwise the first clearing candidate within the
/// iteration budget.
pub open spec fn jiggle_spec(
    placed: Seq<Seq<i64>>,
    radius: i64,
    idx: int,
    lo: int,
    hi: int,
    tent: Seq<i64>,
) -> Option<Seq<i64>> {
    let step = jiggle_step(radius);
    if step < 1 {
        None
    } else {
        find_clear(placed, radius, idx, lo, hi, tent, step, 1, max_iterations(step) as nat)
    }
}

/// A one-dimensional layout has no secondary dimension to displace into:
/// the search never finds a candidate.
pub proof fn lemma_find_clear_one_dim(
    placed: Seq<Seq<i64>>,
    radius: i64,
    idx: int,
    lo: int,
    hi: int,
    tent: Seq<i64>,
    step: int,
    t0: int,
    fuel: nat,
)
    requires
        tent.len() < 2,
    ensures
        find_clear(placed, radius, idx, lo, hi, tent, step, t0, fuel) == None::<Seq<i64>>,
    decreases fuel,
{
    if fuel > 0 {
        lemma_find_clear_one_dim(placed, radius, idx, lo, hi, tent, step, t0 + 1, (fuel - 1) as nat);
    }
}

/// The tentative position for input value `v`: anchored at `v` on the
/// primary axis, zero in every secondary dimension.
pub open spec fn base_candidate(v: i64, dim: nat) -> Seq<i64> {
    Seq::new(dim, |d: int| if d == 0 { v } else { 0 })
}

/// The swarm after the first `n` input values have been placed, or `None`
/// when some placement failed. Point `i` is its tentative position when
/// that collides with nothing already placed in `i`'s window, and otherwise
/// whatever the jiggle search found.
pub open spec fn swarm_spec(vals: Seq<i64>, radius: i64, dim: nat, n: int) -> Option<
    Seq<Seq<i64>>,
>
    decreases n,
{
    if n <= 0 {
        Option::Some(Seq::empty())
    } else {
        match swarm_spec(vals, radius, dim, n - 1) {
            Option::None => Option::None,
            Option::Some(prev) => {
                let i = n - 1;
                let lo = window_lo(vals, radius, i);
                let hi = window_hi(vals, radius, i);
                let tent = base_candidate(vals[i], dim);
                if !collides(prev, radius, i, tent, lo, hi) {
                    Option::Some(prev.push(tent))
                } else {
                    match jiggle_spec(prev, radius, i, lo, hi, tent) {
                        Option::None => Option::None,
                        Option::Some(c) => Option::Some(prev.push(c)),
                    }
                }
            },
        }
    }
}

/// The full layout over the model: every input value placed.
pub open spec fn beeswarm_spec(vals: Seq<i64>, radius: i64, dim: nat) -> Option<Seq<Seq<i64>>> {
    swarm_spec(vals, radius, dim, vals.len() as int)
}

/// The view of an optional swarm.
pub open spec fn opt_swarm_view(r: Option<Vec<Vec<i64>>>) -> Option<Seq<Seq<i64>>> {
    match r {
        Option::None => Option::None,
        Option::Some(v) => Option::Some(swarm_view(v@)),
    }
}

/// Determinism: the layout is a function of the input values, the radius
/// and the dimensionality alone, with no hidden source of variation. Any
/// two results returned for identical inputs are identical.
pub proof fn lemma_beeswarm_deterministic(
    vals: Seq<i64>,
    radius: i64,
    dim: nat,
    r1: Option<Seq<Seq<i64>>>,
    r2: Option<Seq<Seq<i64>>>,
)
    requires
        r1 == beeswarm_spec(vals, radius, dim),
        r2 == beeswarm_spec(vals, radius, dim),
    ensures
        r1 == r2,
{
}

/// Placement failure propagates: once a prefix of the input fails to place,
/// every longer prefix fails as well.
pub proof fn lemma_swarm_spec_none(vals: Seq<i64>, radius: i64, dim: nat, m: int, n: int)
    requires
        0 <= m <= n,
        swarm_spec(vals, radius, dim, m) is None,
    ensures
        swarm_spec(vals, radius, dim, n) is None,
    decreases n - m,
{
    if m < n {
        lemma_swarm_spec_none(vals, radius, dim, m, n - 1);
    }
}

/// Squared distance does not depend on the order of its two arguments.
pub proof fn lemma_dist_sq_to_symmetric(a: Seq<i64>, b: Seq<i64>, n: int)
    ensures
        dist_sq_to(a, b, n) == dist_sq_to(b, a, n),
    decreases n,
{
    if n > 0 {
        lemma_dist_sq_to_symmetric(a, b, n - 1);
        lemma_square_symmetric(a[n - 1] as int, b[n - 1] as int);
    }
}

} // verus!
