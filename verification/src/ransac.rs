//! A plane through most of a set of points, by deterministic random sampling.

use vstd::prelude::*;

use crate::float::{Float32, Float64, F64_ONE};
use crate::numerics::{computes, Arithmetic, Numerics, Point3};
use crate::voxel::VoxelKey;

verus! {

// ---------------------------------------------------------------------------
// Random indices
// ---------------------------------------------------------------------------

/// The seed of the sampling sequence at `key`.
pub open spec fn ransac_seed_spec(key: VoxelKey) -> u64 {
    (key.ix as u32 as u64).wrapping_mul(0x9e37_79b1_85eb_ca87) ^ (key.iy as u32 as u64).wrapping_mul(
        0xc2b2_ae3d_27d4_eb4f,
    ) ^ (key.iz as u32 as u64).wrapping_mul(0x1656_67b1_9e37_79f9) ^ 0xa076_1d64_78bd_642f
}

pub fn ransac_seed(key: VoxelKey) -> (r: u64)
    ensures
        r == ransac_seed_spec(key),
{
    let x: u64 = key.ix as u32 as u64;
    let y: u64 = key.iy as u32 as u64;
    let z: u64 = key.iz as u32 as u64;
    x.wrapping_mul(0x9e37_79b1_85eb_ca87) ^ y.wrapping_mul(0xc2b2_ae3d_27d4_eb4f) ^ z.wrapping_mul(
        0x1656_67b1_9e37_79f9,
    ) ^ 0xa076_1d64_78bd_642f
}

/// The state that follows `state` in a SplitMix64 sequence.
pub open spec fn next_state(state: u64) -> u64 {
    state.wrapping_add(0x9e37_79b9_7f4a_7c15)
}

/// The number that SplitMix64 gives at `state`.
pub open spec fn mixed(state: u64) -> u64 {
    let a = (state ^ (state >> 30)).wrapping_mul(0xbf58_476d_1ce4_e5b9);
    let b = (a ^ (a >> 27)).wrapping_mul(0x94d0_49bb_1331_11eb);
    b ^ (b >> 31)
}

/// The index below `len` that is drawn at `state`.
pub open spec fn index_at(state: u64, len: int) -> int {
    mixed(next_state(state)) as int % len
}

pub fn next_random_index(random_state: &mut u64, len: usize) -> (r: usize)
    requires
        len > 0,
    ensures
        *final(random_state) == next_state(*old(random_state)),
        r == index_at(*old(random_state), len as int),
        r < len,
{
    *random_state = random_state.wrapping_add(0x9e37_79b9_7f4a_7c15);
    let state: u64 = *random_state;
    let a: u64 = (state ^ (state >> 30)).wrapping_mul(0xbf58_476d_1ce4_e5b9);
    let b: u64 = (a ^ (a >> 27)).wrapping_mul(0x94d0_49bb_1331_11eb);
    let value: u64 = b ^ (b >> 31);
    (value % (len as u64)) as usize
}

/// `index`, moved up past `first`: the `index`-th of the numbers other than `first`.
pub open spec fn skipping(index: int, first: int) -> int {
    if index >= first {
        index + 1
    } else {
        index
    }
}

/// Three different indices below `len`, drawn from `state` on.
pub open spec fn three_indices(state: u64, len: int) -> (int, int, int) {
    let first = index_at(state, len);
    let second = skipping(index_at(next_state(state), len - 1), first);
    let third = index_at(next_state(next_state(state)), len - 2);
    let low = if first <= second { first } else { second };
    let high = if first <= second { second } else { first };
    (first, second, skipping(skipping(third, low), high))
}

/// Draws three different indices below `len`.
pub fn sample_three_distinct_indices(random_state: &mut u64, len: usize) -> (r: (
    usize,
    usize,
    usize,
))
    requires
        len >= 3,
    ensures
        *final(random_state) == next_state(next_state(next_state(*old(random_state)))),
        (r.0 as int, r.1 as int, r.2 as int) == three_indices(*old(random_state), len as int),
        r.0 < len && r.1 < len && r.2 < len,
        r.0 != r.1 && r.0 != r.2 && r.1 != r.2,
{
    let first: usize = next_random_index(random_state, len);
    let mut second: usize = next_random_index(random_state, len - 1);
    if second >= first {
        second += 1;
    }
    let mut third: usize = next_random_index(random_state, len - 2);
    let lower_excluded: usize = if first <= second { first } else { second };
    let upper_excluded: usize = if first <= second { second } else { first };
    if third >= lower_excluded {
        third += 1;
    }
    if third >= upper_excluded {
        third += 1;
    }
    (first, second, third)
}

/// The sampling rate of detailed surface timings.
pub const SURFACE_TIMING_SAMPLE_RATE: usize = 64;

/// Whether the evaluation at `key` is one of those that are timed in detail.
///
/// The choice is separate from the sampling sequence at `key`.
pub fn should_sample_surface_timing(key: VoxelKey) -> (r: bool)
    ensures
        r == (index_at(
            ransac_seed_spec(key) ^ 0xd1b5_4a32_d192_ed03,
            SURFACE_TIMING_SAMPLE_RATE as int,
        ) == 0),
{
    let mut sample_state: u64 = ransac_seed(key) ^ 0xd1b5_4a32_d192_ed03;
    next_random_index(&mut sample_state, SURFACE_TIMING_SAMPLE_RATE) == 0
}

// ---------------------------------------------------------------------------
// How many samples to draw
// ---------------------------------------------------------------------------

pub open spec fn smaller(a: int, b: int) -> int {
    if a <= b {
        a
    } else {
        b
    }
}

pub open spec fn larger(a: int, b: int) -> int {
    if a >= b {
        a
    } else {
        b
    }
}

/// `value` moved into `[low, high]`.
pub open spec fn clamped(value: int, low: int, high: int) -> int {
    if value < low {
        low
    } else if value > high {
        high
    } else {
        value
    }
}

/// The chance that three samples are all inliers.
pub open spec fn all_inlier_probability(g: Arithmetic, inliers: int, points: int) -> Float64 {
    let ratio = (g.quotient64)((g.from_count64)(inliers as u64), (g.from_count64)(points as u64));
    (g.product64)((g.product64)(ratio, ratio), ratio)
}

/// The number of samples after which, with probability `confidence`, one has
/// held three inliers.
pub open spec fn required_samples(
    g: Arithmetic,
    probability: Float64,
    confidence: Float64,
) -> Float64 {
    (g.ceil64)(
        (g.quotient64)(
            (g.ln64)((g.difference64)(Float64 { bits: F64_ONE }, confidence)),
            (g.ln_1p64)(probability.neg_spec()),
        ),
    )
}

/// How many samples to draw in all, once a plane with `best_inlier_count` of
/// `point_count` points is known: never more than `max_iterations`, and at least
/// `min_iterations` and 1 where that allows it.
pub open spec fn iteration_limit(
    g: Arithmetic,
    best_inlier_count: int,
    point_count: int,
    confidence: Float64,
    min_iterations: int,
    max_iterations: int,
) -> int {
    let minimum = smaller(larger(min_iterations, 1), max_iterations);
    let one = Float64 { bits: F64_ONE };
    if max_iterations == 0 {
        0
    } else if best_inlier_count == 0 || point_count == 0 || !(Float64::zero_spec().le_spec(
        confidence,
    ) && confidence.lt_spec(one)) {
        max_iterations
    } else {
        let probability = all_inlier_probability(
            g,
            smaller(best_inlier_count, point_count),
            point_count,
        );
        let required = required_samples(g, probability, confidence);
        if one.le_spec(probability) {
            minimum
        } else if !required.is_finite_spec() || required.le_spec(Float64::zero_spec()) {
            max_iterations
        } else {
            clamped((g.to_u64)(required) as int, minimum, max_iterations)
        }
    }
}

pub fn adaptive_ransac_iteration_limit<N: Numerics>(
    n: &N,
    best_inlier_count: usize,
    point_count: usize,
    confidence: Float64,
    min_iterations: usize,
    max_iterations: usize,
) -> (r: usize)
    ensures
        r <= max_iterations,
        max_iterations > 0 ==> r > 0,
        forall|g: Arithmetic| #[trigger]
            computes(*n, g) ==> r == iteration_limit(
                g,
                best_inlier_count as int,
                point_count as int,
                confidence,
                min_iterations as int,
                max_iterations as int,
            ),
{
    if max_iterations == 0 {
        return 0;
    }
    let at_least_one: usize = if min_iterations >= 1 { min_iterations } else { 1 };
    let minimum: usize = if at_least_one <= max_iterations { at_least_one } else { max_iterations };
    let one = Float64 { bits: F64_ONE };
    let confidence_in_range = Float64::zero().le(confidence) && confidence.lt(one);
    if best_inlier_count == 0 || point_count == 0 || !confidence_in_range {
        return max_iterations;
    }
    let counted: usize = if best_inlier_count <= point_count {
        best_inlier_count
    } else {
        point_count
    };
    let ratio = n.quotient64(n.from_count64(counted as u64), n.from_count64(point_count as u64));
    let probability = n.product64(n.product64(ratio, ratio), ratio);
    if one.le(probability) {
        return minimum;
    }
    let required = n.ceil64(
        n.quotient64(n.ln64(n.difference64(one, confidence)), n.ln_1p64(probability.neg())),
    );
    if !required.is_finite() || required.le(Float64::zero()) {
        return max_iterations;
    }
    let draws: u64 = n.to_u64(required);
    if draws < minimum as u64 {
        minimum
    } else if draws > max_iterations as u64 {
        max_iterations
    } else {
        draws as usize
    }
}

// ---------------------------------------------------------------------------
// Planes through three points
// ---------------------------------------------------------------------------

/// The plane of the points `p` with `normal . p + d == 0`.
#[derive(Clone, Copy, Debug, PartialEq, Eq, Structural)]
pub struct PlaneEquation {
    pub normal: Point3,
    pub d: Float32,
}

/// The shortest cross product that still gives a direction.
pub const MIN_NORMAL_NORM: u32 = 0x3586_37bd;

/// The signed distance of `p` from `plane`.
pub open spec fn signed_distance_spec(g: Arithmetic, plane: PlaneEquation, p: Point3) -> Float32 {
    (g.sum)((g.dot)(plane.normal, p), plane.d)
}

pub fn signed_distance<N: Numerics>(n: &N, plane: PlaneEquation, p: Point3) -> (r: Float32)
    ensures
        forall|g: Arithmetic| #[trigger]
            computes(*n, g) ==> r == signed_distance_spec(g, plane, p),
{
    n.sum(n.dot(plane.normal, p), plane.d)
}

pub open spec fn distance_squared_spec(
    g: Arithmetic,
    plane: PlaneEquation,
    p: Point3,
) -> Float32 {
    let distance = signed_distance_spec(g, plane, p);
    (g.product)(distance, distance)
}

fn distance_squared<N: Numerics>(n: &N, plane: PlaneEquation, p: Point3) -> (r: Float32)
    ensures
        forall|g: Arithmetic| #[trigger]
            computes(*n, g) ==> r == distance_squared_spec(g, plane, p),
{
    let distance = signed_distance(n, plane, p);
    n.product(distance, distance)
}

/// The plane through three points, unless they are too close to one line.
pub open spec fn plane_through_spec(
    g: Arithmetic,
    p0: Point3,
    p1: Point3,
    p2: Point3,
) -> Option<PlaneEquation> {
    let normal = (g.cross)((g.vector_difference)(p1, p0), (g.vector_difference)(p2, p0));
    let length = (g.norm)(normal);
    if !length.is_finite_spec() || length.le_spec(Float32 { bits: MIN_NORMAL_NORM }) {
        None
    } else {
        let unit = (g.vector_divided)(normal, length);
        Some(PlaneEquation { normal: unit, d: (g.dot)(unit, p0).neg_spec() })
    }
}

fn plane_through<N: Numerics>(n: &N, p0: Point3, p1: Point3, p2: Point3) -> (r: Option<
    PlaneEquation,
>)
    ensures
        forall|g: Arithmetic| #[trigger]
            computes(*n, g) ==> r == plane_through_spec(g, p0, p1, p2),
{
    let normal = n.cross(n.vector_difference(p1, p0), n.vector_difference(p2, p0));
    let length = n.norm(normal);
    if !length.is_finite() || length.le(Float32 { bits: MIN_NORMAL_NORM }) {
        return None;
    }
    let unit = n.vector_divided(normal, length);
    Some(PlaneEquation { normal: unit, d: n.dot(unit, p0).neg() })
}

// ---------------------------------------------------------------------------
// The search
// ---------------------------------------------------------------------------

/// What a search counted on its way.
#[derive(Clone, Copy, Debug, PartialEq, Eq, Structural)]
pub struct RansacOutcome {
    pub found: bool,
    pub draws: usize,
    pub pruned_hypotheses: usize,
    pub point_tests: u128,
    pub point_tests_skipped: u128,
    pub adaptive_stopped: bool,
    pub iterations_saved: usize,
}

/// What a search looks for, and when it stops.
#[derive(Clone, Copy, Debug, PartialEq, Eq, Structural)]
pub struct RansacLimits {
    pub iterations: usize,
    pub min_iterations: usize,
    pub confidence: Float64,
    /// The square of the largest distance of an inlier.
    pub threshold_sq: Float32,
}

/// A search on its way: the best plane so far and the counts.
#[derive(Clone, Copy, Debug, PartialEq, Eq, Structural)]
pub struct RansacSearch {
    pub random_state: u64,
    pub best_plane: Option<PlaneEquation>,
    pub best_inlier_count: usize,
    pub best_squared_error: Float32,
    pub required_iterations: usize,
    /// Whether a plane was found that has every point as an inlier.
    pub complete: bool,
    pub outcome: RansacOutcome,
}

pub open spec fn is_inlier(
    g: Arithmetic,
    plane: PlaneEquation,
    threshold_sq: Float32,
    p: Point3,
) -> bool {
    distance_squared_spec(g, plane, p).le_spec(threshold_sq)
}

/// The number of inliers of `plane` among the first `k` points, and the sum of
/// their squared distances.
pub open spec fn tally(
    g: Arithmetic,
    plane: PlaneEquation,
    threshold_sq: Float32,
    points: Seq<Point3>,
    k: int,
) -> (int, Float32)
    decreases k,
{
    if k <= 0 {
        (0, Float32::zero_spec())
    } else {
        let (count, error) = tally(g, plane, threshold_sq, points, k - 1);
        let p = points[k - 1];
        if is_inlier(g, plane, threshold_sq, p) {
            (count + 1, (g.sum)(error, distance_squared_spec(g, plane, p)))
        } else {
            (count, error)
        }
    }
}

/// Whether, after `k` points, `plane` can no longer become better than the best
/// plane so far: with all remaining points it would have fewer inliers, or as
/// many with no smaller error.
pub open spec fn has_lost(
    g: Arithmetic,
    plane: PlaneEquation,
    threshold_sq: Float32,
    points: Seq<Point3>,
    best_count: int,
    best_error: Float32,
    k: int,
) -> bool {
    let (count, error) = tally(g, plane, threshold_sq, points, k);
    let possible = count + points.len() - k;
    possible < best_count || (possible == best_count && best_error.le_spec(error))
}

/// The first number of points, from `k` on, after which `plane` has lost; one
/// more than there are points where it never does.
pub open spec fn first_loss(
    g: Arithmetic,
    plane: PlaneEquation,
    threshold_sq: Float32,
    points: Seq<Point3>,
    best_count: int,
    best_error: Float32,
    k: int,
) -> int
    decreases points.len() + 1 - k,
{
    if k > points.len() {
        points.len() as int + 1
    } else if has_lost(g, plane, threshold_sq, points, best_count, best_error, k) {
        k
    } else {
        first_loss(g, plane, threshold_sq, points, best_count, best_error, k + 1)
    }
}

proof fn lemma_tally_grows(
    g: Arithmetic,
    plane: PlaneEquation,
    threshold_sq: Float32,
    points: Seq<Point3>,
    best_error: Float32,
    k: int,
    m: int,
)
    requires
        0 <= k <= m <= points.len(),
        sums_grow(g, plane, threshold_sq),
    ensures
        tally(g, plane, threshold_sq, points, m).0 <= tally(g, plane, threshold_sq, points, k).0 + m
            - k,
        best_error.le_spec(tally(g, plane, threshold_sq, points, k).1) ==> best_error.le_spec(
            tally(g, plane, threshold_sq, points, m).1,
        ),
    decreases m - k,
{
    if k < m {
        lemma_tally_grows(g, plane, threshold_sq, points, best_error, k, m - 1);
        let (count, error) = tally(g, plane, threshold_sq, points, m - 1);
        let p = points[m - 1];
        if is_inlier(g, plane, threshold_sq, p) && best_error.le_spec(error) {
            assert(error.le_spec((g.sum)(error, distance_squared_spec(g, plane, p))));
        }
    }
}

/// Whether one more squared distance of an inlier never makes a sum smaller.
pub open spec fn sums_grow(g: Arithmetic, plane: PlaneEquation, threshold_sq: Float32) -> bool {
    forall|a: Float32, p: Point3|
        !a.is_nan_spec() && is_inlier(g, plane, threshold_sq, p) ==> a.le_spec(
            #[trigger] (g.sum)(a, distance_squared_spec(g, plane, p)),
        )
}

/// A plane that is given up before all points are tested would not have become the best,
/// in an arithmetic where one more squared distance never makes a sum smaller.
pub proof fn lost_planes_would_not_win(
    g: Arithmetic,
    plane: PlaneEquation,
    threshold_sq: Float32,
    points: Seq<Point3>,
    best_count: int,
    best_error: Float32,
    k: int,
)
    requires
        0 <= k <= points.len(),
        sums_grow(g, plane, threshold_sq),
        has_lost(g, plane, threshold_sq, points, best_count, best_error, k),
    ensures
        ({
            let (count, error) = tally(g, plane, threshold_sq, points, points.len() as int);
            !(count > best_count || (count == best_count && error.lt_spec(best_error)))
        }),
{
    lemma_tally_grows(g, plane, threshold_sq, points, best_error, k, points.len() as int);
}

/// More draws never lose inliers.
pub proof fn draws_keep_the_best(
    g: Arithmetic,
    points: Seq<Point3>,
    limits: RansacLimits,
    s: RansacSearch,
)
    requires
        points.len() <= usize::MAX,
    ensures
        search_step(g, points, limits, s).best_inlier_count >= s.best_inlier_count,
{
    let (i0, i1, i2) = three_indices(s.random_state, points.len() as int);
    if let Some(plane) = plane_through_spec(g, points[i0], points[i1], points[i2]) {
        lemma_tally_counts(g, plane, limits.threshold_sq, points, points.len() as int);
    }
}

proof fn lemma_tally_counts(
    g: Arithmetic,
    plane: PlaneEquation,
    threshold_sq: Float32,
    points: Seq<Point3>,
    k: int,
)
    requires
        0 <= k,
    ensures
        0 <= tally(g, plane, threshold_sq, points, k).0 <= k,
    decreases k,
{
    if k > 0 {
        lemma_tally_counts(g, plane, threshold_sq, points, k - 1);
    }
}

/// The search before its first draw.
pub open spec fn search_start(limits: RansacLimits, seed: u64) -> RansacSearch {
    RansacSearch {
        random_state: seed,
        best_plane: None,
        best_inlier_count: 0,
        best_squared_error: Float32::infinity_spec(),
        required_iterations: limits.iterations,
        complete: false,
        outcome: no_outcome(),
    }
}

pub open spec fn no_outcome() -> RansacOutcome {
    RansacOutcome {
        found: false,
        draws: 0,
        pruned_hypotheses: 0,
        point_tests: 0,
        point_tests_skipped: 0,
        adaptive_stopped: false,
        iterations_saved: 0,
    }
}

/// The search after one more draw.
pub open spec fn search_step(
    g: Arithmetic,
    points: Seq<Point3>,
    limits: RansacLimits,
    s: RansacSearch,
) -> RansacSearch {
    let len = points.len() as int;
    let (i0, i1, i2) = three_indices(s.random_state, len);
    let drawn = RansacSearch {
        random_state: next_state(next_state(next_state(s.random_state))),
        outcome: RansacOutcome { draws: (s.outcome.draws + 1) as usize, ..s.outcome },
        ..s
    };
    match plane_through_spec(g, points[i0], points[i1], points[i2]) {
        None => drawn,
        Some(plane) => {
            let loss = first_loss(
                g,
                plane,
                limits.threshold_sq,
                points,
                s.best_inlier_count as int,
                s.best_squared_error,
                1,
            );
            let (count, error) = tally(g, plane, limits.threshold_sq, points, len);
            if loss <= len {
                RansacSearch {
                    outcome: RansacOutcome {
                        pruned_hypotheses: (s.outcome.pruned_hypotheses + 1) as usize,
                        point_tests: (s.outcome.point_tests + loss) as u128,
                        point_tests_skipped: (s.outcome.point_tests_skipped + len - loss) as u128,
                        ..drawn.outcome
                    },
                    ..drawn
                }
            } else {
                let tested = RansacSearch {
                    outcome: RansacOutcome {
                        point_tests: (s.outcome.point_tests + len) as u128,
                        ..drawn.outcome
                    },
                    ..drawn
                };
                if count == len {
                    RansacSearch { complete: true, ..tested }
                } else if count > s.best_inlier_count || (count == s.best_inlier_count
                    && error.lt_spec(s.best_squared_error)) {
                    RansacSearch {
                        best_plane: Some(plane),
                        best_inlier_count: count as usize,
                        best_squared_error: error,
                        required_iterations: smaller(
                            s.required_iterations as int,
                            iteration_limit(
                                g,
                                count,
                                len,
                                limits.confidence,
                                limits.min_iterations as int,
                                limits.iterations as int,
                            ),
                        ) as usize,
                        ..tested
                    }
                } else {
                    tested
                }
            }
        },
    }
}

/// Whether another draw follows.
pub open spec fn search_goes_on(limits: RansacLimits, s: RansacSearch) -> bool {
    !s.complete && s.outcome.draws < limits.iterations && s.outcome.draws < s.required_iterations
}

/// The search after its last draw. `draws` bounds how many more there can be.
pub open spec fn search_end(
    g: Arithmetic,
    points: Seq<Point3>,
    limits: RansacLimits,
    s: RansacSearch,
    draws: nat,
) -> RansacSearch
    decreases draws,
{
    if draws == 0 || !search_goes_on(limits, s) {
        s
    } else {
        search_end(g, points, limits, search_step(g, points, limits, s), (draws - 1) as nat)
    }
}

/// The inliers that a finished search returns: all points, those near the best
/// plane, or none where no plane was found.
pub open spec fn search_inliers(
    g: Arithmetic,
    points: Seq<Point3>,
    limits: RansacLimits,
    s: RansacSearch,
) -> Seq<Point3> {
    if s.complete {
        points
    } else {
        match s.best_plane {
            None => Seq::empty(),
            Some(plane) => points.filter(
                |p: Point3| is_inlier(g, plane, limits.threshold_sq, p),
            ),
        }
    }
}

/// What a finished search returns beside its inliers.
pub open spec fn search_outcome(
    limits: RansacLimits,
    s: RansacSearch,
    inliers: Seq<Point3>,
) -> RansacOutcome {
    if s.complete {
        RansacOutcome { found: true, ..s.outcome }
    } else {
        let stopped = s.required_iterations < limits.iterations && s.outcome.draws
            >= s.required_iterations;
        RansacOutcome {
            found: inliers.len() > 0,
            adaptive_stopped: stopped,
            iterations_saved: if stopped {
                (limits.iterations - s.outcome.draws) as usize
            } else {
                0
            },
            ..s.outcome
        }
    }
}

/// The state of the random numbers after `t` draws.
pub open spec fn state_after_draws(seed: u64, t: int) -> u64
    decreases t,
{
    if t <= 0 {
        seed
    } else {
        next_state(next_state(next_state(state_after_draws(seed, t - 1))))
    }
}

/// The plane that draw `t` gives, counted from 0, unless its points are too close to one
/// line.
pub open spec fn drawn_plane(g: Arithmetic, points: Seq<Point3>, seed: u64, t: int) -> Option<
    PlaneEquation,
> {
    let (i0, i1, i2) = three_indices(state_after_draws(seed, t), points.len() as int);
    plane_through_spec(g, points[i0], points[i1], points[i2])
}

/// Whether `count` inliers with the sum `error` are better than `best_count` with
/// `best_error`: they are more, or as many with a smaller sum.
pub open spec fn beats(count: int, error: Float32, best_count: int, best_error: Float32) -> bool {
    count > best_count || (count == best_count && error.lt_spec(best_error))
}

/// Whether the best plane of `s` was drawn from `seed`, with the inliers that `s` counts,
/// and no plane drawn so far is better.
spec fn has_the_best(
    g: Arithmetic,
    points: Seq<Point3>,
    limits: RansacLimits,
    seed: u64,
    s: RansacSearch,
) -> bool {
    let len = points.len() as int;
    &&& s.random_state == state_after_draws(seed, s.outcome.draws as int)
    &&& match s.best_plane {
        None => s.best_inlier_count == 0 && s.best_squared_error == Float32::infinity_spec(),
        Some(best) => {
            &&& tally(g, best, limits.threshold_sq, points, len) == (
                s.best_inlier_count as int,
                s.best_squared_error,
            )
            &&& exists|u: int|
                0 <= u < s.outcome.draws && #[trigger] drawn_plane(g, points, seed, u) == Some(best)
        },
    }
    &&& forall|u: int|
        0 <= u < s.outcome.draws ==> (#[trigger] drawn_plane(g, points, seed, u) matches Some(plane)
            ==> sums_grow(g, plane, limits.threshold_sq) && !s.complete ==> {
            let (count, error) = tally(g, plane, limits.threshold_sq, points, len);
            !beats(count, error, s.best_inlier_count as int, s.best_squared_error)
        })
}

proof fn lemma_first_loss(
    g: Arithmetic,
    plane: PlaneEquation,
    threshold_sq: Float32,
    points: Seq<Point3>,
    best_count: int,
    best_error: Float32,
    k: int,
)
    requires
        first_loss(g, plane, threshold_sq, points, best_count, best_error, k) <= points.len(),
    ensures
        ({
            let loss = first_loss(g, plane, threshold_sq, points, best_count, best_error, k);
            k <= loss && has_lost(g, plane, threshold_sq, points, best_count, best_error, loss)
        }),
    decreases points.len() + 1 - k,
{
    if k <= points.len() && !has_lost(
        g,
        plane,
        threshold_sq,
        points,
        best_count,
        best_error,
        k,
    ) {
        lemma_first_loss(g, plane, threshold_sq, points, best_count, best_error, k + 1);
    }
}

proof fn lemma_step_has_the_best(
    g: Arithmetic,
    points: Seq<Point3>,
    limits: RansacLimits,
    seed: u64,
    s: RansacSearch,
)
    requires
        points.len() <= usize::MAX,
        search_goes_on(limits, s),
        has_the_best(g, points, limits, seed, s),
    ensures
        has_the_best(g, points, limits, seed, search_step(g, points, limits, s)),
        search_step(g, points, limits, s).outcome.draws == s.outcome.draws + 1,
{
    let len = points.len() as int;
    let next = search_step(g, points, limits, s);
    let t = s.outcome.draws as int;
    match drawn_plane(g, points, seed, t) {
        None => {},
        Some(plane) => {
            lemma_tally_counts(g, plane, limits.threshold_sq, points, len);
            let loss = first_loss(
                g,
                plane,
                limits.threshold_sq,
                points,
                s.best_inlier_count as int,
                s.best_squared_error,
                1,
            );
            if loss <= len {
                lemma_first_loss(
                    g,
                    plane,
                    limits.threshold_sq,
                    points,
                    s.best_inlier_count as int,
                    s.best_squared_error,
                    1,
                );
                if sums_grow(g, plane, limits.threshold_sq) {
                    lost_planes_would_not_win(
                        g,
                        plane,
                        limits.threshold_sq,
                        points,
                        s.best_inlier_count as int,
                        s.best_squared_error,
                        loss,
                    );
                }
            }
        },
    }
}

proof fn lemma_end_has_the_best(
    g: Arithmetic,
    points: Seq<Point3>,
    limits: RansacLimits,
    seed: u64,
    s: RansacSearch,
    draws: nat,
)
    requires
        points.len() <= usize::MAX,
        has_the_best(g, points, limits, seed, s),
    ensures
        has_the_best(g, points, limits, seed, search_end(g, points, limits, s, draws)),
    decreases draws,
{
    if draws > 0 && search_goes_on(limits, s) {
        lemma_step_has_the_best(g, points, limits, seed, s);
        lemma_end_has_the_best(
            g,
            points,
            limits,
            seed,
            search_step(g, points, limits, s),
            (draws - 1) as nat,
        );
    }
}

proof fn lemma_tally_filter(
    g: Arithmetic,
    plane: PlaneEquation,
    threshold_sq: Float32,
    points: Seq<Point3>,
    k: int,
)
    requires
        0 <= k <= points.len(),
    ensures
        points.take(k).filter(|p: Point3| is_inlier(g, plane, threshold_sq, p)).len() == tally(
            g,
            plane,
            threshold_sq,
            points,
            k,
        ).0,
        tally(g, plane, threshold_sq, points, k).0 == 0 ==> tally(
            g,
            plane,
            threshold_sq,
            points,
            k,
        ).1 == Float32::zero_spec(),
    decreases k,
{
    let near = |p: Point3| is_inlier(g, plane, threshold_sq, p);
    if k > 0 {
        lemma_tally_filter(g, plane, threshold_sq, points, k - 1);
        lemma_tally_counts(g, plane, threshold_sq, points, k - 1);
        assert(points.take(k) =~= points.take(k - 1).push(points[k - 1]));
        points.take(k - 1).lemma_filter_push(points[k - 1], near);
    } else {
        assert(points.take(k) =~= Seq::empty());
        reveal(Seq::filter);
    }
}

/// The search returns the inliers of the best of the planes that it drew: no plane of a
/// draw has more inliers than are returned, and, unless all points are, none has as many
/// with a smaller sum of squared distances than the best one. This is so in an arithmetic
/// where one more squared distance never makes the sum of that plane smaller.
pub proof fn no_drawn_plane_is_better(
    g: Arithmetic,
    points: Seq<Point3>,
    limits: RansacLimits,
    seed: u64,
    t: int,
)
    requires
        points.len() <= usize::MAX,
        ({
            let start = search_start(limits, seed);
            let end = search_end(g, points, limits, start, limits.iterations as nat);
            0 <= t < end.outcome.draws
        }),
        drawn_plane(g, points, seed, t) matches Some(plane) && sums_grow(
            g,
            plane,
            limits.threshold_sq,
        ),
    ensures
        ({
            let len = points.len() as int;
            let start = search_start(limits, seed);
            let end = search_end(g, points, limits, start, limits.iterations as nat);
            let inliers = search_inliers(g, points, limits, end);
            let plane = drawn_plane(g, points, seed, t)->0;
            let (count, error) = tally(g, plane, limits.threshold_sq, points, len);
            &&& count <= inliers.len()
            &&& !end.complete ==> (end.best_plane matches Some(best) && {
                let (most, least) = tally(g, best, limits.threshold_sq, points, len);
                &&& inliers.len() == most
                &&& !beats(count, error, most, least)
                &&& exists|u: int|
                    0 <= u < end.outcome.draws && #[trigger] drawn_plane(g, points, seed, u)
                        == Some(best)
            })
        }),
{
    let len = points.len() as int;
    let start = search_start(limits, seed);
    let end = search_end(g, points, limits, start, limits.iterations as nat);
    lemma_end_has_the_best(g, points, limits, seed, start, limits.iterations as nat);
    let plane = drawn_plane(g, points, seed, t)->0;
    lemma_tally_counts(g, plane, limits.threshold_sq, points, len);
    lemma_tally_filter(g, plane, limits.threshold_sq, points, len);
    assert(points.take(len) =~= points);
    if let Some(best) = end.best_plane {
        lemma_tally_filter(g, best, limits.threshold_sq, points, len);
    }
}

/// Whether a search is made at all.
pub open spec fn search_is_possible(
    points: Seq<Point3>,
    iterations: int,
    inlier_distance_m: Float32,
) -> bool {
    points.len() >= 3 && iterations > 0 && inlier_distance_m.is_finite_spec()
        && Float32::zero_spec().lt_spec(inlier_distance_m)
}

/// How a hypothesis did against the best plane so far.
#[derive(Clone, Copy, PartialEq, Eq, Structural)]
enum Trial {
    Lost { after: usize },
    Scored { count: usize, error: Float32 },
}

fn try_plane<N: Numerics>(
    n: &N,
    plane: PlaneEquation,
    threshold_sq: Float32,
    points: &[Point3],
    best_count: usize,
    best_error: Float32,
) -> (r: Trial)
    ensures
        r matches Trial::Lost { after } ==> 1 <= after <= points.len(),
        r matches Trial::Scored { count, error } ==> count <= points.len(),
        forall|g: Arithmetic| #[trigger]
            computes(*n, g) ==> {
                let loss = first_loss(
                    g,
                    plane,
                    threshold_sq,
                    points@,
                    best_count as int,
                    best_error,
                    1,
                );
                match r {
                    Trial::Lost { after } => loss == after,
                    Trial::Scored { count, error } => loss > points.len() && tally(
                        g,
                        plane,
                        threshold_sq,
                        points@,
                        points.len() as int,
                    ) == (count as int, error),
                }
            },
{
    let mut count: usize = 0;
    let mut error = Float32::zero();
    let mut k: usize = 0;
    while k < points.len()
        invariant
            k <= points.len(),
            count <= k,
            forall|g: Arithmetic| #[trigger]
                computes(*n, g) ==> {
                    &&& tally(g, plane, threshold_sq, points@, k as int) == (count as int, error)
                    &&& first_loss(
                        g,
                        plane,
                        threshold_sq,
                        points@,
                        best_count as int,
                        best_error,
                        1,
                    ) == first_loss(
                        g,
                        plane,
                        threshold_sq,
                        points@,
                        best_count as int,
                        best_error,
                        k + 1,
                    )
                },
        decreases points.len() - k,
    {
        let squared = distance_squared(n, plane, points[k]);
        if squared.le(threshold_sq) {
            count += 1;
            error = n.sum(error, squared);
        }
        let possible: usize = count + (points.len() - k - 1);
        k += 1;
        if possible < best_count || (possible == best_count && best_error.le(error)) {
            return Trial::Lost { after: k };
        }
    }
    Trial::Scored { count, error }
}

fn step<N: Numerics>(n: &N, points: &[Point3], limits: RansacLimits, s: RansacSearch) -> (r:
    RansacSearch)
    requires
        points.len() >= 3,
        s.outcome.draws < usize::MAX,
        s.outcome.pruned_hypotheses < usize::MAX,
        s.outcome.point_tests + points.len() <= u128::MAX,
        s.outcome.point_tests_skipped + points.len() <= u128::MAX,
    ensures
        r.outcome.draws == s.outcome.draws + 1,
        r.outcome.pruned_hypotheses <= s.outcome.pruned_hypotheses + 1,
        r.outcome.point_tests <= s.outcome.point_tests + points.len(),
        r.outcome.point_tests_skipped <= s.outcome.point_tests_skipped + points.len(),
        forall|g: Arithmetic| #[trigger]
            computes(*n, g) ==> r == search_step(g, points@, limits, s),
{
    let mut r = s;
    r.outcome.draws = s.outcome.draws + 1;
    let mut random_state: u64 = s.random_state;
    let (i0, i1, i2) = sample_three_distinct_indices(&mut random_state, points.len());
    r.random_state = random_state;
    let plane = match plane_through(n, points[i0], points[i1], points[i2]) {
        None => {
            return r;
        },
        Some(plane) => plane,
    };
    let trial = try_plane(
        n,
        plane,
        limits.threshold_sq,
        points,
        s.best_inlier_count,
        s.best_squared_error,
    );
    match trial {
        Trial::Lost { after } => {
            r.outcome.pruned_hypotheses = s.outcome.pruned_hypotheses + 1;
            let skipped: usize = points.len() - after;
            r.outcome.point_tests = s.outcome.point_tests + after as u128;
            r.outcome.point_tests_skipped = s.outcome.point_tests_skipped + skipped as u128;
        },
        Trial::Scored { count, error } => {
            r.outcome.point_tests = s.outcome.point_tests + points.len() as u128;
            if count == points.len() {
                r.complete = true;
            } else if count > s.best_inlier_count || (count == s.best_inlier_count && error.lt(
                s.best_squared_error,
            )) {
                r.best_plane = Some(plane);
                r.best_inlier_count = count;
                r.best_squared_error = error;
                let limit: usize = adaptive_ransac_iteration_limit(
                    n,
                    count,
                    points.len(),
                    limits.confidence,
                    limits.min_iterations,
                    limits.iterations,
                );
                if limit < s.required_iterations {
                    r.required_iterations = limit;
                }
            }
        },
    }
    r
}

/// Draws planes through three points each, and stores the points near the plane
/// with the most inliers in `inliers`; of two planes with as many, the one with
/// the smaller sum of squared distances counts.
///
/// The draws depend on `center_key` alone, so the same points give the same
/// result.
pub fn ransac_plane_inliers<N: Numerics>(
    n: &N,
    points: &[Point3],
    center_key: VoxelKey,
    iterations: usize,
    min_iterations: usize,
    confidence: Float64,
    inlier_distance_m: Float32,
    inliers: &mut Vec<Point3>,
) -> (r: RansacOutcome)
    ensures
        r.found <==> final(inliers).len() > 0,
        forall|i: int| 0 <= i < final(inliers).len() ==> points@.contains(#[trigger] final(inliers)[i]),
        !search_is_possible(points@, iterations as int, inlier_distance_m) ==> r == no_outcome()
            && final(inliers)@ == Seq::<Point3>::empty(),
        forall|g: Arithmetic| #[trigger]
            computes(*n, g) && search_is_possible(points@, iterations as int, inlier_distance_m)
                ==> {
                let limits = RansacLimits {
                    iterations,
                    min_iterations,
                    confidence,
                    threshold_sq: (g.product)(inlier_distance_m, inlier_distance_m),
                };
                let end = search_end(
                    g,
                    points@,
                    limits,
                    search_start(limits, ransac_seed_spec(center_key)),
                    iterations as nat,
                );
                &&& final(inliers)@ == search_inliers(g, points@, limits, end)
                &&& r == search_outcome(limits, end, final(inliers)@)
            },
{
    inliers.clear();
    let nothing = RansacOutcome {
        found: false,
        draws: 0,
        pruned_hypotheses: 0,
        point_tests: 0,
        point_tests_skipped: 0,
        adaptive_stopped: false,
        iterations_saved: 0,
    };
    if points.len() < 3 || iterations == 0 || !inlier_distance_m.is_finite()
        || !Float32::zero().lt(inlier_distance_m) {
        return nothing;
    }
    let limits = RansacLimits {
        iterations,
        min_iterations,
        confidence,
        threshold_sq: n.product(inlier_distance_m, inlier_distance_m),
    };
    let mut s = RansacSearch {
        random_state: ransac_seed(center_key),
        best_plane: None,
        best_inlier_count: 0,
        best_squared_error: Float32::infinity(),
        required_iterations: iterations,
        complete: false,
        outcome: nothing,
    };
    let ghost start = s;
    let len: usize = points.len();
    while !s.complete && s.outcome.draws < iterations && s.outcome.draws < s.required_iterations
        invariant
            len == points.len(),
            len >= 3,
            iterations == limits.iterations,
            s.outcome.draws <= iterations,
            s.outcome.pruned_hypotheses <= s.outcome.draws,
            s.outcome.point_tests <= len * s.outcome.draws,
            s.outcome.point_tests_skipped <= len * s.outcome.draws,
            forall|g: Arithmetic| #[trigger]
                computes(*n, g) ==> search_end(g, points@, limits, start, iterations as nat)
                    == search_end(
                    g,
                    points@,
                    limits,
                    s,
                    (iterations - s.outcome.draws) as nat,
                ),
        decreases iterations - s.outcome.draws,
    {
        proof {
            let draws = s.outcome.draws as int;
            assert(len * draws + len == len * (draws + 1)) by (nonlinear_arith);
            assert(len * (draws + 1) <= usize::MAX * usize::MAX) by (nonlinear_arith)
                requires
                    0 <= draws + 1 <= usize::MAX,
                    0 <= len <= usize::MAX,
            ;
            assert(usize::MAX * usize::MAX <= u128::MAX) by (nonlinear_arith)
                requires
                    usize::MAX <= 0xffff_ffff_ffff_ffff,
            ;
        }
        s = step(n, points, limits, s);
    }
    if s.complete {
        let mut i: usize = 0;
        while i < points.len()
            invariant
                i <= points.len(),
                inliers@ == points@.take(i as int),
            decreases points.len() - i,
        {
            inliers.push(points[i]);
            i += 1;
            assert(inliers@ =~= points@.take(i as int));
        }
        assert(points@.take(i as int) =~= points@);
        let mut outcome = s.outcome;
        outcome.found = true;
        return outcome;
    }
    let mut outcome = s.outcome;
    outcome.adaptive_stopped = false;
    outcome.iterations_saved = 0;
    if s.required_iterations < iterations && s.outcome.draws >= s.required_iterations {
        outcome.adaptive_stopped = true;
        outcome.iterations_saved = iterations - s.outcome.draws;
    }
    if let Some(plane) = s.best_plane {
        let mut i: usize = 0;
        while i < points.len()
            invariant
                i <= points.len(),
                forall|j: int| 0 <= j < inliers.len() ==> points@.contains(#[trigger] inliers[j]),
                forall|g: Arithmetic| #[trigger]
                    computes(*n, g) ==> inliers@ == points@.take(i as int).filter(
                        |p: Point3| is_inlier(g, plane, limits.threshold_sq, p),
                    ),
            decreases points.len() - i,
        {
            let p = points[i];
            let squared = distance_squared(n, plane, p);
            let ghost before = inliers@;
            if squared.le(limits.threshold_sq) {
                inliers.push(p);
            }
            proof {
                assert(points@.contains(points[i as int]));
                assert forall|g: Arithmetic| #[trigger] computes(*n, g) implies inliers@
                    == points@.take(i + 1).filter(
                    |p: Point3| is_inlier(g, plane, limits.threshold_sq, p),
                ) by {
                    let near = |p: Point3| is_inlier(g, plane, limits.threshold_sq, p);
                    assert(points@.take(i + 1) =~= points@.take(i as int).push(p));
                    points@.take(i as int).lemma_filter_push(p, near);
                }
            }
            i += 1;
        }
        assert(points@.take(i as int) =~= points@);
    }
    outcome.found = inliers.len() > 0;
    outcome
}

/// What a search returns are some of the points, in their order and no more than there
/// are: all of them where it is complete, and else those whose squared distance from the
/// best plane is at most the threshold.
pub proof fn inliers_are_some_of_the_points(
    g: Arithmetic,
    points: Seq<Point3>,
    limits: RansacLimits,
    s: RansacSearch,
)
    ensures
        ({
            let inliers = search_inliers(g, points, limits, s);
            &&& inliers.len() <= points.len()
            &&& s.complete ==> inliers == points
            &&& !s.complete && s.best_plane is None ==> inliers.len() == 0
            &&& !s.complete ==> forall|p: Point3| #[trigger]
                inliers.contains(p) ==> points.contains(p) && {
                    let plane = s.best_plane->0;
                    let distance = (g.sum)((g.dot)(plane.normal, p), plane.d);
                    (g.product)(distance, distance).le_spec(limits.threshold_sq)
                }
            &&& !s.complete ==> forall|p: Point3|
                (s.best_plane matches Some(plane) && #[trigger] points.contains(p) && {
                    let distance = (g.sum)((g.dot)(plane.normal, p), plane.d);
                    (g.product)(distance, distance).le_spec(limits.threshold_sq)
                }) ==> inliers.contains(p)
        }),
{
    if !s.complete {
        if let Some(plane) = s.best_plane {
            let near = |p: Point3| is_inlier(g, plane, limits.threshold_sq, p);
            let inliers = points.filter(near);
            points.lemma_filter_len(near);
            assert forall|p: Point3| #[trigger] inliers.contains(p) implies points.contains(p)
                && near(p) by {
                let i = inliers.index_of(p);
                points.lemma_filter_pred(near, i);
                lemma_filter_source(points, near, i);
            }
            assert forall|p: Point3| #[trigger] points.contains(p) && near(p) implies
                inliers.contains(p) by {
                let i = points.index_of(p);
                points.lemma_filter_contains(near, i);
            }
        }
    }
}

proof fn lemma_filter_source(points: Seq<Point3>, near: spec_fn(Point3) -> bool, i: int)
    requires
        0 <= i < points.filter(near).len(),
    ensures
        points.contains(points.filter(near)[i]),
    decreases points.len(),
{
    reveal(Seq::filter);
    if points.len() > 0 {
        let before = points.drop_last();
        if i < before.filter(near).len() {
            lemma_filter_source(before, near, i);
            let j = before.index_of(before.filter(near)[i]);
            assert(points[j] == before[j]);
        } else {
            assert(points[points.len() - 1] == points.last());
        }
    }
}

/// The plane through three points holds the first of them, where a number and its
/// opposite add up to zero, and its normal, as long as the cross product of the two ways
/// from there to the others, is that product, where dividing a vector undoes scaling it.
/// There is a plane exactly where the product is longer than a millionth and finite.
pub proof fn planes_go_through_their_points(g: Arithmetic, p0: Point3, p1: Point3, p2: Point3)
    requires
        forall|x: Float32| #[trigger] (g.sum)(x, x.neg_spec()) == Float32::zero_spec(),
        forall|v: Point3, s: Float32| #[trigger]
            (g.vector_scaled)((g.vector_divided)(v, s), s) == v,
    ensures
        ({
            let product = (g.cross)((g.vector_difference)(p1, p0), (g.vector_difference)(p2, p0));
            let length = (g.norm)(product);
            &&& plane_through_spec(g, p0, p1, p2) is Some <==> length.is_finite_spec()
                && !length.le_spec(Float32 { bits: 0x3586_37bd })
            &&& plane_through_spec(g, p0, p1, p2) matches Some(plane) ==> {
                &&& (g.sum)((g.dot)(plane.normal, p0), plane.d) == Float32::zero_spec()
                &&& (g.vector_scaled)(plane.normal, length) == product
            }
        }),
{
}

/// The distance of a point from a plane is zero where `normal . p` is the opposite of
/// `d`, and moving the point changes it by the way along the normal.
pub proof fn signed_distances_grow_along_the_normal(
    g: Arithmetic,
    plane: PlaneEquation,
    p: Point3,
    way: Point3,
)
    requires
        (g.dot)(plane.normal, (g.vector_sum)(p, way)) == (g.sum)(
            (g.dot)(plane.normal, p),
            (g.dot)(plane.normal, way),
        ),
        forall|a: Float32, b: Float32, c: Float32| #[trigger]
            (g.sum)((g.sum)(a, b), c) == (g.sum)((g.sum)(a, c), b),
    ensures
        (g.sum)((g.dot)(plane.normal, p), plane.d) == Float32::zero_spec()
            ==> signed_distance_spec(g, plane, p) == Float32::zero_spec(),
        signed_distance_spec(g, plane, (g.vector_sum)(p, way)) == (g.sum)(
            signed_distance_spec(g, plane, p),
            (g.dot)(plane.normal, way),
        ),
        distance_squared_spec(g, plane, p) == (g.product)(
            signed_distance_spec(g, plane, p),
            signed_distance_spec(g, plane, p),
        ),
{
}

/// The number of samples is between the wanted minimum and the maximum. It is the maximum
/// while no inlier is known, and the minimum once every sample would be of inliers. The
/// chance of that is the share of inliers to the third power.
pub proof fn sampling_stops_between_its_limits(
    g: Arithmetic,
    best: int,
    points: int,
    confidence: Float64,
    min_iterations: int,
    max_iterations: int,
)
    requires
        0 <= best <= points <= u64::MAX,
        0 <= min_iterations,
        0 < max_iterations,
    ensures
        ({
            let limit = iteration_limit(
                g,
                best,
                points,
                confidence,
                min_iterations,
                max_iterations,
            );
            let share = (g.quotient64)(
                (g.from_count64)(best as u64),
                (g.from_count64)(points as u64),
            );
            let chance = (g.product64)((g.product64)(share, share), share);
            let one = Float64 { bits: F64_ONE };
            let usable = Float64::zero_spec().le_spec(confidence) && confidence.lt_spec(one);
            let needed = (g.ceil64)(
                (g.quotient64)(
                    (g.ln64)((g.difference64)(one, confidence)),
                    (g.ln_1p64)(chance.neg_spec()),
                ),
            );
            let draws = (g.to_u64)(needed) as int;
            &&& 1 <= limit <= max_iterations
            &&& min_iterations <= max_iterations ==> min_iterations <= limit
            &&& best == 0 || !usable ==> limit == max_iterations
            &&& best > 0 && usable && one.le_spec(chance) && 1 <= min_iterations <= max_iterations
                ==> limit == min_iterations
            &&& best > 0 && usable && !one.le_spec(chance) && needed.is_finite_spec()
                && !needed.le_spec(Float64::zero_spec()) && 1 <= draws && min_iterations <= draws
                <= max_iterations ==> limit == draws
        }),
{
}

proof fn lemma_multiplied_back(x: u64, p: u64, q: u64)
    requires
        p as int * q as int % 0x1_0000_0000_0000_0000 == 1,
    ensures
        x.wrapping_mul(p).wrapping_mul(q) == x,
{
    let m: int = 0x1_0000_0000_0000_0000;
    let (a, b, c) = (x as int, p as int, q as int);
    vstd::arithmetic::div_mod::lemma_mul_mod_noop_left(a * b, c, m);
    assert((a * b) * c == a * (b * c)) by (nonlinear_arith);
    vstd::arithmetic::div_mod::lemma_mul_mod_noop_right(a, b * c, m);
    assert(a * 1 == a);
    vstd::arithmetic::div_mod::lemma_small_mod(x as nat, m as nat);
}

/// Mixing and stepping tell states apart, so the numbers that are drawn go through all of
/// them before one comes again.
pub proof fn mixing_tells_states_apart(s: u64, t: u64)
    ensures
        mixed(s) == mixed(t) ==> s == t,
        next_state(s) == next_state(t) ==> s == t,
{
    let (a, b): (u64, u64) = (0xbf58_476d_1ce4_e5b9, 0x94d0_49bb_1331_11eb);
    let (c, d): (u64, u64) = (0x96de_1b17_3f11_9089, 0x3196_42b2_d24d_8ec3);
    assert(0xbf58_476d_1ce4_e5b9int * 0x96de_1b17_3f11_9089int % 0x1_0000_0000_0000_0000 == 1) by (nonlinear_arith);
    assert(0x94d0_49bb_1331_11ebint * 0x3196_42b2_d24d_8ec3int % 0x1_0000_0000_0000_0000 == 1) by (nonlinear_arith);
    let (s1, t1) = (s ^ (s >> 30), t ^ (t >> 30));
    let (s2, t2) = (s1.wrapping_mul(a), t1.wrapping_mul(a));
    let (s3, t3) = (s2 ^ (s2 >> 27), t2 ^ (t2 >> 27));
    let (s4, t4) = (s3.wrapping_mul(b), t3.wrapping_mul(b));
    lemma_multiplied_back(s1, a, c);
    lemma_multiplied_back(t1, a, c);
    lemma_multiplied_back(s3, b, d);
    lemma_multiplied_back(t3, b, d);
    assert(s4 ^ (s4 >> 31) == t4 ^ (t4 >> 31) ==> s4 == t4) by (bit_vector);
    assert(s2 ^ (s2 >> 27) == t2 ^ (t2 >> 27) ==> s2 == t2) by (bit_vector);
    assert(s ^ (s >> 30) == t ^ (t >> 30) ==> s == t) by (bit_vector);
}

/// Voxels that differ along one axis are searched with different seeds.
pub proof fn seeds_tell_voxels_apart(key: VoxelKey, other: VoxelKey)
    ensures
        key.ix != other.ix && key.iy == other.iy && key.iz == other.iz ==> ransac_seed_spec(key)
            != ransac_seed_spec(other),
        key.ix == other.ix && key.iy != other.iy && key.iz == other.iz ==> ransac_seed_spec(key)
            != ransac_seed_spec(other),
        key.ix == other.ix && key.iy == other.iy && key.iz != other.iz ==> ransac_seed_spec(key)
            != ransac_seed_spec(other),
{
    let (a, b, c): (u64, u64, u64) = (0x9e37_79b1_85eb_ca87, 0xc2b2_ae3d_27d4_eb4f, 0x1656_67b1_9e37_79f9);
    assert(0x9e37_79b1_85eb_ca87int * 0x0887_4934_32ba_db37int % 0x1_0000_0000_0000_0000 == 1) by (nonlinear_arith);
    assert(0xc2b2_ae3d_27d4_eb4fint * 0x0ba7_9078_168d_4bafint % 0x1_0000_0000_0000_0000 == 1) by (nonlinear_arith);
    assert(0x1656_67b1_9e37_79f9int * 0xe9e9_f4c4_1d6d_f849int % 0x1_0000_0000_0000_0000 == 1) by (nonlinear_arith);
    let (x, y, z) = (key.ix, key.iy, key.iz);
    let (u, v, w) = (other.ix, other.iy, other.iz);
    assert(x as u32 as u64 == u as u32 as u64 ==> x == u) by (bit_vector);
    assert(y as u32 as u64 == v as u32 as u64 ==> y == v) by (bit_vector);
    assert(z as u32 as u64 == w as u32 as u64 ==> z == w) by (bit_vector);
    let (kx, ky, kz) = (x as u32 as u64, y as u32 as u64, z as u32 as u64);
    let (ox, oy, oz) = (u as u32 as u64, v as u32 as u64, w as u32 as u64);
    lemma_multiplied_back(kx, a, 0x0887_4934_32ba_db37);
    lemma_multiplied_back(ox, a, 0x0887_4934_32ba_db37);
    lemma_multiplied_back(ky, b, 0x0ba7_9078_168d_4baf);
    lemma_multiplied_back(oy, b, 0x0ba7_9078_168d_4baf);
    lemma_multiplied_back(kz, c, 0xe9e9_f4c4_1d6d_f849);
    lemma_multiplied_back(oz, c, 0xe9e9_f4c4_1d6d_f849);
    let (k1, k2, k3) = (kx.wrapping_mul(a), ky.wrapping_mul(b), kz.wrapping_mul(c));
    let (o1, o2, o3) = (ox.wrapping_mul(a), oy.wrapping_mul(b), oz.wrapping_mul(c));
    assert(k1 ^ k2 ^ k3 ^ 0xa076_1d64_78bd_642f == o1 ^ k2 ^ k3 ^ 0xa076_1d64_78bd_642f ==> k1
        == o1) by (bit_vector);
    assert(k1 ^ k2 ^ k3 ^ 0xa076_1d64_78bd_642f == k1 ^ o2 ^ k3 ^ 0xa076_1d64_78bd_642f ==> k2
        == o2) by (bit_vector);
    assert(k1 ^ k2 ^ k3 ^ 0xa076_1d64_78bd_642f == k1 ^ k2 ^ o3 ^ 0xa076_1d64_78bd_642f ==> k3
        == o3) by (bit_vector);
}

/// The three points of a sample are three different ones.
pub proof fn samples_are_of_three_different_points(state: u64, len: int)
    requires
        len >= 3,
    ensures
        ({
            let (a, b, c) = three_indices(state, len);
            &&& 0 <= a < len && 0 <= b < len && 0 <= c < len
            &&& a != b && b != c && a != c
        }),
{
    let second = index_at(next_state(state), len - 1);
    let third = index_at(next_state(next_state(state)), len - 2);
    assert(0 <= index_at(state, len) < len);
    assert(0 <= second < len - 1);
    assert(0 <= third < len - 2);
}

/// A point is an inlier where the square of its distance is not above the square of the
/// limit.
pub proof fn inliers_are_near_their_plane(
    g: Arithmetic,
    plane: PlaneEquation,
    threshold_sq: Float32,
    p: Point3,
)
    ensures
        ({
            let away = (g.sum)((g.dot)(plane.normal, p), plane.d);
            is_inlier(g, plane, threshold_sq, p) <==> (g.product)(away, away).le_spec(threshold_sq)
        }),
{
}

/// A search that stops early saves what it does not draw: the draws and what is saved add
/// up to the limit. It has found a plane where it is complete or where inliers are left.
pub proof fn searches_save_what_they_do_not_draw(
    limits: RansacLimits,
    s: RansacSearch,
    inliers: Seq<Point3>,
)
    requires
        s.outcome.draws <= limits.iterations,
    ensures
        ({
            let r = search_outcome(limits, s, inliers);
            &&& r.draws == s.outcome.draws
            &&& r.found <==> s.complete || inliers.len() > 0
            &&& !s.complete ==> (r.adaptive_stopped <==> s.required_iterations
                <= s.outcome.draws && s.required_iterations < limits.iterations)
            &&& !s.complete && r.adaptive_stopped ==> r.draws + r.iterations_saved
                == limits.iterations
            &&& !s.complete && !r.adaptive_stopped ==> r.iterations_saved == 0
            &&& r.point_tests == s.outcome.point_tests
            &&& r.point_tests_skipped == s.outcome.point_tests_skipped
            &&& r.pruned_hypotheses == s.outcome.pruned_hypotheses
        }),
{
}

/// A search can be made among three points or more, with at least one draw, and with a
/// limit that is a positive number; it goes on until it is complete or has drawn enough.
pub proof fn searches_go_on_until_enough_is_drawn(
    points: Seq<Point3>,
    iterations: int,
    distance: Float32,
    limits: RansacLimits,
    s: RansacSearch,
)
    ensures
        search_is_possible(points, iterations, distance) <==> 3 <= points.len() && 1 <= iterations
            && 0 < distance.bits && distance.bits < 0x7f80_0000,
        s.complete ==> !search_goes_on(limits, s),
        !s.complete && !search_goes_on(limits, s) ==> s.outcome.draws >= limits.iterations
            || s.outcome.draws >= s.required_iterations,
        search_goes_on(limits, s) ==> s.outcome.draws < limits.iterations && s.outcome.draws
            < s.required_iterations,
{
}

} // verus!
