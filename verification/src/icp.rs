//! Point-to-plane alignment: the linear system of a set of correspondences, its
//! solution in the directions that the correspondences determine, and the error of a
//! pose.

use vstd::prelude::*;

use crate::find_nearest_points::PointCorrespondence;
use crate::float::{Float32, F32_EPSILON, F32_HALF, F32_ONE, F32_TWO};
use crate::matrix6::{matrix6_of, vector6_of, Eigen6, Matrix6, Vector6};
use crate::numerics::{
    computes, world_point, world_point_spec, Arithmetic, Matrix3, Numerics, Point3, Pose,
};
use crate::ransac::{signed_distance, signed_distance_spec, PlaneEquation};

verus! {

// ---------------------------------------------------------------------------
// The system
// ---------------------------------------------------------------------------

/// The linear system of a set of correspondences.
#[derive(Clone, Copy, Debug, PartialEq, Eq, Structural)]
pub struct IcpLinearSystem {
    pub h: Matrix6,
    pub b: Vector6,
    /// The sum of the losses.
    pub cost: Float32,
    pub used_count: usize,
}

pub open spec fn empty_system() -> IcpLinearSystem {
    IcpLinearSystem {
        h: Matrix6::zeros_spec(),
        b: Vector6::zeros_spec(),
        cost: Float32::zero_spec(),
        used_count: 0,
    }
}

impl Default for IcpLinearSystem {
    fn default() -> (r: IcpLinearSystem)
        ensures
            r == empty_system(),
    {
        IcpLinearSystem {
            h: Matrix6::zeros(),
            b: Vector6::zeros(),
            cost: Float32::zero(),
            used_count: 0,
        }
    }
}

/// The weight and the loss of a residual under Huber's function: a square up to
/// `delta`, and a line beyond. An infinite `delta` leaves the square everywhere.
pub open spec fn huber_spec(g: Arithmetic, residual: Float32, delta: Float32) -> (
    Float32,
    Float32,
) {
    let size = residual.abs_spec();
    if !delta.is_finite_spec() || size.le_spec(delta) {
        (Float32 { bits: F32_ONE }, (g.product)(residual, residual))
    } else if Float32::zero_spec().lt_spec(delta) && size.is_finite_spec() {
        (
            (g.quotient)(delta, size.max_spec(Float32 { bits: F32_EPSILON })),
            (g.difference)(
                (g.product)((g.product)(Float32 { bits: F32_TWO }, delta), size),
                (g.product)(delta, delta),
            ),
        )
    } else {
        (Float32::zero_spec(), Float32::infinity_spec())
    }
}

pub fn huber_weight_and_loss<N: Numerics>(n: &N, residual: Float32, delta: Float32) -> (r: (
    Float32,
    Float32,
))
    ensures
        forall|g: Arithmetic| #[trigger] computes(*n, g) ==> r == huber_spec(g, residual, delta),
{
    let size = residual.abs();
    if !delta.is_finite() || size.le(delta) {
        (Float32 { bits: F32_ONE }, n.product(residual, residual))
    } else if Float32::zero().lt(delta) && size.is_finite() {
        (
            n.quotient(delta, size.max(Float32 { bits: F32_EPSILON })),
            n.difference(
                n.product(n.product(Float32 { bits: F32_TWO }, delta), size),
                n.product(delta, delta),
            ),
        )
    } else {
        (Float32::zero(), Float32::infinity())
    }
}

pub fn huber_loss<N: Numerics>(n: &N, residual: Float32, delta: Float32) -> (r: Float32)
    ensures
        forall|g: Arithmetic| #[trigger]
            computes(*n, g) ==> r == huber_spec(g, residual, delta).1,
{
    let (_, loss) = huber_weight_and_loss(n, residual, delta);
    loss
}

pub open spec fn plane_of(corr: PointCorrespondence) -> PlaneEquation {
    PlaneEquation { normal: corr.plane_normal, d: corr.plane_d }
}

/// The distance of a corresponding point from its plane, at `pose`.
pub open spec fn residual_spec(g: Arithmetic, corr: PointCorrespondence, pose: Pose) -> Float32 {
    signed_distance_spec(g, plane_of(corr), world_point_spec(g, pose, corr.src_point))
}

pub fn residual<N: Numerics>(n: &N, corr: &PointCorrespondence, pose: Pose) -> (r: Float32)
    ensures
        forall|g: Arithmetic| #[trigger] computes(*n, g) ==> r == residual_spec(g, *corr, pose),
{
    let plane = PlaneEquation { normal: corr.plane_normal, d: corr.plane_d };
    signed_distance(n, plane, world_point(n, pose, corr.src_point))
}

/// How the residual changes with the pose: with the rotation in the first three
/// entries, and with the translation in the last three.
pub open spec fn jacobian_spec(g: Arithmetic, corr: PointCorrespondence, pose: Pose) -> Vector6 {
    let turn = (g.cross)((g.transformed)(pose.rotation, corr.src_point), corr.plane_normal);
    let normal = corr.plane_normal;
    Vector6 { e0: turn.x, e1: turn.y, e2: turn.z, e3: normal.x, e4: normal.y, e5: normal.z }
}

fn jacobian<N: Numerics>(n: &N, corr: &PointCorrespondence, pose: Pose) -> (r: Vector6)
    ensures
        forall|g: Arithmetic| #[trigger] computes(*n, g) ==> r == jacobian_spec(g, *corr, pose),
{
    let turn = n.cross(n.transformed(pose.rotation, corr.src_point), corr.plane_normal);
    let normal = corr.plane_normal;
    Vector6 { e0: turn.x, e1: turn.y, e2: turn.z, e3: normal.x, e4: normal.y, e5: normal.z }
}

/// `h` with the weighted outer product of `j` added, in and above the diagonal.
pub open spec fn with_outer(g: Arithmetic, h: Matrix6, weight: Float32, j: Vector6) -> Matrix6 {
    matrix6_of(
        |row: int, col: int|
            if col >= row {
                (g.sum)(
                    h.entry_spec(row, col),
                    (g.product)((g.product)(weight, j.entry_spec(row)), j.entry_spec(col)),
                )
            } else {
                h.entry_spec(row, col)
            },
    )
}

/// `b` less the weighted product of `j` and the residual.
pub open spec fn with_gradient(
    g: Arithmetic,
    b: Vector6,
    weight: Float32,
    j: Vector6,
    residual: Float32,
) -> Vector6 {
    vector6_of(
        |row: int|
            (g.difference)(
                b.entry_spec(row),
                (g.product)((g.product)(weight, j.entry_spec(row)), residual),
            ),
    )
}

fn outer_entry<N: Numerics>(
    n: &N,
    h: Matrix6,
    weight: Float32,
    j: Vector6,
    row: usize,
    col: usize,
) -> (r: Float32)
    requires
        row < 6,
        col < 6,
    ensures
        forall|g: Arithmetic| #[trigger]
            computes(*n, g) ==> r == if col >= row {
                (g.sum)(
                    h.entry_spec(row as int, col as int),
                    (g.product)(
                        (g.product)(weight, j.entry_spec(row as int)),
                        j.entry_spec(col as int),
                    ),
                )
            } else {
                h.entry_spec(row as int, col as int)
            },
{
    if col >= row {
        n.sum(h.entry(row, col), n.product(n.product(weight, j.entry(row)), j.entry(col)))
    } else {
        h.entry(row, col)
    }
}

fn outer_row<N: Numerics>(n: &N, h: Matrix6, weight: Float32, j: Vector6, row: usize) -> (r:
    Vector6)
    requires
        row < 6,
    ensures
        forall|g: Arithmetic| #[trigger]
            computes(*n, g) ==> r == with_outer(g, h, weight, j).row_spec(row as int),
{
    Vector6 {
        e0: outer_entry(n, h, weight, j, row, 0),
        e1: outer_entry(n, h, weight, j, row, 1),
        e2: outer_entry(n, h, weight, j, row, 2),
        e3: outer_entry(n, h, weight, j, row, 3),
        e4: outer_entry(n, h, weight, j, row, 4),
        e5: outer_entry(n, h, weight, j, row, 5),
    }
}

fn gradient_entry<N: Numerics>(
    n: &N,
    b: Vector6,
    weight: Float32,
    j: Vector6,
    residual: Float32,
    row: usize,
) -> (r: Float32)
    requires
        row < 6,
    ensures
        forall|g: Arithmetic| #[trigger]
            computes(*n, g) ==> r == (g.difference)(
                b.entry_spec(row as int),
                (g.product)((g.product)(weight, j.entry_spec(row as int)), residual),
            ),
{
    n.difference(b.entry(row), n.product(n.product(weight, j.entry(row)), residual))
}

/// The system after one more correspondence.
pub open spec fn with_correspondence(
    g: Arithmetic,
    system: IcpLinearSystem,
    corr: PointCorrespondence,
    pose: Pose,
    delta: Float32,
) -> IcpLinearSystem {
    let e = residual_spec(g, corr, pose);
    let (weight, loss) = huber_spec(g, e, delta);
    let j = jacobian_spec(g, corr, pose);
    IcpLinearSystem {
        h: with_outer(g, system.h, weight, j),
        b: with_gradient(g, system.b, weight, j, e),
        cost: (g.sum)(system.cost, loss),
        used_count: (system.used_count + 1) as usize,
    }
}

fn add_correspondence<N: Numerics>(
    n: &N,
    system: IcpLinearSystem,
    corr: &PointCorrespondence,
    pose: Pose,
    delta: Float32,
) -> (r: IcpLinearSystem)
    requires
        system.used_count < usize::MAX,
    ensures
        r.used_count == system.used_count + 1,
        forall|g: Arithmetic| #[trigger]
            computes(*n, g) ==> r == with_correspondence(g, system, *corr, pose, delta),
{
    let e = residual(n, corr, pose);
    let (weight, loss) = huber_weight_and_loss(n, e, delta);
    let j = jacobian(n, corr, pose);
    let (h, b) = (system.h, system.b);
    IcpLinearSystem {
        h: Matrix6 {
            r0: outer_row(n, h, weight, j, 0),
            r1: outer_row(n, h, weight, j, 1),
            r2: outer_row(n, h, weight, j, 2),
            r3: outer_row(n, h, weight, j, 3),
            r4: outer_row(n, h, weight, j, 4),
            r5: outer_row(n, h, weight, j, 5),
        },
        b: Vector6 {
            e0: gradient_entry(n, b, weight, j, e, 0),
            e1: gradient_entry(n, b, weight, j, e, 1),
            e2: gradient_entry(n, b, weight, j, e, 2),
            e3: gradient_entry(n, b, weight, j, e, 3),
            e4: gradient_entry(n, b, weight, j, e, 4),
            e5: gradient_entry(n, b, weight, j, e, 5),
        },
        cost: n.sum(system.cost, loss),
        used_count: system.used_count + 1,
    }
}

/// The system of the first `k` correspondences, in and above the diagonal.
pub open spec fn system_upto(
    g: Arithmetic,
    correspondences: Seq<PointCorrespondence>,
    pose: Pose,
    delta: Float32,
    k: int,
) -> IcpLinearSystem
    decreases k,
{
    if k <= 0 {
        empty_system()
    } else {
        with_correspondence(
            g,
            system_upto(g, correspondences, pose, delta, k - 1),
            correspondences[k - 1],
            pose,
            delta,
        )
    }
}

/// `h` with its upper half mirrored into the lower.
pub open spec fn mirrored_spec(h: Matrix6) -> Matrix6 {
    matrix6_of(
        |row: int, col: int|
            if row > col {
                h.entry_spec(col, row)
            } else {
                h.entry_spec(row, col)
            },
    )
}

fn mirrored_entry(h: Matrix6, row: usize, col: usize) -> (r: Float32)
    requires
        row < 6,
        col < 6,
    ensures
        r == if row > col {
            h.entry_spec(col as int, row as int)
        } else {
            h.entry_spec(row as int, col as int)
        },
{
    if row > col {
        h.entry(col, row)
    } else {
        h.entry(row, col)
    }
}

fn mirrored_row(h: Matrix6, row: usize) -> (r: Vector6)
    requires
        row < 6,
    ensures
        r == mirrored_spec(h).row_spec(row as int),
{
    Vector6 {
        e0: mirrored_entry(h, row, 0),
        e1: mirrored_entry(h, row, 1),
        e2: mirrored_entry(h, row, 2),
        e3: mirrored_entry(h, row, 3),
        e4: mirrored_entry(h, row, 4),
        e5: mirrored_entry(h, row, 5),
    }
}

fn mirrored(h: Matrix6) -> (r: Matrix6)
    ensures
        r == mirrored_spec(h),
{
    Matrix6 {
        r0: mirrored_row(h, 0),
        r1: mirrored_row(h, 1),
        r2: mirrored_row(h, 2),
        r3: mirrored_row(h, 3),
        r4: mirrored_row(h, 4),
        r5: mirrored_row(h, 5),
    }
}

/// The system of `correspondences` at `pose`, each weighted by Huber's function.
pub open spec fn system_of(
    g: Arithmetic,
    correspondences: Seq<PointCorrespondence>,
    pose: Pose,
    delta: Float32,
) -> IcpLinearSystem {
    let half = system_upto(g, correspondences, pose, delta, correspondences.len() as int);
    IcpLinearSystem { h: mirrored_spec(half.h), ..half }
}

/// Builds the system of `correspondences` with Huber's function. `huber_delta_m` is the
/// distance at which it turns from a square into a line; infinity leaves the square.
pub fn build_robust_point_to_plane_system<N: Numerics>(
    n: &N,
    correspondences: &[PointCorrespondence],
    r_mat: Matrix3,
    t_vec: Point3,
    huber_delta_m: Float32,
) -> (r: IcpLinearSystem)
    ensures
        r.used_count == correspondences.len(),
        forall|g: Arithmetic| #[trigger]
            computes(*n, g) ==> r == system_of(
                g,
                correspondences@,
                (Pose { rotation: r_mat, translation: t_vec }),
                huber_delta_m,
            ),
{
    let pose = Pose { rotation: r_mat, translation: t_vec };
    let mut system = IcpLinearSystem {
        h: Matrix6::zeros(),
        b: Vector6::zeros(),
        cost: Float32::zero(),
        used_count: 0,
    };
    let mut k: usize = 0;
    while k < correspondences.len()
        invariant
            k <= correspondences.len(),
            system.used_count == k,
            forall|g: Arithmetic| #[trigger]
                computes(*n, g) ==> system == system_upto(
                    g,
                    correspondences@,
                    pose,
                    huber_delta_m,
                    k as int,
                ),
        decreases correspondences.len() - k,
    {
        system = add_correspondence(n, system, &correspondences[k], pose, huber_delta_m);
        k += 1;
    }
    IcpLinearSystem {
        h: mirrored(system.h),
        b: system.b,
        cost: system.cost,
        used_count: system.used_count,
    }
}

/// Builds the system of `correspondences`, all with the same weight.
pub fn build_point_to_plane_system<N: Numerics>(
    n: &N,
    correspondences: &[PointCorrespondence],
    r_mat: Matrix3,
    t_vec: Point3,
) -> (r: IcpLinearSystem)
    ensures
        r.used_count == correspondences.len(),
        forall|g: Arithmetic| #[trigger]
            computes(*n, g) ==> r == system_of(
                g,
                correspondences@,
                (Pose { rotation: r_mat, translation: t_vec }),
                Float32::infinity_spec(),
            ),
{
    build_robust_point_to_plane_system(n, correspondences, r_mat, t_vec, Float32::infinity())
}

/// The matrix of a system is symmetric.
pub proof fn system_is_symmetric(
    g: Arithmetic,
    correspondences: Seq<PointCorrespondence>,
    pose: Pose,
    delta: Float32,
    row: int,
    col: int,
)
    requires
        0 <= row < 6,
        0 <= col < 6,
    ensures
        system_of(g, correspondences, pose, delta).h.entry_spec(row, col) == system_of(
            g,
            correspondences,
            pose,
            delta,
        ).h.entry_spec(col, row),
{
}

// ---------------------------------------------------------------------------
// The solution
// ---------------------------------------------------------------------------

/// A step of the pose, and what it rests on.
#[derive(Clone, Copy, Debug, PartialEq, Eq, Structural)]
pub struct IcpSolveResult {
    /// The rotation, as axis times angle, and the translation.
    pub delta: Vector6,
    /// How many directions the correspondences determine.
    pub observable_rank: usize,
    /// The smallest eigenvalue that was kept over the largest one.
    pub min_observable_eigenvalue_ratio: Float32,
}

/// 0.1 m and 100 m, between which the characteristic length is held.
pub const MIN_LENGTH: u32 = 0x3dcc_cccd;

pub const MAX_LENGTH: u32 = 0x42c8_0000;

/// The number of correspondences below which nothing is solved.
pub const MIN_SOLVED_CORRESPONDENCES: usize = 6;

/// The sum of the diagonal of `h` from `first` on, three entries, negative ones being
/// counted as zero.
pub open spec fn diagonal_sum(g: Arithmetic, h: Matrix6, first: int) -> Float32 {
    let zero = Float32::zero_spec();
    (g.sum)(
        (g.sum)(
            (g.sum)(zero, h.entry_spec(first, first).max_spec(zero)),
            h.entry_spec(first + 1, first + 1).max_spec(zero),
        ),
        h.entry_spec(first + 2, first + 2).max_spec(zero),
    )
}

fn diagonal_total<N: Numerics>(n: &N, h: Matrix6, first: usize) -> (r: Float32)
    requires
        first <= 3,
    ensures
        forall|g: Arithmetic| #[trigger]
            computes(*n, g) ==> r == diagonal_sum(g, h, first as int),
{
    let zero = Float32::zero();
    n.sum(
        n.sum(
            n.sum(zero, h.entry(first, first).max(zero)),
            h.entry(first + 1, first + 1).max(zero),
        ),
        h.entry(first + 2, first + 2).max(zero),
    )
}

/// The lever arm by which a rotation is measured in metres.
pub open spec fn characteristic_length(
    g: Arithmetic,
    rotation_sum: Float32,
    translation_sum: Float32,
) -> Float32 {
    let epsilon = Float32 { bits: F32_EPSILON };
    if epsilon.lt_spec(translation_sum) && epsilon.lt_spec(rotation_sum) {
        (g.square_root)((g.quotient)(rotation_sum, translation_sum)).clamp_spec(
            Float32 { bits: MIN_LENGTH },
            Float32 { bits: MAX_LENGTH },
        )
    } else {
        Float32 { bits: F32_ONE }
    }
}

/// The scale of each entry of a step: `length` for the rotation and 1 for the
/// translation.
pub open spec fn scales_spec(length: Float32) -> Vector6 {
    vector6_of(|i: int| if i < 3 { length } else { Float32 { bits: F32_ONE } })
}

fn scales(length: Float32) -> (r: Vector6)
    ensures
        r == scales_spec(length),
{
    let one = Float32 { bits: F32_ONE };
    Vector6 { e0: length, e1: length, e2: length, e3: one, e4: one, e5: one }
}

/// `a` over `b`, by entry.
pub open spec fn quotients_spec(g: Arithmetic, a: Vector6, b: Vector6) -> Vector6 {
    vector6_of(|i: int| (g.quotient)(a.entry_spec(i), b.entry_spec(i)))
}

fn quotients<N: Numerics>(n: &N, a: Vector6, b: Vector6) -> (r: Vector6)
    ensures
        forall|g: Arithmetic| #[trigger] computes(*n, g) ==> r == quotients_spec(g, a, b),
{
    Vector6 {
        e0: n.quotient(a.e0, b.e0),
        e1: n.quotient(a.e1, b.e1),
        e2: n.quotient(a.e2, b.e2),
        e3: n.quotient(a.e3, b.e3),
        e4: n.quotient(a.e4, b.e4),
        e5: n.quotient(a.e5, b.e5),
    }
}

/// An entry of `h` in scaled coordinates.
pub open spec fn scaled_entry(
    g: Arithmetic,
    h: Matrix6,
    scale: Vector6,
    row: int,
    col: int,
) -> Float32 {
    (g.quotient)(
        h.entry_spec(row, col),
        (g.product)(scale.entry_spec(row), scale.entry_spec(col)),
    )
}

/// `h` in scaled coordinates, made symmetric.
pub open spec fn normalized_spec(g: Arithmetic, h: Matrix6, scale: Vector6) -> Matrix6 {
    matrix6_of(
        |row: int, col: int|
            (g.product)(
                (g.sum)(
                    scaled_entry(g, h, scale, row, col),
                    scaled_entry(g, h, scale, col, row),
                ),
                Float32 { bits: F32_HALF },
            ),
    )
}

fn normalized_entry<N: Numerics>(n: &N, h: Matrix6, scale: Vector6, row: usize, col: usize) -> (r:
    Float32)
    requires
        row < 6,
        col < 6,
    ensures
        forall|g: Arithmetic| #[trigger]
            computes(*n, g) ==> r == normalized_spec(g, h, scale).entry_spec(
                row as int,
                col as int,
            ),
{
    let here = n.quotient(h.entry(row, col), n.product(scale.entry(row), scale.entry(col)));
    let there = n.quotient(h.entry(col, row), n.product(scale.entry(col), scale.entry(row)));
    n.product(n.sum(here, there), Float32 { bits: F32_HALF })
}

fn normalized_row<N: Numerics>(n: &N, h: Matrix6, scale: Vector6, row: usize) -> (r: Vector6)
    requires
        row < 6,
    ensures
        forall|g: Arithmetic| #[trigger]
            computes(*n, g) ==> r == normalized_spec(g, h, scale).row_spec(row as int),
{
    Vector6 {
        e0: normalized_entry(n, h, scale, row, 0),
        e1: normalized_entry(n, h, scale, row, 1),
        e2: normalized_entry(n, h, scale, row, 2),
        e3: normalized_entry(n, h, scale, row, 3),
        e4: normalized_entry(n, h, scale, row, 4),
        e5: normalized_entry(n, h, scale, row, 5),
    }
}

fn normalized<N: Numerics>(n: &N, h: Matrix6, scale: Vector6) -> (r: Matrix6)
    ensures
        forall|g: Arithmetic| #[trigger] computes(*n, g) ==> r == normalized_spec(g, h, scale),
{
    Matrix6 {
        r0: normalized_row(n, h, scale, 0),
        r1: normalized_row(n, h, scale, 1),
        r2: normalized_row(n, h, scale, 2),
        r3: normalized_row(n, h, scale, 3),
        r4: normalized_row(n, h, scale, 4),
        r5: normalized_row(n, h, scale, 5),
    }
}

/// The first of two values where it is no smaller, and else the second.
pub open spec fn larger_value(a: Float32, b: Float32) -> Float32 {
    if b.le_spec(a) {
        a
    } else {
        b
    }
}

/// The largest of the first `k` entries.
pub open spec fn largest_upto(v: Vector6, k: int) -> Float32
    decreases k,
{
    if k <= 1 {
        v.e0
    } else {
        larger_value(largest_upto(v, k - 1), v.entry_spec(k - 1))
    }
}

/// The largest eigenvalue, and 0 where all are negative.
pub open spec fn largest_eigenvalue(values: Vector6) -> Float32 {
    largest_upto(values, 6).max_spec(Float32::zero_spec())
}

fn largest(values: Vector6) -> (r: Float32)
    ensures
        r == largest_eigenvalue(values),
{
    let mut best = values.e0;
    let mut k: usize = 1;
    while k < 6
        invariant
            1 <= k <= 6,
            best == largest_upto(values, k as int),
        decreases 6 - k,
    {
        let next = values.entry(k);
        if !next.le(best) {
            best = next;
        }
        k += 1;
    }
    best.max(Float32::zero())
}

/// `v` and `factor` times `direction`.
pub open spec fn advanced_spec(
    g: Arithmetic,
    v: Vector6,
    direction: Vector6,
    factor: Float32,
) -> Vector6 {
    vector6_of(
        |i: int|
            (g.sum)(v.entry_spec(i), (g.product)(direction.entry_spec(i), factor)),
    )
}

fn advanced<N: Numerics>(n: &N, v: Vector6, direction: Vector6, factor: Float32) -> (r: Vector6)
    ensures
        forall|g: Arithmetic| #[trigger]
            computes(*n, g) ==> r == advanced_spec(g, v, direction, factor),
{
    Vector6 {
        e0: n.sum(v.e0, n.product(direction.e0, factor)),
        e1: n.sum(v.e1, n.product(direction.e1, factor)),
        e2: n.sum(v.e2, n.product(direction.e2, factor)),
        e3: n.sum(v.e3, n.product(direction.e3, factor)),
        e4: n.sum(v.e4, n.product(direction.e4, factor)),
        e5: n.sum(v.e5, n.product(direction.e5, factor)),
    }
}

/// A step in the directions that were kept so far.
#[derive(Clone, Copy, Debug, PartialEq, Eq, Structural)]
pub struct PartialStep {
    pub delta: Vector6,
    pub rank: usize,
    pub min_retained: Float32,
}

/// Whether the eigenvalue is large enough for its direction to be kept.
pub open spec fn is_observable(eigenvalue: Float32, cutoff: Float32) -> bool {
    eigenvalue.is_finite_spec() && !eigenvalue.lt_spec(cutoff)
}

/// The step in those of the first `k` eigenvectors that are kept.
pub open spec fn step_upto(
    g: Arithmetic,
    eigen: Eigen6,
    b: Vector6,
    damping: Float32,
    cutoff: Float32,
    max_eigenvalue: Float32,
    k: int,
) -> PartialStep
    decreases k,
{
    if k <= 0 {
        PartialStep { delta: Vector6::zeros_spec(), rank: 0, min_retained: max_eigenvalue }
    } else {
        let before = step_upto(g, eigen, b, damping, cutoff, max_eigenvalue, k - 1);
        let eigenvalue = eigen.values.entry_spec(k - 1);
        let direction = eigen.vectors.column_spec(k - 1);
        if !is_observable(eigenvalue, cutoff) {
            before
        } else {
            PartialStep {
                delta: advanced_spec(
                    g,
                    before.delta,
                    direction,
                    (g.quotient)((g.dot6)(direction, b), (g.sum)(eigenvalue, damping)),
                ),
                rank: (before.rank + 1) as usize,
                min_retained: before.min_retained.min_spec(eigenvalue),
            }
        }
    }
}

/// Whether the system and the parameters allow a solution at all.
pub open spec fn can_be_solved(
    system: IcpLinearSystem,
    damping: Float32,
    threshold: Float32,
) -> bool {
    &&& system.used_count >= MIN_SOLVED_CORRESPONDENCES
    &&& damping.is_finite_spec() && !damping.lt_spec(Float32::zero_spec())
    &&& Float32::zero_spec().le_spec(threshold) && threshold.lt_spec(Float32 { bits: F32_ONE })
    &&& system.h.is_finite_spec()
    &&& system.b.is_finite_spec()
}

/// The step in the observable directions. There is none where the system cannot be
/// solved, determines no direction, or gives a step that is not finite.
pub open spec fn observable_step(
    g: Arithmetic,
    system: IcpLinearSystem,
    damping: Float32,
    threshold: Float32,
) -> Option<IcpSolveResult> {
    let epsilon = Float32 { bits: F32_EPSILON };
    let rotation_sum = diagonal_sum(g, system.h, 0);
    let translation_sum = diagonal_sum(g, system.h, 3);
    let scale = scales_spec(characteristic_length(g, rotation_sum, translation_sum));
    let eigen = (g.symmetric_eigen6)(normalized_spec(g, system.h, scale));
    let max_eigenvalue = largest_eigenvalue(eigen.values);
    let cutoff = (g.product)(max_eigenvalue, threshold).max_spec(epsilon);
    let step = step_upto(
        g,
        eigen,
        quotients_spec(g, system.b, scale),
        damping,
        cutoff,
        max_eigenvalue,
        6,
    );
    let delta = quotients_spec(g, step.delta, scale);
    if !can_be_solved(system, damping, threshold) {
        None
    } else if !rotation_sum.is_finite_spec() || !translation_sum.is_finite_spec() || (g.sum)(
        rotation_sum,
        translation_sum,
    ).le_spec(epsilon) {
        None
    } else if !max_eigenvalue.is_finite_spec() || max_eigenvalue.le_spec(epsilon) {
        None
    } else if step.rank == 0 || !delta.is_finite_spec() {
        None
    } else {
        Some(
            IcpSolveResult {
                delta,
                observable_rank: step.rank,
                min_observable_eigenvalue_ratio: (g.quotient)(step.min_retained, max_eigenvalue),
            },
        )
    }
}

fn solve_directions<N: Numerics>(
    n: &N,
    eigen: Eigen6,
    b: Vector6,
    damping: Float32,
    cutoff: Float32,
    max_eigenvalue: Float32,
) -> (r: PartialStep)
    ensures
        r.rank <= 6,
        forall|g: Arithmetic| #[trigger]
            computes(*n, g) ==> r == step_upto(g, eigen, b, damping, cutoff, max_eigenvalue, 6),
{
    let mut step = PartialStep {
        delta: Vector6::zeros(),
        rank: 0,
        min_retained: max_eigenvalue,
    };
    let mut k: usize = 0;
    while k < 6
        invariant
            k <= 6,
            step.rank <= k,
            forall|g: Arithmetic| #[trigger]
                computes(*n, g) ==> step == step_upto(
                    g,
                    eigen,
                    b,
                    damping,
                    cutoff,
                    max_eigenvalue,
                    k as int,
                ),
        decreases 6 - k,
    {
        let eigenvalue = eigen.values.entry(k);
        if eigenvalue.is_finite() && !eigenvalue.lt(cutoff) {
            let direction = eigen.vectors.column(k);
            let factor = n.quotient(n.dot6(direction, b), n.sum(eigenvalue, damping));
            step = PartialStep {
                delta: advanced(n, step.delta, direction, factor),
                rank: step.rank + 1,
                min_retained: step.min_retained.min(eigenvalue),
            };
        }
        k += 1;
    }
    step
}

/// Solves the system in the directions that the correspondences determine.
///
/// Rotations are measured at the lever arm of the cloud, so that both parts of a step
/// have the same unit. A direction whose eigenvalue is below
/// `relative_eigenvalue_threshold` times the largest one gets no step: there the
/// prediction that the alignment started from stays.
pub fn solve_icp_delta_observable<N: Numerics>(
    n: &N,
    system: &IcpLinearSystem,
    damping: Float32,
    relative_eigenvalue_threshold: Float32,
) -> (r: Option<IcpSolveResult>)
    ensures
        !can_be_solved(*system, damping, relative_eigenvalue_threshold) ==> r is None,
        r matches Some(result) ==> 1 <= result.observable_rank <= 6
            && result.delta.is_finite_spec(),
        forall|g: Arithmetic| #[trigger]
            computes(*n, g) ==> r == observable_step(
                g,
                *system,
                damping,
                relative_eigenvalue_threshold,
            ),
{
    let zero = Float32::zero();
    let one = Float32 { bits: F32_ONE };
    let epsilon = Float32 { bits: F32_EPSILON };
    if system.used_count < MIN_SOLVED_CORRESPONDENCES || !damping.is_finite() || damping.lt(zero)
        || !(zero.le(relative_eigenvalue_threshold) && relative_eigenvalue_threshold.lt(one))
        || !system.h.is_finite() || !system.b.is_finite() {
        return None;
    }
    let rotation_sum = diagonal_total(n, system.h, 0);
    let translation_sum = diagonal_total(n, system.h, 3);
    if !rotation_sum.is_finite() || !translation_sum.is_finite() || n.sum(
        rotation_sum,
        translation_sum,
    ).le(epsilon) {
        return None;
    }
    let length = if epsilon.lt(translation_sum) && epsilon.lt(rotation_sum) {
        n.square_root(n.quotient(rotation_sum, translation_sum)).clamp(
            Float32 { bits: MIN_LENGTH },
            Float32 { bits: MAX_LENGTH },
        )
    } else {
        one
    };
    let scale = scales(length);
    let eigen = n.symmetric_eigen6(normalized(n, system.h, scale));
    let max_eigenvalue = largest(eigen.values);
    if !max_eigenvalue.is_finite() || max_eigenvalue.le(epsilon) {
        return None;
    }
    let cutoff = n.product(max_eigenvalue, relative_eigenvalue_threshold).max(epsilon);
    let step = solve_directions(
        n,
        eigen,
        quotients(n, system.b, scale),
        damping,
        cutoff,
        max_eigenvalue,
    );
    if step.rank == 0 {
        return None;
    }
    let delta = quotients(n, step.delta, scale);
    if !delta.is_finite() {
        return None;
    }
    Some(
        IcpSolveResult {
            delta,
            observable_rank: step.rank,
            min_observable_eigenvalue_ratio: n.quotient(step.min_retained, max_eigenvalue),
        },
    )
}

/// Solves the system in all directions that it determines.
pub fn solve_icp_delta<N: Numerics>(n: &N, system: &IcpLinearSystem, damping: Float32) -> (r:
    Option<Vector6>)
    ensures
        system.used_count < MIN_SOLVED_CORRESPONDENCES ==> r is None,
        forall|g: Arithmetic| #[trigger]
            computes(*n, g) ==> match observable_step(
                g,
                *system,
                damping,
                Float32::zero_spec(),
            ) {
                None => r is None,
                Some(result) => r == Some(result.delta),
            },
{
    match solve_icp_delta_observable(n, system, damping, Float32::zero()) {
        None => None,
        Some(result) => Some(result.delta),
    }
}

// ---------------------------------------------------------------------------
// Poses and their errors
// ---------------------------------------------------------------------------

/// `pose` after the step `delta`.
pub open spec fn stepped(g: Arithmetic, pose: Pose, delta: Vector6) -> Pose {
    let turn = Point3 { x: delta.e0, y: delta.e1, z: delta.e2 };
    let shift = Point3 { x: delta.e3, y: delta.e4, z: delta.e5 };
    Pose {
        rotation: (g.matrix_product)((g.scaled_axis_rotation)(turn), pose.rotation),
        translation: (g.vector_sum)(pose.translation, shift),
    }
}

/// Takes the step `delta`: a rotation before the one of the pose, and a shift.
pub fn apply_delta<N: Numerics>(n: &N, r_mat: Matrix3, t_vec: Point3, delta: &Vector6) -> (r: (
    Matrix3,
    Point3,
))
    ensures
        forall|g: Arithmetic| #[trigger]
            computes(*n, g) ==> (Pose { rotation: r.0, translation: r.1 }) == stepped(
                g,
                (Pose { rotation: r_mat, translation: t_vec }),
                *delta,
            ),
{
    let turn = Point3 { x: delta.e0, y: delta.e1, z: delta.e2 };
    let shift = Point3 { x: delta.e3, y: delta.e4, z: delta.e5 };
    (
        n.matrix_product(n.scaled_axis_rotation(turn), r_mat),
        n.vector_sum(t_vec, shift),
    )
}

/// The sum of the squared residuals of the first `k` correspondences.
pub open spec fn squares_upto(
    g: Arithmetic,
    correspondences: Seq<PointCorrespondence>,
    pose: Pose,
    k: int,
) -> Float32
    decreases k,
{
    if k <= 0 {
        Float32::zero_spec()
    } else {
        let e = residual_spec(g, correspondences[k - 1], pose);
        (g.sum)(squares_upto(g, correspondences, pose, k - 1), (g.product)(e, e))
    }
}

/// The root of the mean squared residual, and infinity where there are none.
pub open spec fn rmse_spec(
    g: Arithmetic,
    correspondences: Seq<PointCorrespondence>,
    pose: Pose,
) -> Float32 {
    if correspondences.len() == 0 {
        Float32::infinity_spec()
    } else {
        (g.square_root)(
            (g.quotient)(
                squares_upto(g, correspondences, pose, correspondences.len() as int),
                (g.from_count)(correspondences.len() as u64),
            ),
        )
    }
}

pub fn compute_rmse<N: Numerics>(
    n: &N,
    correspondences: &[PointCorrespondence],
    r_mat: Matrix3,
    t_vec: Point3,
) -> (r: Float32)
    ensures
        correspondences.len() == 0 ==> r == Float32::infinity_spec(),
        forall|g: Arithmetic| #[trigger]
            computes(*n, g) ==> r == rmse_spec(
                g,
                correspondences@,
                (Pose { rotation: r_mat, translation: t_vec }),
            ),
{
    if correspondences.len() == 0 {
        return Float32::infinity();
    }
    let pose = Pose { rotation: r_mat, translation: t_vec };
    let mut total = Float32::zero();
    let mut k: usize = 0;
    while k < correspondences.len()
        invariant
            k <= correspondences.len(),
            forall|g: Arithmetic| #[trigger]
                computes(*n, g) ==> total == squares_upto(g, correspondences@, pose, k as int),
        decreases correspondences.len() - k,
    {
        let e = residual(n, &correspondences[k], pose);
        total = n.sum(total, n.product(e, e));
        k += 1;
    }
    n.square_root(n.quotient(total, n.from_count(correspondences.len() as u64)))
}

/// The sum of the losses of the first `k` correspondences.
pub open spec fn losses_upto(
    g: Arithmetic,
    correspondences: Seq<PointCorrespondence>,
    pose: Pose,
    delta: Float32,
    k: int,
) -> Float32
    decreases k,
{
    if k <= 0 {
        Float32::zero_spec()
    } else {
        (g.sum)(
            losses_upto(g, correspondences, pose, delta, k - 1),
            huber_spec(g, residual_spec(g, correspondences[k - 1], pose), delta).1,
        )
    }
}

/// The sum of the losses of all correspondences.
pub open spec fn robust_cost_spec(
    g: Arithmetic,
    correspondences: Seq<PointCorrespondence>,
    pose: Pose,
    delta: Float32,
) -> Float32 {
    losses_upto(g, correspondences, pose, delta, correspondences.len() as int)
}

pub fn compute_robust_cost<N: Numerics>(
    n: &N,
    correspondences: &[PointCorrespondence],
    r_mat: Matrix3,
    t_vec: Point3,
    huber_delta_m: Float32,
) -> (r: Float32)
    ensures
        forall|g: Arithmetic| #[trigger]
            computes(*n, g) ==> r == robust_cost_spec(
                g,
                correspondences@,
                (Pose { rotation: r_mat, translation: t_vec }),
                huber_delta_m,
            ),
{
    let pose = Pose { rotation: r_mat, translation: t_vec };
    let mut total = Float32::zero();
    let mut k: usize = 0;
    while k < correspondences.len()
        invariant
            k <= correspondences.len(),
            forall|g: Arithmetic| #[trigger]
                computes(*n, g) ==> total == losses_upto(
                    g,
                    correspondences@,
                    pose,
                    huber_delta_m,
                    k as int,
                ),
        decreases correspondences.len() - k,
    {
        total = n.sum(
            total,
            huber_loss(n, residual(n, &correspondences[k], pose), huber_delta_m),
        );
        k += 1;
    }
    total
}

/// The cost that a system was built with is the cost of its correspondences.
pub proof fn system_has_the_robust_cost(
    g: Arithmetic,
    correspondences: Seq<PointCorrespondence>,
    pose: Pose,
    delta: Float32,
)
    ensures
        system_of(g, correspondences, pose, delta).cost == robust_cost_spec(
            g,
            correspondences,
            pose,
            delta,
        ),
{
    lemma_system_cost(g, correspondences, pose, delta, correspondences.len() as int);
}

proof fn lemma_system_cost(
    g: Arithmetic,
    correspondences: Seq<PointCorrespondence>,
    pose: Pose,
    delta: Float32,
    k: int,
)
    ensures
        system_upto(g, correspondences, pose, delta, k).cost == losses_upto(
            g,
            correspondences,
            pose,
            delta,
            k,
        ),
    decreases k,
{
    if k > 0 {
        lemma_system_cost(g, correspondences, pose, delta, k - 1);
    }
}

/// A direction that is not observable adds nothing to the step.
pub proof fn unobservable_directions_get_no_step(
    g: Arithmetic,
    eigen: Eigen6,
    b: Vector6,
    damping: Float32,
    cutoff: Float32,
    max_eigenvalue: Float32,
    k: int,
)
    requires
        0 < k <= 6,
        !is_observable(eigen.values.entry_spec(k - 1), cutoff),
    ensures
        step_upto(g, eigen, b, damping, cutoff, max_eigenvalue, k) == step_upto(
            g,
            eigen,
            b,
            damping,
            cutoff,
            max_eigenvalue,
            k - 1,
        ),
{
}

// ---------------------------------------------------------------------------
// What steps, residuals and systems are
// ---------------------------------------------------------------------------

/// Whether a product of matrices applies its factors in turn, the right one first.
pub open spec fn products_apply_in_turn(g: Arithmetic) -> bool {
    forall|a: Matrix3, b: Matrix3, p: Point3| #[trigger]
        (g.transformed)((g.matrix_product)(a, b), p) == (g.transformed)(a, (g.transformed)(b, p))
}

/// A step turns what the pose has turned, and shifts what the pose has shifted: a point
/// goes where its turned place is turned once more, by the vector of the first three
/// entries, and both translations are added. Where a product of matrices applies its
/// factors in turn but for an error, the point is as near to that place.
pub proof fn a_step_follows_the_pose(
    g: Arithmetic,
    pose: Pose,
    delta: Vector6,
    p: Point3,
    gap: spec_fn(Point3, Point3) -> int,
    error: int,
)
    requires
        forall|a: Matrix3, b: Matrix3|
            gap(
                (g.transformed)(#[trigger] (g.matrix_product)(a, b), p),
                (g.transformed)(a, (g.transformed)(b, p)),
            ) <= error,
    ensures
        ({
            let after = stepped(g, pose, delta);
            let turn = (g.scaled_axis_rotation)(
                Point3 { x: delta.e0, y: delta.e1, z: delta.e2 },
            );
            let shift = Point3 { x: delta.e3, y: delta.e4, z: delta.e5 };
            let turned = (g.transformed)(turn, (g.transformed)(pose.rotation, p));
            &&& gap((g.transformed)(after.rotation, p), turned) <= error
            &&& products_apply_in_turn(g) ==> (g.transformed)(after.rotation, p) == turned
            &&& after.translation == (g.vector_sum)(pose.translation, shift)
        }),
{
}

/// A step without a turn keeps the rotation, and one without a shift the translation,
/// where the zero vector turns and shifts nothing.
pub proof fn a_step_without_a_part_keeps_it(g: Arithmetic, pose: Pose, delta: Vector6)
    requires
        forall|m: Matrix3| #[trigger]
            (g.matrix_product)((g.scaled_axis_rotation)(Point3::origin_spec()), m) == m,
        forall|t: Point3| #[trigger] (g.vector_sum)(t, Point3::origin_spec()) == t,
    ensures
        delta.e0 == Float32::zero_spec() && delta.e1 == Float32::zero_spec() && delta.e2
            == Float32::zero_spec() ==> stepped(g, pose, delta).rotation == pose.rotation,
        delta.e3 == Float32::zero_spec() && delta.e4 == Float32::zero_spec() && delta.e5
            == Float32::zero_spec() ==> stepped(g, pose, delta).translation == pose.translation,
{
    let zero = Float32::zero_spec();
    assert(Point3::origin_spec() == (Point3 { x: zero, y: zero, z: zero }));
    let turn = Point3 { x: delta.e0, y: delta.e1, z: delta.e2 };
    let shift = Point3 { x: delta.e3, y: delta.e4, z: delta.e5 };
    assert(delta.e0 == zero && delta.e1 == zero && delta.e2 == zero ==> turn
        == Point3::origin_spec());
    assert(delta.e3 == zero && delta.e4 == zero && delta.e5 == zero ==> shift
        == Point3::origin_spec());
}

/// The residual of a point that the pose takes onto its plane is zero: one at `q`, where
/// `normal . q + d` is.
pub proof fn points_on_their_plane_have_no_residual(
    g: Arithmetic,
    corr: PointCorrespondence,
    pose: Pose,
    q: Point3,
)
    requires
        (g.vector_sum)((g.transformed)(pose.rotation, corr.src_point), pose.translation) == q,
        (g.sum)((g.dot)(corr.plane_normal, q), corr.plane_d) == Float32::zero_spec(),
    ensures
        residual_spec(g, corr, pose) == Float32::zero_spec(),
{
}

/// Whether a dot product adds up over the sum of two vectors, and sums can be regrouped.
pub open spec fn dots_add_up(g: Arithmetic) -> bool {
    &&& forall|n: Point3, a: Point3, b: Point3| #[trigger]
        (g.dot)(n, (g.vector_sum)(a, b)) == (g.sum)((g.dot)(n, a), (g.dot)(n, b))
    &&& forall|a: Point3, b: Point3, c: Point3| #[trigger]
        (g.vector_sum)(a, (g.vector_sum)(b, c)) == (g.vector_sum)((g.vector_sum)(a, b), c)
    &&& forall|a: Float32, b: Float32, c: Float32| #[trigger]
        (g.sum)((g.sum)(a, b), c) == (g.sum)((g.sum)(a, c), b)
}

/// Shifting the pose changes a residual by the shift along the normal of the plane, which
/// the last three entries of the derivative hold.
pub proof fn shifts_change_residuals_along_the_normal(
    g: Arithmetic,
    corr: PointCorrespondence,
    pose: Pose,
    shift: Point3,
)
    requires
        dots_add_up(g),
    ensures
        ({
            let j = jacobian_spec(g, corr, pose);
            let moved = Pose { translation: (g.vector_sum)(pose.translation, shift), ..pose };
            residual_spec(g, corr, moved) == (g.sum)(
                residual_spec(g, corr, pose),
                (g.dot)(Point3 { x: j.e3, y: j.e4, z: j.e5 }, shift),
            )
        }),
{
    let turned = (g.transformed)(pose.rotation, corr.src_point);
    let here = (g.vector_sum)(turned, pose.translation);
    assert((g.vector_sum)(turned, (g.vector_sum)(pose.translation, shift)) == (g.vector_sum)(
        here,
        shift,
    ));
    assert((g.dot)(corr.plane_normal, (g.vector_sum)(here, shift)) == (g.sum)(
        (g.dot)(corr.plane_normal, here),
        (g.dot)(corr.plane_normal, shift),
    ));
}

/// Turning by a small vector `w` moves the turned point by `w x (R p)`, and so changes the
/// residual by that way along the normal; the first three entries of the derivative,
/// along `w`, are this change, where the triple product can be turned round.
pub proof fn turns_change_residuals_by_the_lever_arm(
    g: Arithmetic,
    corr: PointCorrespondence,
    pose: Pose,
    w: Point3,
)
    requires
        forall|a: Point3, b: Point3, c: Point3| #[trigger]
            (g.dot)(a, (g.cross)(b, c)) == (g.dot)((g.cross)(a, b), c),
    ensures
        ({
            let j = jacobian_spec(g, corr, pose);
            (g.dot)(w, Point3 { x: j.e0, y: j.e1, z: j.e2 }) == (g.dot)(
                (g.cross)(w, (g.transformed)(pose.rotation, corr.src_point)),
                corr.plane_normal,
            )
        }),
{
}

/// Huber's function: up to `delta` a residual has the full weight and its square as loss.
/// Beyond, the weight times the size is `delta`, where a quotient times its divisor is
/// the dividend, and the loss is the line that meets the square at `delta` with twice
/// its slope. A residual and its opposite have the same weight and, where they have the
/// same square, the same loss. Beyond a `delta` that is not positive, and where it is not
/// finite, a residual has no weight and an infinite loss.
pub proof fn large_residuals_count_linearly(g: Arithmetic, residual: Float32, delta: Float32)
    requires
        !residual.is_nan_spec(),
        (g.product)((g.quotient)(delta, residual.abs_spec()), residual.abs_spec()) == delta,
        (g.product)(residual.neg_spec(), residual.neg_spec()) == (g.product)(residual, residual),
    ensures
        ({
            let (weight, loss) = huber_spec(g, residual, delta);
            let size = residual.abs_spec();
            let two = Float32 { bits: F32_TWO };
            &&& size.le_spec(delta) || delta == Float32::infinity_spec() ==> weight
                == (Float32 { bits: F32_ONE }) && loss == (g.product)(residual, residual)
            &&& delta.is_finite_spec() && Float32::zero_spec().lt_spec(delta) && delta.lt_spec(
                size,
            ) && size.is_finite_spec() && (Float32 { bits: F32_EPSILON }).le_spec(size) ==> {
                &&& (g.product)(weight, size) == delta
                &&& loss == (g.difference)(
                    (g.product)((g.product)(two, delta), size),
                    (g.product)(delta, delta),
                )
            }
            &&& huber_spec(g, residual.neg_spec(), delta) == (weight, loss)
            &&& delta.is_finite_spec() && delta.lt_spec(size) && (!Float32::zero_spec().lt_spec(
                delta,
            ) || !size.is_finite_spec()) ==> weight == Float32::zero_spec() && loss
                == Float32::infinity_spec()
        }),
{
}

proof fn lemma_system_prefix(
    g: Arithmetic,
    correspondences: Seq<PointCorrespondence>,
    more: PointCorrespondence,
    pose: Pose,
    delta: Float32,
    k: int,
)
    requires
        k <= correspondences.len(),
    ensures
        system_upto(g, correspondences.push(more), pose, delta, k) == system_upto(
            g,
            correspondences,
            pose,
            delta,
            k,
        ),
    decreases k,
{
    if k > 0 {
        lemma_system_prefix(g, correspondences, more, pose, delta, k - 1);
        assert(correspondences.push(more)[k - 1] == correspondences[k - 1]);
    }
}

/// One more correspondence with residual `e`, derivative `j` and weight `w` adds
/// `w j j'` to the matrix of a system and takes `w j e` from its right side, so that the
/// step goes against the residual; it adds its loss to the cost. A system without
/// correspondences is zero. What is taken away gives the old value when it is added
/// again.
pub proof fn a_correspondence_adds_its_normal_equations(
    g: Arithmetic,
    correspondences: Seq<PointCorrespondence>,
    more: PointCorrespondence,
    pose: Pose,
    delta: Float32,
    row: int,
    col: int,
)
    requires
        0 <= row <= col < 6,
        correspondences.len() < usize::MAX,
        forall|a: Float32, b: Float32| #[trigger] (g.sum)((g.difference)(a, b), b) == a,
    ensures
        ({
            let before = system_of(g, correspondences, pose, delta);
            let after = system_of(g, correspondences.push(more), pose, delta);
            let e = residual_spec(g, more, pose);
            let j = jacobian_spec(g, more, pose);
            let (w, loss) = huber_spec(g, e, delta);
            &&& after.h.entry_spec(row, col) == (g.sum)(
                before.h.entry_spec(row, col),
                (g.product)((g.product)(w, j.entry_spec(row)), j.entry_spec(col)),
            )
            &&& after.h.entry_spec(col, row) == after.h.entry_spec(row, col)
            &&& (g.sum)(
                after.b.entry_spec(row),
                (g.product)((g.product)(w, j.entry_spec(row)), e),
            ) == before.b.entry_spec(row)
            &&& after.cost == (g.sum)(before.cost, loss)
        }),
        ({
            let nothing = system_of(g, Seq::<PointCorrespondence>::empty(), pose, delta);
            &&& nothing.h.entry_spec(row, col) == Float32::zero_spec()
            &&& nothing.b.entry_spec(row) == Float32::zero_spec()
            &&& nothing.cost == Float32::zero_spec()
            &&& nothing.used_count == 0
        }),
{
    let len = correspondences.len() as int;
    lemma_system_prefix(g, correspondences, more, pose, delta, len);
    assert(correspondences.push(more)[len] == more);
    assert(correspondences.push(more).len() == len + 1);
}

// ---------------------------------------------------------------------------
// What solutions and errors are
// ---------------------------------------------------------------------------

/// Whether the eigenvectors are orthonormal to a linear dot product: along vector `i`, a
/// multiple of vector `j` adds the factor where `i` is `j`, and else nothing.
pub open spec fn is_orthonormal(g: Arithmetic, eigen: Eigen6) -> bool {
    let column = |i: int| eigen.vectors.column_spec(i);
    &&& forall|i: int|
        0 <= i < 6 ==> #[trigger] (g.dot6)(column(i), Vector6::zeros_spec())
            == Float32::zero_spec()
    &&& forall|i: int, j: int, v: Vector6, w: Vector6, factor: Float32|
        #![trigger (g.dot6)(column(i), w), (g.dot6)(column(j), v), (g.product)(column(j).e0, factor)]
        0 <= i < 6 && 0 <= j < 6 && (forall|m: int|
            0 <= m < 6 ==> #[trigger] w.entry_spec(m) == (g.sum)(
                v.entry_spec(m),
                (g.product)(column(j).entry_spec(m), factor),
            )) ==> (g.dot6)(column(i), w) == if i == j {
            (g.sum)((g.dot6)(column(i), v), factor)
        } else {
            (g.dot6)(column(i), v)
        }
}

/// The step solves the system in each observable direction: along an eigenvector whose
/// eigenvalue reaches the cutoff it is the right side over the damped eigenvalue, and
/// along every other one it is zero.
pub proof fn steps_solve_the_observable_directions(
    g: Arithmetic,
    eigen: Eigen6,
    b: Vector6,
    damping: Float32,
    cutoff: Float32,
    max_eigenvalue: Float32,
    i: int,
    k: int,
)
    requires
        0 <= i < 6,
        0 <= k <= 6,
        is_orthonormal(g, eigen),
        forall|x: Float32| #[trigger] (g.sum)(Float32::zero_spec(), x) == x,
    ensures
        ({
            let direction = eigen.vectors.column_spec(i);
            let value = eigen.values.entry_spec(i);
            let step = step_upto(g, eigen, b, damping, cutoff, max_eigenvalue, k);
            (g.dot6)(direction, step.delta) == if i < k && value.is_finite_spec()
                && !value.lt_spec(cutoff) {
                (g.quotient)((g.dot6)(direction, b), (g.sum)(value, damping))
            } else {
                Float32::zero_spec()
            }
        }),
    decreases k,
{
    let column = |j: int| eigen.vectors.column_spec(j);
    assert(column(i) == eigen.vectors.column_spec(i));
    if k > 0 {
        steps_solve_the_observable_directions(
            g,
            eigen,
            b,
            damping,
            cutoff,
            max_eigenvalue,
            i,
            k - 1,
        );
        let before = step_upto(g, eigen, b, damping, cutoff, max_eigenvalue, k - 1);
        let after = step_upto(g, eigen, b, damping, cutoff, max_eigenvalue, k);
        let value = eigen.values.entry_spec(k - 1);
        if value.is_finite_spec() && !value.lt_spec(cutoff) {
            let direction = column(k - 1);
            let factor = (g.quotient)((g.dot6)(direction, b), (g.sum)(value, damping));
            assert forall|m: int| 0 <= m < 6 implies #[trigger] after.delta.entry_spec(m)
                == (g.sum)(
                before.delta.entry_spec(m),
                (g.product)(direction.entry_spec(m), factor),
            ) by {}
            let along = (g.dot6)(column(k - 1), before.delta);
            assert((g.dot6)(column(i), after.delta) == if i == k - 1 {
                (g.sum)(along, factor)
            } else {
                (g.dot6)(column(i), before.delta)
            });
        }
    }
}

/// The rank counts the observable directions, and no eigenvalue of one of them is below
/// the least that is reported.
pub proof fn the_rank_counts_observable_directions(
    g: Arithmetic,
    eigen: Eigen6,
    b: Vector6,
    damping: Float32,
    cutoff: Float32,
    max_eigenvalue: Float32,
    i: int,
    k: int,
)
    requires
        0 < k <= 6,
        0 <= i < k,
        !max_eigenvalue.is_nan_spec(),
    ensures
        ({
            let value = eigen.values.entry_spec(k - 1);
            let before = step_upto(g, eigen, b, damping, cutoff, max_eigenvalue, k - 1);
            let after = step_upto(g, eigen, b, damping, cutoff, max_eigenvalue, k);
            let seen = eigen.values.entry_spec(i);
            &&& before.rank < k
            &&& after.rank == before.rank + if value.is_finite_spec() && !value.lt_spec(cutoff) {
                1int
            } else {
                0int
            }
            &&& seen.is_finite_spec() && !seen.lt_spec(cutoff) ==> after.min_retained.le_spec(seen)
            &&& !cutoff.is_nan_spec() && cutoff.le_spec(max_eigenvalue) ==> cutoff.le_spec(
                after.min_retained,
            )
            &&& !after.min_retained.is_nan_spec()
        }),
    decreases k,
{
    if k > 1 {
        the_rank_counts_observable_directions(
            g,
            eigen,
            b,
            damping,
            cutoff,
            max_eigenvalue,
            if i < k - 1 {
                i
            } else {
                0
            },
            k - 1,
        );
    }
    let value = eigen.values.entry_spec(k - 1);
    let before = step_upto(g, eigen, b, damping, cutoff, max_eigenvalue, k - 1);
    let after = step_upto(g, eigen, b, damping, cutoff, max_eigenvalue, k);
    if k == 1 {
        assert(before.rank == 0 && before.min_retained == max_eigenvalue);
    }
    if value.is_finite_spec() && !value.lt_spec(cutoff) {
        assert(after.rank == before.rank + 1);
        assert(after.min_retained == before.min_retained.min_spec(value));
    } else {
        assert(after == before);
    }
}

proof fn lemma_largest(v: Vector6, k: int, i: int)
    requires
        0 <= i < k <= 6,
        forall|j: int| 0 <= j < 6 ==> !(#[trigger] v.entry_spec(j)).is_nan_spec(),
    ensures
        v.entry_spec(i).le_spec(largest_upto(v, k)),
        exists|j: int| 0 <= j < k && #[trigger] v.entry_spec(j) == largest_upto(v, k),
    decreases k,
{
    assert(!v.entry_spec(k - 1).is_nan_spec());
    assert(v.entry_spec(0) == v.e0);
    if k > 1 {
        lemma_largest(
            v,
            k - 1,
            if i < k - 1 {
                i
            } else {
                0
            },
        );
        assert(v.entry_spec(k - 1) == v.entry_spec(k - 1));
    }
}

/// The largest eigenvalue is none below any, and it is one of them or zero.
pub proof fn the_largest_eigenvalue_is_above_all(values: Vector6, i: int)
    requires
        0 <= i < 6,
        forall|j: int| 0 <= j < 6 ==> !(#[trigger] values.entry_spec(j)).is_nan_spec(),
    ensures
        values.entry_spec(i).le_spec(largest_eigenvalue(values)),
        Float32::zero_spec().le_spec(largest_eigenvalue(values)),
        largest_eigenvalue(values) == Float32::zero_spec() || exists|j: int|
            0 <= j < 6 && #[trigger] values.entry_spec(j) == largest_eigenvalue(values),
{
    lemma_largest(values, 6, i);
}

/// A solution has enough correspondences and a finite step in at least one direction, and
/// keeps no direction that is weaker, against the strongest, than the threshold says:
/// the ratio that it reports is at least the threshold, where dividing by the largest
/// eigenvalue undoes multiplying with it.
pub proof fn solutions_keep_strong_directions_alone(
    g: Arithmetic,
    system: IcpLinearSystem,
    damping: Float32,
    threshold: Float32,
)
    requires
        forall|m: Float32, x: Float32|
            (g.product)(m, threshold).le_spec(x) ==> threshold.le_spec(
                #[trigger] (g.quotient)(x, m),
            ),
        forall|m: Float32|
            m.is_finite_spec() && Float32::zero_spec().le_spec(m) ==> !(#[trigger] (g.product)(
                m,
                threshold,
            )).is_nan_spec() && (g.product)(m, threshold).le_spec(m),
    ensures
        observable_step(g, system, damping, threshold) matches Some(result) ==> {
            &&& system.used_count >= 6
            &&& 1 <= result.observable_rank <= 6
            &&& result.delta.is_finite_spec()
            &&& threshold.le_spec(result.min_observable_eigenvalue_ratio)
        },
        system.used_count < 6 ==> observable_step(g, system, damping, threshold) is None,
{
    let epsilon = Float32 { bits: F32_EPSILON };
    let rotation_sum = diagonal_sum(g, system.h, 0);
    let translation_sum = diagonal_sum(g, system.h, 3);
    let scale = scales_spec(characteristic_length(g, rotation_sum, translation_sum));
    let eigen = (g.symmetric_eigen6)(normalized_spec(g, system.h, scale));
    let max_eigenvalue = largest_eigenvalue(eigen.values);
    let cutoff = (g.product)(max_eigenvalue, threshold).max_spec(epsilon);
    if observable_step(g, system, damping, threshold) is Some {
        the_rank_counts_observable_directions(
            g,
            eigen,
            quotients_spec(g, system.b, scale),
            damping,
            cutoff,
            max_eigenvalue,
            0,
            6,
        );
    }
}

/// The lever arm that a rotation is measured by lies between 10 cm and 100 m. Squared and
/// times the part of the translation, it is the part of the rotation, where it is not
/// held to that range and roots and quotients undo squares and products.
pub proof fn lever_arms_balance_rotation_and_translation(
    g: Arithmetic,
    rotation_sum: Float32,
    translation_sum: Float32,
)
    requires
        !(g.square_root)((g.quotient)(rotation_sum, translation_sum)).is_nan_spec(),
        forall|a: Float32| #[trigger]
            (g.product)((g.square_root)(a), (g.square_root)(a)) == a,
        (g.product)((g.quotient)(rotation_sum, translation_sum), translation_sum)
            == rotation_sum,
    ensures
        ({
            let length = characteristic_length(g, rotation_sum, translation_sum);
            let low = Float32 { bits: 0x3dcc_cccd };
            let high = Float32 { bits: 0x42c8_0000 };
            let epsilon = Float32 { bits: F32_EPSILON };
            &&& low.le_spec(length) && length.le_spec(high)
            &&& epsilon.lt_spec(rotation_sum) && epsilon.lt_spec(translation_sum) && low.lt_spec(
                length,
            ) && length.lt_spec(high) ==> (g.product)(
                (g.product)(length, length),
                translation_sum,
            ) == rotation_sum
        }),
{
}

/// In scaled coordinates an entry of a symmetric matrix is the entry over both scales,
/// where twice a number halved is the number.
pub proof fn scaling_divides_by_both_scales(
    g: Arithmetic,
    h: Matrix6,
    length: Float32,
    row: int,
    col: int,
)
    requires
        0 <= row < 6,
        0 <= col < 6,
        h.entry_spec(row, col) == h.entry_spec(col, row),
        forall|a: Float32, b: Float32| #[trigger] (g.product)(a, b) == (g.product)(b, a),
        forall|a: Float32| #[trigger]
            (g.product)((g.sum)(a, a), Float32 { bits: F32_HALF }) == a,
    ensures
        ({
            let scale = |i: int| if i < 3 { length } else { Float32 { bits: F32_ONE } };
            normalized_spec(g, h, scales_spec(length)).entry_spec(row, col) == (g.quotient)(
                h.entry_spec(row, col),
                (g.product)(scale(row), scale(col)),
            )
        }),
{
    let s = scales_spec(length);
    assert((g.product)(s.entry_spec(row), s.entry_spec(col)) == (g.product)(
        s.entry_spec(col),
        s.entry_spec(row),
    ));
}

/// The diagonal of a rotation is the first three entries, that of a translation the last
/// three, and negative entries count for nothing: without positive ones the sum is zero.
pub proof fn diagonals_count_positive_entries(g: Arithmetic, h: Matrix6, first: int)
    requires
        first == 0 || first == 3,
        (g.sum)(Float32::zero_spec(), Float32::zero_spec()) == Float32::zero_spec(),
        forall|a: Float32| #[trigger] (g.sum)(Float32::zero_spec(), a) == a,
    ensures
        (forall|i: int|
            first <= i < first + 3 ==> (#[trigger] h.entry_spec(i, i)).lt_spec(
                Float32::zero_spec(),
            )) ==> diagonal_sum(g, h, first) == Float32::zero_spec(),
        (forall|i: int|
            first <= i < first + 3 ==> Float32::zero_spec().lt_spec(
                #[trigger] h.entry_spec(i, i),
            )) ==> diagonal_sum(g, h, first) == (g.sum)(
            (g.sum)(h.entry_spec(first, first), h.entry_spec(first + 1, first + 1)),
            h.entry_spec(first + 2, first + 2),
        ),
{
}

/// The squared error of a pose times the number of correspondences is the sum of the
/// squared residuals, where roots and quotients undo squares and products; one more
/// correspondence adds the square of its residual.
pub proof fn the_error_is_the_mean_square(
    g: Arithmetic,
    correspondences: Seq<PointCorrespondence>,
    pose: Pose,
    k: int,
)
    requires
        0 < k <= correspondences.len(),
        forall|a: Float32| #[trigger]
            (g.product)((g.square_root)(a), (g.square_root)(a)) == a,
        forall|a: Float32, b: Float32| #[trigger]
            (g.product)((g.quotient)(a, b), b) == a,
    ensures
        ({
            let rmse = rmse_spec(g, correspondences, pose);
            (g.product)(
                (g.product)(rmse, rmse),
                (g.from_count)(correspondences.len() as u64),
            ) == squares_upto(g, correspondences, pose, correspondences.len() as int)
        }),
        ({
            let e = residual_spec(g, correspondences[k - 1], pose);
            squares_upto(g, correspondences, pose, k) == (g.sum)(
                squares_upto(g, correspondences, pose, k - 1),
                (g.product)(e, e),
            )
        }),
        squares_upto(g, correspondences, pose, 0) == Float32::zero_spec(),
{
}

/// Up to Huber's distance the robust cost is the sum of the squared residuals.
pub proof fn the_robust_cost_of_small_residuals_is_their_square_sum(
    g: Arithmetic,
    correspondences: Seq<PointCorrespondence>,
    pose: Pose,
    delta: Float32,
    k: int,
)
    requires
        0 <= k <= correspondences.len(),
        forall|i: int|
            0 <= i < k ==> residual_spec(
                g,
                #[trigger] correspondences[i],
                pose,
            ).abs_spec().le_spec(delta),
    ensures
        losses_upto(g, correspondences, pose, delta, k) == squares_upto(
            g,
            correspondences,
            pose,
            k,
        ),
        k == correspondences.len() ==> robust_cost_spec(g, correspondences, pose, delta)
            == squares_upto(g, correspondences, pose, k),
    decreases k,
{
    if k > 0 {
        the_robust_cost_of_small_residuals_is_their_square_sum(
            g,
            correspondences,
            pose,
            delta,
            k - 1,
        );
        assert(residual_spec(g, correspondences[k - 1], pose).abs_spec().le_spec(delta));
    }
}

/// A solution solves the system in the coordinates in which rotations are measured by
/// the lever arm: its entries, the first three times the arm, have along each observable
/// eigenvector of the scaled matrix the scaled right side over the damped eigenvalue, and
/// along every other one nothing.
pub proof fn solutions_solve_the_scaled_system(
    g: Arithmetic,
    system: IcpLinearSystem,
    damping: Float32,
    threshold: Float32,
    i: int,
)
    requires
        0 <= i < 6,
        observable_step(g, system, damping, threshold) is Some,
        forall|a: Float32, b: Float32| #[trigger] (g.product)((g.quotient)(a, b), b) == a,
        forall|x: Float32| #[trigger] (g.sum)(Float32::zero_spec(), x) == x,
        forall|m: Matrix6| is_orthonormal(g, #[trigger] (g.symmetric_eigen6)(m)),
    ensures
        ({
            let delta = observable_step(g, system, damping, threshold)->0.delta;
            let length = characteristic_length(
                g,
                diagonal_sum(g, system.h, 0),
                diagonal_sum(g, system.h, 3),
            );
            let one = Float32 { bits: 0x3f80_0000 };
            let scaled = Vector6 {
                e0: (g.product)(delta.e0, length),
                e1: (g.product)(delta.e1, length),
                e2: (g.product)(delta.e2, length),
                e3: (g.product)(delta.e3, one),
                e4: (g.product)(delta.e4, one),
                e5: (g.product)(delta.e5, one),
            };
            let right = Vector6 {
                e0: (g.quotient)(system.b.e0, length),
                e1: (g.quotient)(system.b.e1, length),
                e2: (g.quotient)(system.b.e2, length),
                e3: (g.quotient)(system.b.e3, one),
                e4: (g.quotient)(system.b.e4, one),
                e5: (g.quotient)(system.b.e5, one),
            };
            let eigen = (g.symmetric_eigen6)(normalized_spec(g, system.h, scales_spec(length)));
            let direction = eigen.vectors.column_spec(i);
            let value = eigen.values.entry_spec(i);
            let largest = largest_eigenvalue(eigen.values);
            let weak = value.lt_spec((g.product)(largest, threshold).max_spec(
                Float32 { bits: 0x3400_0000 },
            ));
            (g.dot6)(direction, scaled) == if value.is_finite_spec() && !weak {
                (g.quotient)((g.dot6)(direction, right), (g.sum)(value, damping))
            } else {
                Float32::zero_spec()
            }
        }),
{
    let length = characteristic_length(
        g,
        diagonal_sum(g, system.h, 0),
        diagonal_sum(g, system.h, 3),
    );
    let scale = scales_spec(length);
    let eigen = (g.symmetric_eigen6)(normalized_spec(g, system.h, scale));
    let max_eigenvalue = largest_eigenvalue(eigen.values);
    let cutoff = (g.product)(max_eigenvalue, threshold).max_spec(Float32 { bits: F32_EPSILON });
    let b = quotients_spec(g, system.b, scale);
    let step = step_upto(g, eigen, b, damping, cutoff, max_eigenvalue, 6);
    steps_solve_the_observable_directions(g, eigen, b, damping, cutoff, max_eigenvalue, i, 6);
    let delta = observable_step(g, system, damping, threshold)->0.delta;
    assert(delta == quotients_spec(g, step.delta, scale));
    let one = Float32 { bits: F32_ONE };
    let scaled = Vector6 {
        e0: (g.product)(delta.e0, length),
        e1: (g.product)(delta.e1, length),
        e2: (g.product)(delta.e2, length),
        e3: (g.product)(delta.e3, one),
        e4: (g.product)(delta.e4, one),
        e5: (g.product)(delta.e5, one),
    };
    assert(scaled == step.delta);
}

/// A system is solved only with six correspondences or more, a damping that is not
/// negative, a share of the largest eigenvalue from zero to below one, and finite numbers;
/// a solution is finite and has at least one direction, and its ratio times the largest
/// eigenvalue is the least that is kept.
pub proof fn solved_systems_are_determined(
    g: Arithmetic,
    system: IcpLinearSystem,
    damping: Float32,
    threshold: Float32,
)
    requires
        observable_step(g, system, damping, threshold) is Some,
        forall|a: Float32, b: Float32| #[trigger] (g.product)((g.quotient)(a, b), b) == a,
    ensures
        ({
            let r = observable_step(g, system, damping, threshold)->0;
            let rotations = diagonal_sum(g, system.h, 0);
            let translations = diagonal_sum(g, system.h, 3);
            let length = characteristic_length(g, rotations, translations);
            let eigen = (g.symmetric_eigen6)(normalized_spec(g, system.h, scales_spec(length)));
            let largest = largest_eigenvalue(eigen.values);
            let zero = Float32 { bits: 0 };
            &&& system.used_count >= 6
            &&& zero.le_spec(damping) && damping.is_finite_spec()
            &&& zero.le_spec(threshold) && threshold.lt_spec(Float32 { bits: 0x3f80_0000 })
            &&& system.h.is_finite_spec() && system.b.is_finite_spec()
            &&& rotations.is_finite_spec() && translations.is_finite_spec()
            &&& !(g.sum)(rotations, translations).le_spec(Float32 { bits: 0x3400_0000 })
            &&& (Float32 { bits: 0x3400_0000 }).lt_spec(largest) && largest.is_finite_spec()
            &&& r.observable_rank >= 1
            &&& r.delta.is_finite_spec()
            &&& exists|least: Float32|
                (g.product)(r.min_observable_eigenvalue_ratio, largest) == least && #[trigger] (
                g.quotient)(least, largest) == r.min_observable_eigenvalue_ratio
        }),
{
    let rotations = diagonal_sum(g, system.h, 0);
    let translations = diagonal_sum(g, system.h, 3);
    let scale = scales_spec(characteristic_length(g, rotations, translations));
    let eigen = (g.symmetric_eigen6)(normalized_spec(g, system.h, scale));
    let largest = largest_eigenvalue(eigen.values);
    let cutoff = (g.product)(largest, threshold).max_spec(Float32 { bits: F32_EPSILON });
    let step = step_upto(
        g,
        eigen,
        quotients_spec(g, system.b, scale),
        damping,
        cutoff,
        largest,
        6,
    );
    let least = step.min_retained;
    assert((g.product)((g.quotient)(least, largest), largest) == least);
}

/// A system that meets these conditions and has an observable direction is solved, unless
/// the step is not finite.
pub proof fn determined_systems_are_solved(
    g: Arithmetic,
    system: IcpLinearSystem,
    damping: Float32,
    threshold: Float32,
)
    requires
        observable_step(g, system, damping, threshold) is None,
        system.used_count >= 6,
        (Float32 { bits: 0 }).le_spec(damping) && damping.is_finite_spec(),
        (Float32 { bits: 0 }).le_spec(threshold),
        threshold.lt_spec(Float32 { bits: 0x3f80_0000 }),
        system.h.is_finite_spec(),
        system.b.is_finite_spec(),
    ensures
        ({
            let rotations = diagonal_sum(g, system.h, 0);
            let translations = diagonal_sum(g, system.h, 3);
            let scale = scales_spec(characteristic_length(g, rotations, translations));
            let eigen = (g.symmetric_eigen6)(normalized_spec(g, system.h, scale));
            let largest = largest_eigenvalue(eigen.values);
            let epsilon = Float32 { bits: 0x3400_0000 };
            let cutoff = (g.product)(largest, threshold).max_spec(epsilon);
            let step = step_upto(
                g,
                eigen,
                quotients_spec(g, system.b, scale),
                damping,
                cutoff,
                largest,
                6,
            );
            ||| !rotations.is_finite_spec() || !translations.is_finite_spec()
            ||| (g.sum)(rotations, translations).le_spec(epsilon)
            ||| !largest.is_finite_spec() || largest.le_spec(epsilon)
            ||| step.rank == 0
            ||| !quotients_spec(g, step.delta, scale).is_finite_spec()
        }),
{
}

} // verus!
