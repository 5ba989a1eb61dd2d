//! Least-squares planes.

use vstd::prelude::*;

use crate::float::Float32;
use crate::numerics::{computes, Arithmetic, Eigen3, Matrix3, Numerics, Point3};
use crate::ransac::{signed_distance, signed_distance_spec, PlaneEquation};

verus! {

/// The sum of the first `k` points.
pub open spec fn sum_upto(g: Arithmetic, points: Seq<Point3>, k: int) -> Point3
    decreases k,
{
    if k <= 0 {
        Point3::origin_spec()
    } else {
        (g.vector_sum)(sum_upto(g, points, k - 1), points[k - 1])
    }
}

/// The mean of `points`.
pub open spec fn centroid_spec(g: Arithmetic, points: Seq<Point3>) -> Point3 {
    (g.vector_divided)(
        sum_upto(g, points, points.len() as int),
        (g.from_count)(points.len() as u64),
    )
}

/// The sum, over the first `k` points, of the outer product of the offset from
/// `center` with itself.
pub open spec fn scatter_upto(
    g: Arithmetic,
    points: Seq<Point3>,
    center: Point3,
    k: int,
) -> Matrix3
    decreases k,
{
    if k <= 0 {
        Matrix3::zeros_spec()
    } else {
        let offset = (g.vector_difference)(points[k - 1], center);
        (g.matrix_sum)(scatter_upto(g, points, center, k - 1), (g.outer)(offset, offset))
    }
}

/// The scatter of `points` around `center`.
pub open spec fn scatter_spec(g: Arithmetic, points: Seq<Point3>, center: Point3) -> Matrix3 {
    scatter_upto(g, points, center, points.len() as int)
}

pub fn centroid<N: Numerics>(n: &N, points: &[Point3]) -> (r: Point3)
    ensures
        forall|g: Arithmetic| #[trigger] computes(*n, g) ==> r == centroid_spec(g, points@),
{
    let mut total = Point3::origin();
    let mut k: usize = 0;
    while k < points.len()
        invariant
            k <= points.len(),
            forall|g: Arithmetic| #[trigger]
                computes(*n, g) ==> total == sum_upto(g, points@, k as int),
        decreases points.len() - k,
    {
        total = n.vector_sum(total, points[k]);
        k += 1;
    }
    n.vector_divided(total, n.from_count(points.len() as u64))
}

pub fn scatter<N: Numerics>(n: &N, points: &[Point3], center: Point3) -> (r: Matrix3)
    ensures
        forall|g: Arithmetic| #[trigger]
            computes(*n, g) ==> r == scatter_spec(g, points@, center),
{
    let mut total = Matrix3::zeros();
    let mut k: usize = 0;
    while k < points.len()
        invariant
            k <= points.len(),
            forall|g: Arithmetic| #[trigger]
                computes(*n, g) ==> total == scatter_upto(g, points@, center, k as int),
        decreases points.len() - k,
    {
        let offset = n.vector_difference(points[k], center);
        total = n.matrix_sum(total, n.outer(offset, offset));
        k += 1;
    }
    total
}

/// The position of the smallest of three values, the first one where several are.
pub open spec fn smallest_of_three(values: Point3) -> int {
    let first = if values.y.lt_spec(values.x) { 1int } else { 0int };
    let low = if values.y.lt_spec(values.x) { values.y } else { values.x };
    if values.z.lt_spec(low) { 2 } else { first }
}

/// The eigenvector that belongs to the smallest eigenvalue.
pub open spec fn least_direction_spec(eigen: Eigen3) -> Point3 {
    let i = smallest_of_three(eigen.values);
    if i == 0 {
        eigen.vectors.c0
    } else if i == 1 {
        eigen.vectors.c1
    } else {
        eigen.vectors.c2
    }
}

fn least_direction(eigen: Eigen3) -> (r: Point3)
    ensures
        r == least_direction_spec(eigen),
{
    let (values, vectors) = (eigen.values, eigen.vectors);
    let (low, direction) = if values.y.lt(values.x) {
        (values.y, vectors.c1)
    } else {
        (values.x, vectors.c0)
    };
    if values.z.lt(low) {
        vectors.c2
    } else {
        direction
    }
}

/// A plane fitted to points, with the eigenvalues of their scatter.
#[derive(Clone, Copy, Debug, PartialEq, Eq, Structural)]
pub struct FittedPlane {
    pub normal: Point3,
    pub d: Float32,
    pub eigenvalues: Point3,
}

/// Three values in increasing order.
pub open spec fn ascending_spec(values: Point3) -> Point3 {
    let (a, b) = if values.y.lt_spec(values.x) {
        (values.y, values.x)
    } else {
        (values.x, values.y)
    };
    let c = values.z;
    if c.lt_spec(a) {
        Point3 { x: c, y: a, z: b }
    } else if c.lt_spec(b) {
        Point3 { x: a, y: c, z: b }
    } else {
        Point3 { x: a, y: b, z: c }
    }
}

fn ascending(values: Point3) -> (r: Point3)
    ensures
        r == ascending_spec(values),
{
    let (a, b) = if values.y.lt(values.x) {
        (values.y, values.x)
    } else {
        (values.x, values.y)
    };
    let c = values.z;
    if c.lt(a) {
        Point3 { x: c, y: a, z: b }
    } else if c.lt(b) {
        Point3 { x: a, y: c, z: b }
    } else {
        Point3 { x: a, y: b, z: c }
    }
}

impl FittedPlane {
    pub open spec fn equation_spec(self) -> PlaneEquation {
        PlaneEquation { normal: self.normal, d: self.d }
    }

    pub fn equation(self) -> (r: PlaneEquation)
        ensures
            r == self.equation_spec(),
    {
        PlaneEquation { normal: self.normal, d: self.d }
    }

    /// How much wider than thick the points are, across their longest axis: the
    /// middle eigenvalue less the smallest, over the largest.
    pub open spec fn planarity_spec(self, g: Arithmetic) -> Float32 {
        let sorted = ascending_spec(self.eigenvalues);
        (g.quotient)((g.difference)(sorted.y, sorted.x), sorted.z)
    }

    pub fn planarity<N: Numerics>(&self, n: &N) -> (r: Float32)
        ensures
            forall|g: Arithmetic| #[trigger] computes(*n, g) ==> r == self.planarity_spec(g),
    {
        let sorted = ascending(self.eigenvalues);
        n.quotient(n.difference(sorted.y, sorted.x), sorted.z)
    }

    /// The share of the smallest eigenvalue in the sum of all three.
    pub open spec fn surface_variation_spec(self, g: Arithmetic) -> Float32 {
        let sorted = ascending_spec(self.eigenvalues);
        (g.quotient)(sorted.x, (g.sum)((g.sum)(sorted.x, sorted.y), sorted.z))
    }

    pub fn surface_variation<N: Numerics>(&self, n: &N) -> (r: Float32)
        ensures
            forall|g: Arithmetic| #[trigger]
                computes(*n, g) ==> r == self.surface_variation_spec(g),
    {
        let sorted = ascending(self.eigenvalues);
        n.quotient(sorted.x, n.sum(n.sum(sorted.x, sorted.y), sorted.z))
    }
}

/// The least-squares plane of `points`: through their mean, across the direction
/// in which they spread least. There is none for fewer than three points.
pub open spec fn fit_plane_spec(g: Arithmetic, points: Seq<Point3>) -> Option<FittedPlane> {
    if points.len() < 3 {
        None
    } else {
        let center = centroid_spec(g, points);
        let eigen = (g.symmetric_eigen)(scatter_spec(g, points, center));
        let normal = least_direction_spec(eigen);
        Some(
            FittedPlane {
                normal,
                d: (g.dot)(normal, center).neg_spec(),
                eigenvalues: eigen.values,
            },
        )
    }
}

pub fn fit_plane<N: Numerics>(n: &N, points: &[Point3]) -> (r: Option<FittedPlane>)
    ensures
        r is Some <==> points.len() >= 3,
        forall|g: Arithmetic| #[trigger] computes(*n, g) ==> r == fit_plane_spec(g, points@),
{
    if points.len() < 3 {
        return None;
    }
    let center = centroid(n, points);
    let eigen = n.symmetric_eigen(scatter(n, points, center));
    let normal = least_direction(eigen);
    Some(
        FittedPlane { normal, d: n.dot(normal, center).neg(), eigenvalues: eigen.values },
    )
}

/// The sum of the squared distances of the first `k` points from `plane`.
pub open spec fn squared_distances_upto(
    g: Arithmetic,
    plane: PlaneEquation,
    points: Seq<Point3>,
    k: int,
) -> Float32
    decreases k,
{
    if k <= 0 {
        Float32::zero_spec()
    } else {
        let distance = signed_distance_spec(g, plane, points[k - 1]);
        (g.sum)(
            squared_distances_upto(g, plane, points, k - 1),
            (g.product)(distance, distance),
        )
    }
}

/// The root of the mean squared distance of `points` from `plane`.
pub open spec fn plane_rmse_spec(
    g: Arithmetic,
    plane: PlaneEquation,
    points: Seq<Point3>,
) -> Float32 {
    (g.square_root)(
        (g.quotient)(
            squared_distances_upto(g, plane, points, points.len() as int),
            (g.from_count)(points.len() as u64),
        ),
    )
}

pub fn plane_rmse<N: Numerics>(n: &N, plane: PlaneEquation, points: &[Point3]) -> (r: Float32)
    ensures
        forall|g: Arithmetic| #[trigger]
            computes(*n, g) ==> r == plane_rmse_spec(g, plane, points@),
{
    let mut total = Float32::zero();
    let mut k: usize = 0;
    while k < points.len()
        invariant
            k <= points.len(),
            forall|g: Arithmetic| #[trigger]
                computes(*n, g) ==> total == squared_distances_upto(g, plane, points@, k as int),
        decreases points.len() - k,
    {
        let distance = signed_distance(n, plane, points[k]);
        total = n.sum(total, n.product(distance, distance));
        k += 1;
    }
    n.square_root(n.quotient(total, n.from_count(points.len() as u64)))
}

// ---------------------------------------------------------------------------
// What fits are
// ---------------------------------------------------------------------------

/// The centroid, as often as there are points, is the sum of the points, where dividing
/// a vector undoes scaling it. One more point adds itself to the sum.
pub proof fn centroids_are_means(g: Arithmetic, points: Seq<Point3>, k: int)
    requires
        0 < k <= points.len(),
        forall|v: Point3, s: Float32| #[trigger]
            (g.vector_scaled)((g.vector_divided)(v, s), s) == v,
    ensures
        (g.vector_scaled)(centroid_spec(g, points), (g.from_count)(points.len() as u64))
            == sum_upto(g, points, points.len() as int),
        sum_upto(g, points, k) == (g.vector_sum)(sum_upto(g, points, k - 1), points[k - 1]),
        sum_upto(g, points, 0) == (Point3 {
            x: Float32::zero_spec(),
            y: Float32::zero_spec(),
            z: Float32::zero_spec(),
        }),
{
}

/// The scatter about a center adds up the offset of each point, times itself.
pub proof fn scatter_adds_up_squared_offsets(
    g: Arithmetic,
    points: Seq<Point3>,
    center: Point3,
    k: int,
)
    requires
        0 < k <= points.len(),
    ensures
        scatter_upto(g, points, center, k) == (g.matrix_sum)(
            scatter_upto(g, points, center, k - 1),
            (g.outer)(
                (g.vector_difference)(points[k - 1], center),
                (g.vector_difference)(points[k - 1], center),
            ),
        ),
        scatter_upto(g, points, center, 0) == Matrix3::zeros_spec(),
        scatter_spec(g, points, center) == scatter_upto(g, points, center, points.len() as int),
{
}

/// A plane is fitted to three points or more. It goes through their centroid, where a
/// number and its opposite add up to zero, and its normal is the eigenvector of the
/// scatter about the centroid whose eigenvalue is the least.
pub proof fn fitted_planes_go_through_the_centroid(g: Arithmetic, points: Seq<Point3>)
    requires
        forall|x: Float32| #[trigger] (g.sum)(x, x.neg_spec()) == Float32::zero_spec(),
    ensures
        fit_plane_spec(g, points) is Some <==> points.len() >= 3,
        fit_plane_spec(g, points) matches Some(plane) ==> {
            let center = centroid_spec(g, points);
            let eigen = (g.symmetric_eigen)(scatter_spec(g, points, center));
            let (a, b, c) = (eigen.values.x, eigen.values.y, eigen.values.z);
            let numbers = !a.is_nan_spec() && !b.is_nan_spec() && !c.is_nan_spec();
            &&& (g.sum)((g.dot)(plane.normal, center), plane.d) == Float32::zero_spec()
            &&& plane.eigenvalues == eigen.values
            &&& numbers && a.lt_spec(b) && a.lt_spec(c) ==> plane.normal == eigen.vectors.c0
            &&& numbers && b.lt_spec(a) && b.lt_spec(c) ==> plane.normal == eigen.vectors.c1
            &&& numbers && c.lt_spec(a) && c.lt_spec(b) ==> plane.normal == eigen.vectors.c2
        },
{
}

/// Sorting three values gives the same values, none above a later one.
pub proof fn sorted_values_ascend(values: Point3)
    requires
        !values.x.is_nan_spec() && !values.y.is_nan_spec() && !values.z.is_nan_spec(),
    ensures
        ({
            let sorted = ascending_spec(values);
            &&& sorted.x.le_spec(sorted.y) && sorted.y.le_spec(sorted.z)
            &&& seq![sorted.x, sorted.y, sorted.z].to_multiset()
                == seq![values.x, values.y, values.z].to_multiset()
        }),
{
    let sorted = ascending_spec(values);
    let before = seq![values.x, values.y, values.z];
    let after = seq![sorted.x, sorted.y, sorted.z];
    broadcast use vstd::seq_lib::group_to_multiset_ensures;

    assert(before =~= Seq::<Float32>::empty().push(values.x).push(values.y).push(values.z));
    assert(after =~= Seq::<Float32>::empty().push(sorted.x).push(sorted.y).push(sorted.z));
    assert(after.to_multiset() =~= before.to_multiset());
}

/// The planarity times the largest eigenvalue is the middle one less the least, and the
/// variation times the sum of the eigenvalues is the least one, where a quotient times
/// its divisor is the dividend.
pub proof fn flatness_compares_the_eigenvalues(g: Arithmetic, plane: FittedPlane)
    requires
        forall|a: Float32, b: Float32| #[trigger] (g.product)((g.quotient)(a, b), b) == a,
    ensures
        ({
            let sorted = ascending_spec(plane.eigenvalues);
            &&& (g.product)(plane.planarity_spec(g), sorted.z) == (g.difference)(
                sorted.y,
                sorted.x,
            )
            &&& (g.product)(
                plane.surface_variation_spec(g),
                (g.sum)((g.sum)(sorted.x, sorted.y), sorted.z),
            ) == sorted.x
        }),
{
}

/// The squared error of a plane times the number of points is the sum of their squared
/// distances `normal . p + d`, where roots and quotients undo squares and products.
pub proof fn plane_errors_are_mean_squares(
    g: Arithmetic,
    plane: PlaneEquation,
    points: Seq<Point3>,
    k: int,
)
    requires
        0 < k <= points.len(),
        forall|a: Float32| #[trigger]
            (g.product)((g.square_root)(a), (g.square_root)(a)) == a,
        forall|a: Float32, b: Float32| #[trigger] (g.product)((g.quotient)(a, b), b) == a,
    ensures
        ({
            let rmse = plane_rmse_spec(g, plane, points);
            (g.product)((g.product)(rmse, rmse), (g.from_count)(points.len() as u64))
                == squared_distances_upto(g, plane, points, points.len() as int)
        }),
        ({
            let distance = (g.sum)((g.dot)(plane.normal, points[k - 1]), plane.d);
            squared_distances_upto(g, plane, points, k) == (g.sum)(
                squared_distances_upto(g, plane, points, k - 1),
                (g.product)(distance, distance),
            )
        }),
        squared_distances_upto(g, plane, points, 0) == Float32::zero_spec(),
{
}

} // verus!
