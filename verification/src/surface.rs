//! Whether a voxel lies on a plane, judged by the means of the voxels around it.

use vstd::prelude::*;

use crate::cell::{SurfacePlane, SurfaceStatus, VoxelCell, VoxelMap};
use crate::float::{Float32, Float64};
use crate::numerics::{computes, Arithmetic, Numerics, Point3};
use crate::plane::{
    fit_plane, fit_plane_spec, plane_rmse, plane_rmse_spec, squared_distances_upto, FittedPlane,
};
use crate::ransac::{
    inliers_are_some_of_the_points, ransac_plane_inliers, ransac_seed_spec, search_end,
    search_inliers, search_is_possible, search_start, signed_distance, signed_distance_spec,
    PlaneEquation, RansacLimits,
};
use crate::voxel::{occupied, VoxelKey};

verus! {

/// How surfaces are judged.
#[derive(Clone, Copy, Debug)]
pub struct SurfaceFilterConfig {
    /// How far the neighborhood reaches: 2 takes the 5 x 5 x 5 voxels around the center.
    pub neighbor_radius_voxels: i32,
    pub min_neighbors: usize,
    pub min_ransac_inliers: usize,
    pub min_center_observed_frames: u64,
    pub ransac_iterations: usize,
    /// The wanted probability that one sample at least held three inliers.
    pub ransac_confidence: Float64,
    /// The number of samples before which the search does not stop early.
    pub ransac_min_iterations: usize,
    /// The largest distance of an inlier.
    pub ransac_inlier_distance_m: Float32,
    pub min_inlier_ratio: Float32,
    pub min_planarity: Float32,
    pub max_surface_variation: Float32,
    pub max_pca_rmse_m: Float32,
    /// The largest distance between the fitted plane and the center's mean.
    pub max_center_distance_m: Float32,
}

impl SurfaceFilterConfig {
    /// Whether the two configurations are equal, numbers being compared by value:
    /// one that holds a NaN equals none, not even itself.
    pub open spec fn same_spec(self, other: SurfaceFilterConfig) -> bool {
        &&& self.neighbor_radius_voxels == other.neighbor_radius_voxels
        &&& self.min_neighbors == other.min_neighbors
        &&& self.min_ransac_inliers == other.min_ransac_inliers
        &&& self.min_center_observed_frames == other.min_center_observed_frames
        &&& self.ransac_iterations == other.ransac_iterations
        &&& self.ransac_confidence.equals_spec(other.ransac_confidence)
        &&& self.ransac_min_iterations == other.ransac_min_iterations
        &&& self.ransac_inlier_distance_m.equals_spec(other.ransac_inlier_distance_m)
        &&& self.min_inlier_ratio.equals_spec(other.min_inlier_ratio)
        &&& self.min_planarity.equals_spec(other.min_planarity)
        &&& self.max_surface_variation.equals_spec(other.max_surface_variation)
        &&& self.max_pca_rmse_m.equals_spec(other.max_pca_rmse_m)
        &&& self.max_center_distance_m.equals_spec(other.max_center_distance_m)
    }

    pub fn same(&self, other: &SurfaceFilterConfig) -> (r: bool)
        ensures
            r == self.same_spec(*other),
    {
        self.neighbor_radius_voxels == other.neighbor_radius_voxels && self.min_neighbors
            == other.min_neighbors && self.min_ransac_inliers == other.min_ransac_inliers
            && self.min_center_observed_frames == other.min_center_observed_frames
            && self.ransac_iterations == other.ransac_iterations && self.ransac_confidence.equals(
            other.ransac_confidence,
        ) && self.ransac_min_iterations == other.ransac_min_iterations
            && self.ransac_inlier_distance_m.equals(other.ransac_inlier_distance_m)
            && self.min_inlier_ratio.equals(other.min_inlier_ratio) && self.min_planarity.equals(
            other.min_planarity,
        ) && self.max_surface_variation.equals(other.max_surface_variation)
            && self.max_pca_rmse_m.equals(other.max_pca_rmse_m)
            && self.max_center_distance_m.equals(other.max_center_distance_m)
    }
}

/// What was decided about a voxel. There is a plane exactly where it is planar.
#[derive(Clone, Copy, Debug)]
pub struct SurfaceEvaluation {
    pub status: SurfaceStatus,
    pub plane: Option<SurfacePlane>,
}

/// `radius`, and 0 where it is negative.
pub open spec fn reach(radius: i32) -> int {
    if radius < 0 {
        0
    } else {
        radius as int
    }
}

/// The means of the occupied voxels at most `radius` away from `center` along each
/// axis, the center's own among them.
pub open spec fn neighbor_means(
    cells: Map<VoxelKey, VoxelCell>,
    center: VoxelKey,
    radius: int,
) -> Seq<Point3> {
    occupied(cells.dom(), center, radius).map_values(|key: VoxelKey| cells[key].mean)
}

/// The points near the plane that most of `points` are near.
pub open spec fn dominant_inliers(
    g: Arithmetic,
    points: Seq<Point3>,
    center: VoxelKey,
    config: SurfaceFilterConfig,
) -> Seq<Point3> {
    let distance = config.ransac_inlier_distance_m;
    if search_is_possible(points, config.ransac_iterations as int, distance) {
        let limits = RansacLimits {
            iterations: config.ransac_iterations,
            min_iterations: config.ransac_min_iterations,
            confidence: config.ransac_confidence,
            threshold_sq: (g.product)(distance, distance),
        };
        let start = search_start(limits, ransac_seed_spec(center));
        search_inliers(
            g,
            points,
            limits,
            search_end(g, points, limits, start, config.ransac_iterations as nat),
        )
    } else {
        Seq::empty()
    }
}

/// Whether enough of `neighbors` points are inliers.
pub open spec fn enough_inliers(
    g: Arithmetic,
    inliers: int,
    neighbors: int,
    config: SurfaceFilterConfig,
) -> bool {
    let ratio = (g.quotient)((g.from_count)(inliers as u64), (g.from_count)(neighbors as u64));
    inliers > 0 && inliers >= config.min_ransac_inliers && !ratio.lt_spec(config.min_inlier_ratio)
}

/// Whether the plane fitted to the inliers is good enough.
pub open spec fn good_plane(
    g: Arithmetic,
    plane: FittedPlane,
    rmse: Float32,
    center_mean: Point3,
    config: SurfaceFilterConfig,
) -> bool {
    &&& config.min_planarity.le_spec(plane.planarity_spec(g))
    &&& plane.surface_variation_spec(g).le_spec(config.max_surface_variation)
    &&& rmse.le_spec(config.max_pca_rmse_m)
    &&& signed_distance_spec(g, plane.equation_spec(), center_mean).abs_spec().le_spec(
        config.max_center_distance_m,
    )
}

/// What the points around a voxel say of it, once they are gathered.
pub open spec fn judged(
    g: Arithmetic,
    center: VoxelKey,
    center_mean: Point3,
    neighbors: Seq<Point3>,
    config: SurfaceFilterConfig,
) -> SurfaceEvaluation {
    let nothing = SurfaceEvaluation { status: SurfaceStatus::Unknown, plane: None };
    let not_planar = SurfaceEvaluation { status: SurfaceStatus::NonPlanar, plane: None };
    let inliers = dominant_inliers(g, neighbors, center, config);
    if neighbors.len() < config.min_neighbors {
        nothing
    } else if !enough_inliers(g, inliers.len() as int, neighbors.len() as int, config) {
        not_planar
    } else {
        match fit_plane_spec(g, inliers) {
            None => not_planar,
            Some(plane) => {
                let rmse = plane_rmse_spec(g, plane.equation_spec(), inliers);
                if good_plane(g, plane, rmse, center_mean, config) {
                    SurfaceEvaluation {
                        status: SurfaceStatus::Planar,
                        plane: Some(
                            SurfacePlane {
                                normal: plane.normal,
                                d: plane.d,
                                rmse_m: rmse,
                                neighbor_count: neighbors.len() as usize,
                                inlier_count: inliers.len() as usize,
                            },
                        ),
                    }
                } else {
                    not_planar
                }
            },
        }
    }
}

/// Whether the voxel was seen in too few frames to be judged.
pub open spec fn immature(cell: VoxelCell, config: SurfaceFilterConfig) -> bool {
    cell.observed_frames < config.min_center_observed_frames
}

/// What is decided about the occupied voxel `center`.
pub open spec fn evaluation(
    g: Arithmetic,
    cells: Map<VoxelKey, VoxelCell>,
    center: VoxelKey,
    config: SurfaceFilterConfig,
) -> SurfaceEvaluation {
    if immature(cells[center], config) {
        SurfaceEvaluation { status: SurfaceStatus::Unknown, plane: None }
    } else {
        judged(
            g,
            center,
            cells[center].mean,
            neighbor_means(cells, center, reach(config.neighbor_radius_voxels)),
            config,
        )
    }
}

fn gather_neighbor_means(voxel_map: &VoxelMap, center: VoxelKey, radius: i32) -> (r: Vec<Point3>)
    ensures
        r@ == neighbor_means(voxel_map@, center, radius as int),
{
    let keys = voxel_map.occupied_cube(center, radius);
    let mut means: Vec<Point3> = Vec::new();
    let mut i: usize = 0;
    proof {
        crate::voxel::occupied_is_the_cube(voxel_map@.dom(), center, radius as int);
        assert forall|j: int| 0 <= j < keys.len() implies voxel_map@.contains_key(
            #[trigger] keys[j],
        ) by {
            assert(occupied(voxel_map@.dom(), center, radius as int).contains(keys[j]));
        }
    }
    while i < keys.len()
        invariant
            i <= keys.len(),
            means.len() == i,
            forall|j: int|
                0 <= j < keys.len() ==> voxel_map@.contains_key(#[trigger] keys[j]),
            forall|j: int| 0 <= j < i ==> #[trigger] means[j] == voxel_map@[keys[j]].mean,
        decreases keys.len() - i,
    {
        if let Some(cell) = voxel_map.get(keys[i]) {
            means.push(cell.mean);
        }
        i += 1;
    }
    assert(means@ =~= neighbor_means(voxel_map@, center, radius as int));
    means
}

/// Judges the voxel whose surroundings are `neighbors`.
pub fn judge<N: Numerics>(
    n: &N,
    center: VoxelKey,
    center_mean: Point3,
    neighbors: &[Point3],
    config: &SurfaceFilterConfig,
) -> (r: SurfaceEvaluation)
    ensures
        r.plane is Some <==> r.status == SurfaceStatus::Planar,
        neighbors.len() < config.min_neighbors <==> r.status == SurfaceStatus::Unknown,
        forall|g: Arithmetic| #[trigger]
            computes(*n, g) ==> r == judged(g, center, center_mean, neighbors@, *config),
{
    if neighbors.len() < config.min_neighbors {
        return SurfaceEvaluation { status: SurfaceStatus::Unknown, plane: None };
    }
    let not_planar = SurfaceEvaluation { status: SurfaceStatus::NonPlanar, plane: None };
    let mut inliers: Vec<Point3> = Vec::new();
    let outcome = ransac_plane_inliers(
        n,
        neighbors,
        center,
        config.ransac_iterations,
        config.ransac_min_iterations,
        config.ransac_confidence,
        config.ransac_inlier_distance_m,
        &mut inliers,
    );
    let ratio = n.quotient(
        n.from_count(inliers.len() as u64),
        n.from_count(neighbors.len() as u64),
    );
    if !outcome.found || inliers.len() < config.min_ransac_inliers || ratio.lt(
        config.min_inlier_ratio,
    ) {
        return not_planar;
    }
    let plane = match fit_plane(n, &inliers) {
        None => {
            return not_planar;
        },
        Some(plane) => plane,
    };
    let rmse = plane_rmse(n, plane.equation(), &inliers);
    let center_distance = signed_distance(n, plane.equation(), center_mean).abs();
    if config.min_planarity.le(plane.planarity(n)) && plane.surface_variation(n).le(
        config.max_surface_variation,
    ) && rmse.le(config.max_pca_rmse_m) && center_distance.le(config.max_center_distance_m) {
        SurfaceEvaluation {
            status: SurfaceStatus::Planar,
            plane: Some(
                SurfacePlane {
                    normal: plane.normal,
                    d: plane.d,
                    rmse_m: rmse,
                    neighbor_count: neighbors.len(),
                    inlier_count: inliers.len(),
                },
            ),
        }
    } else {
        not_planar
    }
}

/// Judges the voxel at `center_key`, where there is one.
pub fn evaluate_surface_voxel<N: Numerics>(
    n: &N,
    voxel_map: &VoxelMap,
    center_key: VoxelKey,
    config: &SurfaceFilterConfig,
) -> (r: Option<SurfaceEvaluation>)
    ensures
        r is Some <==> voxel_map@.contains_key(center_key),
        r matches Some(e) ==> (e.plane is Some <==> e.status == SurfaceStatus::Planar),
        r matches Some(e) ==> immature(voxel_map@[center_key], *config) ==> e.status
            == SurfaceStatus::Unknown,
        forall|g: Arithmetic| #[trigger]
            computes(*n, g) ==> r == if voxel_map@.contains_key(center_key) {
                Some(evaluation(g, voxel_map@, center_key, *config))
            } else {
                None
            },
{
    let center = match voxel_map.get(center_key) {
        None => {
            return None;
        },
        Some(cell) => *cell,
    };
    if center.observed_frames < config.min_center_observed_frames {
        return Some(SurfaceEvaluation { status: SurfaceStatus::Unknown, plane: None });
    }
    let radius: i32 = if config.neighbor_radius_voxels < 0 {
        0
    } else {
        config.neighbor_radius_voxels
    };
    let neighbors = gather_neighbor_means(voxel_map, center_key, radius);
    Some(judge(n, center_key, center.mean, &neighbors, config))
}

/// The plane of a planar voxel is the one that was tested: the center's mean is within
/// the limit of it, its error is the root mean square of the inliers' distances from it,
/// and it has its inliers among enough neighbors. Only a planar voxel has a plane. Where
/// roots and quotients undo squares and products, the square of the error times the
/// number of inliers is the sum of the squares.
pub proof fn planar_voxels_lie_on_their_plane(
    g: Arithmetic,
    center: VoxelKey,
    center_mean: Point3,
    neighbors: Seq<Point3>,
    config: SurfaceFilterConfig,
)
    requires
        neighbors.len() <= usize::MAX,
    ensures
        ({
            let r = judged(g, center, center_mean, neighbors, config);
            let inliers = dominant_inliers(g, neighbors, center, config);
            let count = (g.from_count)(inliers.len() as u64);
            let exact = (forall|a: Float32| #[trigger]
                (g.product)((g.square_root)(a), (g.square_root)(a)) == a) && (forall|
                a: Float32,
                b: Float32,
            | #[trigger]
                (g.product)((g.quotient)(a, b), b) == a);
            &&& r.plane is Some <==> r.status is Planar
            &&& r.plane matches Some(plane) ==> {
                let equation = PlaneEquation { normal: plane.normal, d: plane.d };
                &&& (g.sum)((g.dot)(plane.normal, center_mean), plane.d).abs_spec().le_spec(
                    config.max_center_distance_m,
                )
                &&& plane.rmse_m.le_spec(config.max_pca_rmse_m)
                &&& plane.rmse_m == (g.square_root)(
                    (g.quotient)(
                        squared_distances_upto(g, equation, inliers, inliers.len() as int),
                        count,
                    ),
                )
                &&& exact ==> (g.product)((g.product)(plane.rmse_m, plane.rmse_m), count)
                    == squared_distances_upto(g, equation, inliers, inliers.len() as int)
                &&& plane.neighbor_count == neighbors.len()
                &&& plane.neighbor_count >= config.min_neighbors
                &&& plane.inlier_count == inliers.len()
                &&& plane.inlier_count >= config.min_ransac_inliers
                &&& 0 < plane.inlier_count <= plane.neighbor_count
            }
        }),
{
    dominant_inliers_are_near_one_plane(g, neighbors, center, config);
}

/// A voxel is planar exactly where it has enough neighbors, enough of them near one plane,
/// and the plane fitted to these passes each of the four tests. It stays unknown exactly
/// where it has too few neighbors.
pub proof fn voxels_are_planar_where_every_test_passes(
    g: Arithmetic,
    center: VoxelKey,
    center_mean: Point3,
    neighbors: Seq<Point3>,
    config: SurfaceFilterConfig,
)
    ensures
        ({
            let r = judged(g, center, center_mean, neighbors, config);
            let inliers = dominant_inliers(g, neighbors, center, config);
            let share = (g.quotient)(
                (g.from_count)(inliers.len() as u64),
                (g.from_count)(neighbors.len() as u64),
            );
            &&& r.status is Unknown <==> neighbors.len() < config.min_neighbors
            &&& r.status is Planar <==> {
                &&& neighbors.len() >= config.min_neighbors
                &&& inliers.len() > 0
                &&& inliers.len() >= config.min_ransac_inliers
                &&& !share.lt_spec(config.min_inlier_ratio)
                &&& fit_plane_spec(g, inliers) matches Some(plane) && {
                    &&& config.min_planarity.le_spec(plane.planarity_spec(g))
                    &&& plane.surface_variation_spec(g).le_spec(config.max_surface_variation)
                    &&& plane_rmse_spec(g, plane.equation_spec(), inliers).le_spec(
                        config.max_pca_rmse_m,
                    )
                    &&& (g.sum)((g.dot)(plane.normal, center_mean), plane.d).abs_spec().le_spec(
                        config.max_center_distance_m,
                    )
                }
            }
        }),
{
}

/// A voxel that was seen in too few frames is not judged. Any other one is judged by the
/// means of the occupied voxels that are at most the radius away along each axis.
pub proof fn voxels_are_judged_by_those_around_them(
    g: Arithmetic,
    cells: Map<VoxelKey, VoxelCell>,
    center: VoxelKey,
    config: SurfaceFilterConfig,
    key: VoxelKey,
)
    requires
        config.neighbor_radius_voxels >= 0,
    ensures
        cells[center].observed_frames < config.min_center_observed_frames ==> evaluation(
            g,
            cells,
            center,
            config,
        ).status is Unknown,
        ({
            let radius = config.neighbor_radius_voxels as int;
            let keys = occupied(cells.dom(), center, radius);
            let means = neighbor_means(cells, center, radius);
            &&& cells[center].observed_frames >= config.min_center_observed_frames
                ==> evaluation(g, cells, center, config) == judged(
                g,
                center,
                cells[center].mean,
                means,
                config,
            )
            &&& means.len() == keys.len()
            &&& forall|i: int| 0 <= i < means.len() ==> #[trigger] means[i] == cells[keys[i]].mean
            &&& keys.contains(key) <==> cells.contains_key(key) && {
                &&& -radius <= key.ix - center.ix <= radius
                &&& -radius <= key.iy - center.iy <= radius
                &&& -radius <= key.iz - center.iz <= radius
            }
        }),
{
    crate::voxel::occupied_is_the_cube(cells.dom(), center, reach(config.neighbor_radius_voxels));
}

/// Two configurations are the same where each number of theirs is: with one that differs
/// they are not, in whichever order they are compared.
pub proof fn configurations_differ_by_any_number(a: SurfaceFilterConfig, b: SurfaceFilterConfig)
    ensures
        a.same_spec(b) <==> b.same_spec(a),
        a.same_spec(b) ==> {
            &&& a.neighbor_radius_voxels == b.neighbor_radius_voxels
            &&& a.min_neighbors == b.min_neighbors
            &&& a.min_ransac_inliers == b.min_ransac_inliers
            &&& a.min_center_observed_frames == b.min_center_observed_frames
            &&& a.ransac_iterations == b.ransac_iterations
            &&& a.ransac_min_iterations == b.ransac_min_iterations
            &&& a.ransac_confidence.equals_spec(b.ransac_confidence)
            &&& a.ransac_inlier_distance_m.equals_spec(b.ransac_inlier_distance_m)
            &&& a.min_inlier_ratio.equals_spec(b.min_inlier_ratio)
            &&& a.min_planarity.equals_spec(b.min_planarity)
            &&& a.max_surface_variation.equals_spec(b.max_surface_variation)
            &&& a.max_pca_rmse_m.equals_spec(b.max_pca_rmse_m)
            &&& a.max_center_distance_m.equals_spec(b.max_center_distance_m)
        },
        a == b && a.same_spec(a) ==> a.same_spec(b),
        !a.ransac_confidence.is_nan_spec() && !a.ransac_inlier_distance_m.is_nan_spec()
            && !a.min_inlier_ratio.is_nan_spec() && !a.min_planarity.is_nan_spec()
            && !a.max_surface_variation.is_nan_spec() && !a.max_pca_rmse_m.is_nan_spec()
            && !a.max_center_distance_m.is_nan_spec() ==> a.same_spec(a),
{
}

/// The dominant inliers are some of the points. Unless they are all of them, each one is
/// no farther than the inlier distance from one plane, by the squares, and so is no other.
pub proof fn dominant_inliers_are_near_one_plane(
    g: Arithmetic,
    points: Seq<Point3>,
    center: VoxelKey,
    config: SurfaceFilterConfig,
)
    ensures
        ({
            let inliers = dominant_inliers(g, points, center, config);
            let limit = config.ransac_inlier_distance_m;
            &&& inliers.len() <= points.len()
            &&& points.len() < 3 ==> inliers.len() == 0
            &&& inliers == points || inliers.len() == 0 || exists|plane: PlaneEquation|
                #![trigger plane.normal]
                forall|p: Point3|
                    #![trigger inliers.contains(p)]
                    inliers.contains(p) <==> points.contains(p) && {
                        let away = (g.sum)((g.dot)(plane.normal, p), plane.d);
                        (g.product)(away, away).le_spec((g.product)(limit, limit))
                    }
        }),
{
    let limit = config.ransac_inlier_distance_m;
    let inliers = dominant_inliers(g, points, center, config);
    if search_is_possible(points, config.ransac_iterations as int, limit) {
        let limits = RansacLimits {
            iterations: config.ransac_iterations,
            min_iterations: config.ransac_min_iterations,
            confidence: config.ransac_confidence,
            threshold_sq: (g.product)(limit, limit),
        };
        let start = search_start(limits, ransac_seed_spec(center));
        let end = search_end(g, points, limits, start, config.ransac_iterations as nat);
        inliers_are_some_of_the_points(g, points, limits, end);
        if !end.complete && end.best_plane is Some {
            let plane = end.best_plane->0;
            assert(plane.normal == end.best_plane->0.normal);
            assert forall|p: Point3| #![trigger inliers.contains(p)]
                inliers.contains(p) <==> points.contains(p) && {
                    let away = (g.sum)((g.dot)(plane.normal, p), plane.d);
                    (g.product)(away, away).le_spec((g.product)(limit, limit))
                } by {
                assert(inliers == search_inliers(g, points, limits, end));
            }
        }
    }
}

} // verus!
