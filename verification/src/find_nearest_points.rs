//! Correspondences between the points of a cloud and planes of a map.

use vstd::prelude::*;

use crate::cell::{VoxelCell, VoxelMap};
use crate::float::{Float32, F32_ONE};
use crate::numerics::{
    computes, world_point, world_point_spec, Arithmetic, Matrix3, Numerics, Point3, Pose,
};
use crate::plane::{fit_plane, fit_plane_spec};
use crate::ransac::{signed_distance, signed_distance_spec, PlaneEquation};
use crate::sorting::{positions, sort_positions, stable_order, stable_order_is_sorted};
use crate::voxel::{
    occupied, occupied_is_the_cube, voxel_key, voxel_key_spec, VoxelKey,
};

verus! {

// ---------------------------------------------------------------------------
// Points on planes
// ---------------------------------------------------------------------------

/// Whether a threshold is finite and positive.
pub open spec fn usable_threshold(threshold: Float32) -> bool {
    threshold.is_finite_spec() && Float32::zero_spec().lt_spec(threshold)
}

/// Whether all of at least three points are at most `threshold` away from `plane`.
pub open spec fn points_on_plane(
    g: Arithmetic,
    plane: PlaneEquation,
    points: Seq<Point3>,
    threshold: Float32,
) -> bool {
    &&& points.len() >= 3
    &&& usable_threshold(threshold)
    &&& forall|i: int|
        0 <= i < points.len() ==> signed_distance_spec(
            g,
            plane,
            #[trigger] points[i],
        ).abs_spec().le_spec(threshold)
}

pub fn check_points_on_plane<N: Numerics>(
    n: &N,
    normal: Point3,
    d: Float32,
    points: &[Point3],
    plane_point_distance_threshold_m: Float32,
) -> (r: bool)
    ensures
        points.len() < 3 || !usable_threshold(plane_point_distance_threshold_m) ==> !r,
        forall|g: Arithmetic| #[trigger]
            computes(*n, g) ==> r == points_on_plane(
                g,
                (PlaneEquation { normal, d }),
                points@,
                plane_point_distance_threshold_m,
            ),
{
    if points.len() < 3 || !plane_point_distance_threshold_m.is_finite() || !Float32::zero().lt(
        plane_point_distance_threshold_m,
    ) {
        return false;
    }
    let plane = PlaneEquation { normal, d };
    let mut i: usize = 0;
    while i < points.len()
        invariant
            i <= points.len(),
            plane == (PlaneEquation { normal, d }),
            forall|g: Arithmetic| #[trigger]
                computes(*n, g) ==> forall|j: int|
                    0 <= j < i ==> signed_distance_spec(
                        g,
                        plane,
                        #[trigger] points[j],
                    ).abs_spec().le_spec(plane_point_distance_threshold_m),
        decreases points.len() - i,
    {
        if !signed_distance(n, plane, points[i]).abs().le(plane_point_distance_threshold_m) {
            proof {
                assert forall|g: Arithmetic| #[trigger] computes(*n, g) implies !points_on_plane(
                    g,
                    plane,
                    points@,
                    plane_point_distance_threshold_m,
                ) by {
                    let p = points[i as int];
                    assert(!signed_distance_spec(g, plane, p).abs_spec().le_spec(
                        plane_point_distance_threshold_m,
                    ));
                }
            }
            return false;
        }
        i += 1;
    }
    true
}

/// 0.9, by which a distance counts against a point.
pub const SCORE_WEIGHT: u32 = 0x3f66_6666;

/// The least root of a sensor distance that a score is divided by.
pub const MIN_SENSOR_ROOT: u32 = 0x3586_37bd;

/// How well a point lies on a plane: 1 on the plane, and the less the farther away
/// it is, relative to the root of its distance from the sensor.
pub open spec fn plane_score(
    g: Arithmetic,
    plane: PlaneEquation,
    world_point: Point3,
    sensor_dist: Float32,
) -> Float32 {
    (g.difference)(
        Float32 { bits: F32_ONE },
        (g.quotient)(
            (g.product)(
                Float32 { bits: SCORE_WEIGHT },
                signed_distance_spec(g, plane, world_point).abs_spec(),
            ),
            (g.square_root)(sensor_dist).max_spec(Float32 { bits: MIN_SENSOR_ROOT }),
        ),
    )
}

/// Whether the score of the point is above `plane_fit_threshold`.
pub fn check_source_on_plane<N: Numerics>(
    n: &N,
    normal: Point3,
    d: Float32,
    world_point: Point3,
    sensor_dist: Float32,
    plane_fit_threshold: Float32,
) -> (r: bool)
    ensures
        forall|g: Arithmetic| #[trigger]
            computes(*n, g) ==> r == plane_fit_threshold.lt_spec(
                plane_score(g, (PlaneEquation { normal, d }), world_point, sensor_dist),
            ),
{
    let distance = signed_distance(n, PlaneEquation { normal, d }, world_point);
    let root = n.square_root(sensor_dist).max(Float32 { bits: MIN_SENSOR_ROOT });
    let score = n.difference(
        Float32 { bits: F32_ONE },
        n.quotient(n.product(Float32 { bits: SCORE_WEIGHT }, distance.abs()), root),
    );
    plane_fit_threshold.lt(score)
}

// ---------------------------------------------------------------------------
// Nearest voxels
// ---------------------------------------------------------------------------

/// The squared distance of the mean of a cell from `query`.
pub open spec fn cell_distance(g: Arithmetic, query: Point3, cell: VoxelCell) -> Float32 {
    let offset = (g.vector_difference)(query, cell.mean);
    (g.dot)(offset, offset)
}

/// The voxels at most `max_dist_sq` away among the first `k` of `keys`, each with its
/// squared distance.
pub open spec fn candidates_upto(
    g: Arithmetic,
    cells: Map<VoxelKey, VoxelCell>,
    keys: Seq<VoxelKey>,
    query: Point3,
    max_dist_sq: Float32,
    k: int,
) -> Seq<(VoxelKey, Float32)>
    decreases k,
{
    if k <= 0 {
        Seq::empty()
    } else {
        let before = candidates_upto(g, cells, keys, query, max_dist_sq, k - 1);
        let distance = cell_distance(g, query, cells[keys[k - 1]]);
        if distance.le_spec(max_dist_sq) {
            before.push((keys[k - 1], distance))
        } else {
            before
        }
    }
}

/// The voxels in reach of `query` that are at most `max_dist_sq` away.
pub open spec fn candidates(
    g: Arithmetic,
    cells: Map<VoxelKey, VoxelCell>,
    query: Point3,
    voxel_size: Float32,
    search_range: i32,
    max_dist_sq: Float32,
) -> Seq<(VoxelKey, Float32)> {
    let keys = occupied(
        cells.dom(),
        voxel_key_spec(g, query, voxel_size),
        search_range as int,
    );
    candidates_upto(g, cells, keys, query, max_dist_sq, keys.len() as int)
}

/// The order of the candidates by distance.
pub open spec fn distance_ranks(found: Seq<(VoxelKey, Float32)>) -> Seq<i64> {
    found.map_values(|c: (VoxelKey, Float32)| c.1.rank_spec() as i64)
}

/// The candidates by increasing distance, those at the same distance in their order.
pub open spec fn by_distance(found: Seq<(VoxelKey, Float32)>) -> Seq<(VoxelKey, Float32)> {
    stable_order(distance_ranks(found)).map_values(|i: int| found[i])
}

/// The first `k` entries, or all where there are fewer.
pub open spec fn at_most<A>(s: Seq<A>, k: int) -> Seq<A> {
    if s.len() <= k {
        s
    } else {
        s.take(k)
    }
}

/// The `k` nearest voxels in reach of `query`, the nearest one first.
pub open spec fn nearest_voxels(
    g: Arithmetic,
    cells: Map<VoxelKey, VoxelCell>,
    query: Point3,
    voxel_size: Float32,
    search_range: i32,
    max_dist_sq: Float32,
    k: int,
) -> Seq<(VoxelKey, Float32)> {
    at_most(
        by_distance(candidates(g, cells, query, voxel_size, search_range, max_dist_sq)),
        k,
    )
}

fn gather_candidates<N: Numerics>(
    n: &N,
    target_map: &VoxelMap,
    query: Point3,
    voxel_size: Float32,
    search_range: i32,
    max_dist_sq: Float32,
) -> (r: Vec<(VoxelKey, Float32)>)
    ensures
        forall|j: int| 0 <= j < r.len() ==> target_map@.contains_key((#[trigger] r[j]).0),
        forall|g: Arithmetic| #[trigger]
            computes(*n, g) ==> r@ == candidates(
                g,
                target_map@,
                query,
                voxel_size,
                search_range,
                max_dist_sq,
            ),
{
    let base = voxel_key(n, query, voxel_size);
    let keys = target_map.occupied_cube(base, search_range);
    proof {
        occupied_is_the_cube(target_map@.dom(), base, search_range as int);
        assert forall|j: int| 0 <= j < keys.len() implies target_map@.contains_key(
            #[trigger] keys[j],
        ) by {
            assert(occupied(target_map@.dom(), base, search_range as int).contains(keys[j]));
        }
    }
    let mut found: Vec<(VoxelKey, Float32)> = Vec::new();
    let mut k: usize = 0;
    while k < keys.len()
        invariant
            k <= keys.len(),
            forall|j: int| 0 <= j < keys.len() ==> target_map@.contains_key(#[trigger] keys[j]),
            forall|j: int|
                0 <= j < found.len() ==> target_map@.contains_key((#[trigger] found[j]).0),
            forall|g: Arithmetic| #[trigger]
                computes(*n, g) ==> found@ == candidates_upto(
                    g,
                    target_map@,
                    keys@,
                    query,
                    max_dist_sq,
                    k as int,
                ),
        decreases keys.len() - k,
    {
        if let Some(cell) = target_map.get(keys[k]) {
            let offset = n.vector_difference(query, cell.mean);
            let distance = n.dot(offset, offset);
            if distance.le(max_dist_sq) {
                found.push((keys[k], distance));
            }
        }
        k += 1;
    }
    found
}

fn sort_by_distance(found: &Vec<(VoxelKey, Float32)>) -> (r: Vec<(VoxelKey, Float32)>)
    ensures
        r@ == by_distance(found@),
        r.len() == found.len(),
        forall|j: int|
            0 <= j < r.len() ==> exists|i: int| 0 <= i < found.len() && found[i] == #[trigger] r[j],
{
    let mut ranks: Vec<i64> = Vec::new();
    let mut k: usize = 0;
    while k < found.len()
        invariant
            k <= found.len(),
            ranks.len() == k,
            forall|j: int| 0 <= j < k ==> #[trigger] ranks[j] == found[j].1.rank_spec(),
        decreases found.len() - k,
    {
        let (_, distance) = found[k];
        ranks.push(distance.rank());
        k += 1;
    }
    assert(ranks@ =~= distance_ranks(found@));
    let order = sort_positions(&ranks);
    let mut r: Vec<(VoxelKey, Float32)> = Vec::new();
    let mut i: usize = 0;
    while i < order.len()
        invariant
            i <= order.len(),
            order.len() == found.len(),
            r.len() == i,
            forall|j: int| 0 <= j < order.len() ==> #[trigger] order[j] < found.len(),
            forall|j: int| 0 <= j < i ==> #[trigger] r[j] == found[order[j] as int],
        decreases order.len() - i,
    {
        r.push(found[order[i]]);
        i += 1;
    }
    assert(r@ =~= by_distance(found@)) by {
        assert forall|j: int| 0 <= j < r.len() implies r[j] == #[trigger] by_distance(
            found@,
        )[j] by {
            assert(positions(order@)[j] == order[j] as int);
        }
    }
    r
}

/// The `k` occupied voxels nearest to `query_point`, the nearest one first, each with
/// its squared distance.
pub fn find_k_nearest_target_voxels<N: Numerics>(
    n: &N,
    query_point: Point3,
    target_map: &VoxelMap,
    voxel_size: Float32,
    search_range: i32,
    max_dist_sq: Float32,
    k: usize,
) -> (r: Vec<(VoxelKey, Float32)>)
    ensures
        r.len() <= k,
        forall|j: int| 0 <= j < r.len() ==> target_map@.contains_key((#[trigger] r[j]).0),
        forall|g: Arithmetic| #[trigger]
            computes(*n, g) ==> r@ == nearest_voxels(
                g,
                target_map@,
                query_point,
                voxel_size,
                search_range,
                max_dist_sq,
                k as int,
            ),
{
    let found = gather_candidates(
        n,
        target_map,
        query_point,
        voxel_size,
        search_range,
        max_dist_sq,
    );
    let mut sorted = sort_by_distance(&found);
    let ghost all = sorted@;
    if sorted.len() > k {
        sorted.truncate(k);
        assert(sorted@ =~= all.take(k as int));
    }
    assert forall|j: int| 0 <= j < sorted.len() implies target_map@.contains_key(
        (#[trigger] sorted[j]).0,
    ) by {
        assert(sorted[j] == all[j]);
    }
    sorted
}

// ---------------------------------------------------------------------------
// Correspondences
// ---------------------------------------------------------------------------

/// A point of a cloud, in sensor coordinates, and the plane of the map that it is
/// held against.
#[derive(Clone, Copy, Debug)]
pub struct PointCorrespondence {
    pub src_key: VoxelKey,
    pub src_point: Point3,
    /// The nearest cell.
    pub target_cell: VoxelCell,
    pub plane_normal: Point3,
    pub plane_d: Float32,
}

/// What makes a point and a plane correspond.
#[derive(Clone, Copy, Debug)]
pub struct MatchingLimits {
    /// The size of the voxels of the map that is searched.
    pub target_voxel_size: Float32,
    pub search_range: i32,
    /// How many nearest voxels a plane is fitted to.
    pub k: usize,
    pub max_dist_factor: Float32,
    pub plane_point_distance_threshold: Float32,
    pub source_plane_score_threshold: Float32,
    /// The largest distance of a point from its plane, where there is a limit.
    pub source_to_plane_max_distance: Option<Float32>,
    /// The least planarity of the voxels, where there is a limit.
    pub min_planarity: Option<Float32>,
}

impl MatchingLimits {
    /// The same limits in a map with voxels of this size.
    pub open spec fn over_voxels_spec(self, size: Float32) -> MatchingLimits {
        MatchingLimits { target_voxel_size: size, ..self }
    }

    #[verifier::when_used_as_spec(over_voxels_spec)]
    pub fn over_voxels(self, size: Float32) -> (r: MatchingLimits)
        ensures
            r == self.over_voxels_spec(size),
    {
        MatchingLimits { target_voxel_size: size, ..self }
    }
}

/// The square of the largest distance of a neighbor.
pub open spec fn max_neighbor_dist_sq(g: Arithmetic, limits: MatchingLimits) -> Float32 {
    let distance = (g.product)(limits.target_voxel_size, limits.max_dist_factor);
    (g.product)(distance, distance)
}

/// The point that stands for a cell in a fit.
pub open spec fn fitted_point(cell: VoxelCell) -> Point3 {
    if cell.is_point {
        cell.point.0
    } else {
        cell.mean
    }
}

/// The correspondence of the point `src_point`, where it has one: the plane through
/// its `k` nearest voxels, where these lie on it and the point does too.
pub open spec fn correspondence(
    g: Arithmetic,
    cells: Map<VoxelKey, VoxelCell>,
    limits: MatchingLimits,
    pose: Pose,
    src_key: VoxelKey,
    src_point: Point3,
) -> Option<PointCorrespondence> {
    let query = world_point_spec(g, pose, src_point);
    let max_sq = max_neighbor_dist_sq(g, limits);
    let neighbors = nearest_voxels(
        g,
        cells,
        query,
        limits.target_voxel_size,
        limits.search_range,
        max_sq,
        limits.k as int,
    );
    let points = neighbors.map_values(|c: (VoxelKey, Float32)| fitted_point(cells[c.0]));
    if neighbors.len() < limits.k || max_sq.lt_spec(neighbors.last().1) {
        None
    } else {
        match fit_plane_spec(g, points) {
            None => None,
            Some(plane) => {
                let equation = plane.equation_spec();
                let planar_enough = match limits.min_planarity {
                    None => true,
                    Some(least) => !plane.planarity_spec(g).lt_spec(least),
                };
                let near_enough = match limits.source_to_plane_max_distance {
                    None => true,
                    Some(most) => !most.lt_spec(
                        signed_distance_spec(g, equation, query).abs_spec(),
                    ),
                };
                if planar_enough && near_enough && points_on_plane(
                    g,
                    equation,
                    points,
                    limits.plane_point_distance_threshold,
                ) && limits.source_plane_score_threshold.lt_spec(
                    plane_score(g, equation, query, (g.norm)(src_point)),
                ) {
                    Some(
                        PointCorrespondence {
                            src_key,
                            src_point,
                            target_cell: cells[neighbors[0].0],
                            plane_normal: plane.normal,
                            plane_d: plane.d,
                        },
                    )
                } else {
                    None
                }
            },
        }
    }
}

/// The correspondences of the points of the first `k` of `keys`.
pub open spec fn correspondences_upto(
    g: Arithmetic,
    sources: Map<VoxelKey, VoxelCell>,
    cells: Map<VoxelKey, VoxelCell>,
    limits: MatchingLimits,
    pose: Pose,
    keys: Seq<VoxelKey>,
    k: int,
) -> Seq<PointCorrespondence>
    decreases k,
{
    if k <= 0 {
        Seq::empty()
    } else {
        let before = correspondences_upto(g, sources, cells, limits, pose, keys, k - 1);
        let key = keys[k - 1];
        match correspondence(g, cells, limits, pose, key, sources[key].point.0) {
            None => before,
            Some(found) => before.push(found),
        }
    }
}

/// Whether `keys` lists each voxel of `cells` once.
pub open spec fn lists_voxels(cells: Map<VoxelKey, VoxelCell>, keys: Seq<VoxelKey>) -> bool {
    keys.no_duplicates() && keys.to_set() == cells.dom()
}

/// Whether `found` are the correspondences of all points of `sources`, in whatever
/// order of the voxels.
pub open spec fn are_correspondences(
    g: Arithmetic,
    sources: Map<VoxelKey, VoxelCell>,
    cells: Map<VoxelKey, VoxelCell>,
    limits: MatchingLimits,
    pose: Pose,
    found: Seq<PointCorrespondence>,
) -> bool {
    exists|keys: Seq<VoxelKey>| #[trigger]
        lists_voxels(sources, keys) && found == correspondences_upto(
            g,
            sources,
            cells,
            limits,
            pose,
            keys,
            keys.len() as int,
        )
}

/// The correspondence of one point, where it has one.
pub fn find_correspondence<N: Numerics>(
    n: &N,
    target_map: &VoxelMap,
    limits: &MatchingLimits,
    pose: Pose,
    src_key: VoxelKey,
    src_point: Point3,
) -> (r: Option<PointCorrespondence>)
    requires
        limits.k > 0,
    ensures
        r matches Some(found) ==> found.src_key == src_key && found.src_point == src_point,
        forall|g: Arithmetic| #[trigger]
            computes(*n, g) ==> r == correspondence(
                g,
                target_map@,
                *limits,
                pose,
                src_key,
                src_point,
            ),
{
    let query = world_point(n, pose, src_point);
    let max_distance = n.product(limits.target_voxel_size, limits.max_dist_factor);
    let max_sq = n.product(max_distance, max_distance);
    let neighbors = find_k_nearest_target_voxels(
        n,
        query,
        target_map,
        limits.target_voxel_size,
        limits.search_range,
        max_sq,
        limits.k,
    );
    if neighbors.len() < limits.k {
        return None;
    }
    let (_, farthest) = neighbors[neighbors.len() - 1];
    if max_sq.lt(farthest) {
        return None;
    }
    let mut points: Vec<Point3> = Vec::new();
    let mut i: usize = 0;
    while i < neighbors.len()
        invariant
            i <= neighbors.len(),
            points.len() == i,
            forall|j: int|
                0 <= j < neighbors.len() ==> target_map@.contains_key(
                    (#[trigger] neighbors[j]).0,
                ),
            forall|j: int|
                0 <= j < i ==> #[trigger] points[j] == fitted_point(target_map@[neighbors[j].0]),
        decreases neighbors.len() - i,
    {
        let (key, _) = neighbors[i];
        assert(target_map@.contains_key(neighbors[i as int].0));
        if let Some(cell) = target_map.get(key) {
            if cell.is_point {
                points.push(cell.point.0);
            } else {
                points.push(cell.mean);
            }
        }
        i += 1;
    }
    assert(points@ =~= neighbors@.map_values(
        |c: (VoxelKey, Float32)| fitted_point(target_map@[c.0]),
    ));
    let plane = match fit_plane(n, &points) {
        None => {
            return None;
        },
        Some(plane) => plane,
    };
    let planar_enough = match limits.min_planarity {
        None => true,
        Some(least) => !plane.planarity(n).lt(least),
    };
    let near_enough = match limits.source_to_plane_max_distance {
        None => true,
        Some(most) => !most.lt(signed_distance(n, plane.equation(), query).abs()),
    };
    if !planar_enough || !near_enough || !check_points_on_plane(
        n,
        plane.normal,
        plane.d,
        &points,
        limits.plane_point_distance_threshold,
    ) {
        return None;
    }
    if !check_source_on_plane(
        n,
        plane.normal,
        plane.d,
        query,
        n.norm(src_point),
        limits.source_plane_score_threshold,
    ) {
        return None;
    }
    let (nearest, _) = neighbors[0];
    assert(target_map@.contains_key(neighbors[0].0));
    match target_map.get(nearest) {
        Some(cell) => Some(
            PointCorrespondence {
                src_key,
                src_point,
                target_cell: *cell,
                plane_normal: plane.normal,
                plane_d: plane.d,
            },
        ),
        None => None,
    }
}

/// The correspondences of the points of `source_map`.
///
/// The points are in sensor coordinates and `target_map` in the world's; `r_mat` and
/// `t_vec` take the one into the other.
pub fn pickup_valid_source_points<N: Numerics>(
    n: &N,
    source_map: &VoxelMap,
    target_map: &VoxelMap,
    limits: &MatchingLimits,
    r_mat: Matrix3,
    t_vec: Point3,
) -> (r: Vec<PointCorrespondence>)
    requires
        limits.k > 0,
    ensures
        r.len() <= source_map@.len(),
        source_map@.dom().finite(),
        forall|j: int|
            0 <= j < r.len() ==> source_map@.contains_key((#[trigger] r[j]).src_key)
                && r[j].src_point == source_map@[r[j].src_key].point.0,
        forall|g: Arithmetic| #[trigger]
            computes(*n, g) ==> are_correspondences(
                g,
                source_map@,
                target_map@,
                *limits,
                (Pose { rotation: r_mat, translation: t_vec }),
                r@,
            ),
{
    let pose = Pose { rotation: r_mat, translation: t_vec };
    let keys = source_map.keys();
    let mut found: Vec<PointCorrespondence> = Vec::new();
    let mut i: usize = 0;
    while i < keys.len()
        invariant
            i <= keys.len(),
            limits.k > 0,
            found.len() <= i,
            lists_voxels(source_map@, keys@),
            forall|j: int|
                0 <= j < found.len() ==> source_map@.contains_key((#[trigger] found[j]).src_key)
                    && found[j].src_point == source_map@[found[j].src_key].point.0,
            forall|g: Arithmetic| #[trigger]
                computes(*n, g) ==> found@ == correspondences_upto(
                    g,
                    source_map@,
                    target_map@,
                    *limits,
                    pose,
                    keys@,
                    i as int,
                ),
        decreases keys.len() - i,
    {
        let key = keys[i];
        assert(keys@.to_set().contains(key));
        if let Some(cell) = source_map.get(key) {
            let src_point = cell.point.0;
            if let Some(one) = find_correspondence(n, target_map, limits, pose, key, src_point) {
                found.push(one);
            }
        }
        i += 1;
    }
    found
}

// ---------------------------------------------------------------------------
// Laws
// ---------------------------------------------------------------------------

/// Of the voxels in reach the nearest are taken, in order of their distance.
pub proof fn nearest_voxels_are_sorted(
    g: Arithmetic,
    cells: Map<VoxelKey, VoxelCell>,
    query: Point3,
    voxel_size: Float32,
    search_range: i32,
    max_dist_sq: Float32,
    k: int,
    i: int,
    j: int,
)
    requires
        k >= 0,
        0 <= i < j < by_distance(
            candidates(g, cells, query, voxel_size, search_range, max_dist_sq),
        ).len(),
        i < k,
    ensures
        nearest_voxels(g, cells, query, voxel_size, search_range, max_dist_sq, k)[i]
            == by_distance(
            candidates(g, cells, query, voxel_size, search_range, max_dist_sq),
        )[i],
        nearest_voxels(
            g,
            cells,
            query,
            voxel_size,
            search_range,
            max_dist_sq,
            k,
        )[i].1.rank_spec() <= by_distance(
            candidates(g, cells, query, voxel_size, search_range, max_dist_sq),
        )[j].1.rank_spec(),
{
    let found = candidates(g, cells, query, voxel_size, search_range, max_dist_sq);
    let ranks = distance_ranks(found);
    stable_order_is_sorted(ranks);
    let order = stable_order(ranks);
    assert(crate::sorting::precedes(ranks, order[i], order[j]));
    assert(ranks[order[i]] == found[order[i]].1.rank_spec());
    assert(ranks[order[j]] == found[order[j]].1.rank_spec());
}

// ---------------------------------------------------------------------------
// What correspondences are
// ---------------------------------------------------------------------------

/// The score of a point on the plane is one, and what is missing to one, times the root
/// of the distance from the sensor, is nine tenths of the distance from the plane, where
/// differences and quotients undo themselves.
pub proof fn scores_fall_with_the_distance(
    g: Arithmetic,
    plane: PlaneEquation,
    p: Point3,
    sensor_dist: Float32,
)
    requires
        forall|a: Float32, b: Float32| #[trigger]
            (g.difference)(a, (g.difference)(a, b)) == b,
        forall|a: Float32, b: Float32| #[trigger] (g.product)((g.quotient)(a, b), b) == a,
    ensures
        ({
            let one = Float32 { bits: 0x3f80_0000 };
            let root = (g.square_root)(sensor_dist);
            let away = (g.sum)((g.dot)(plane.normal, p), plane.d).abs_spec();
            (Float32 { bits: 0x3586_37bd }).lt_spec(root) ==> (g.product)(
                (g.difference)(one, plane_score(g, plane, p, sensor_dist)),
                root,
            ) == (g.product)(Float32 { bits: 0x3f66_6666 }, away)
        }),
{
}

/// Points are on a plane exactly where there are three or more, the limit is positive and
/// finite, and none has `|normal . p + d|` above it.
pub proof fn points_on_a_plane_are_all_near_it(
    g: Arithmetic,
    plane: PlaneEquation,
    points: Seq<Point3>,
    threshold: Float32,
)
    ensures
        points_on_plane(g, plane, points, threshold) <==> points.len() >= 3
            && threshold.is_finite_spec() && Float32::zero_spec().lt_spec(threshold) && (forall|
            i: int,
        |
            0 <= i < points.len() ==> (g.sum)(
                (g.dot)(plane.normal, #[trigger] points[i]),
                plane.d,
            ).abs_spec().le_spec(threshold)),
{
    assert forall|i: int| 0 <= i < points.len() implies signed_distance_spec(
        g,
        plane,
        #[trigger] points[i],
    ) == (g.sum)((g.dot)(plane.normal, points[i]), plane.d) by {}
}

proof fn lemma_candidates(
    g: Arithmetic,
    cells: Map<VoxelKey, VoxelCell>,
    keys: Seq<VoxelKey>,
    query: Point3,
    max_dist_sq: Float32,
    key: VoxelKey,
    k: int,
)
    requires
        0 <= k <= keys.len(),
    ensures
        ({
            let found = candidates_upto(g, cells, keys, query, max_dist_sq, k);
            let offset = (g.vector_difference)(query, cells[key].mean);
            let distance = (g.dot)(offset, offset);
            &&& found.len() <= k
            &&& (exists|i: int| 0 <= i < found.len() && (#[trigger] found[i]).0 == key) <==> (
            exists|i: int| 0 <= i < k && #[trigger] keys[i] == key) && distance.le_spec(
                max_dist_sq,
            )
            &&& forall|i: int|
                0 <= i < found.len() ==> {
                    let way = (g.vector_difference)(query, cells[(#[trigger] found[i]).0].mean);
                    &&& found[i].1 == (g.dot)(way, way)
                    &&& found[i].1.le_spec(max_dist_sq)
                }
        }),
    decreases k,
{
    if k > 0 {
        lemma_candidates(g, cells, keys, query, max_dist_sq, key, k - 1);
        let before = candidates_upto(g, cells, keys, query, max_dist_sq, k - 1);
        let now = candidates_upto(g, cells, keys, query, max_dist_sq, k);
        let last = keys[k - 1];
        if now.len() > before.len() {
            assert(now[before.len() as int].0 == last);
        }
        assert forall|i: int| 0 <= i < before.len() implies now[i] == before[i] by {}
        if exists|i: int| 0 <= i < before.len() && (#[trigger] before[i]).0 == key {
            let i = choose|i: int| 0 <= i < before.len() && (#[trigger] before[i]).0 == key;
            assert(now[i].0 == key);
        }
        if exists|i: int| 0 <= i < now.len() && (#[trigger] now[i]).0 == key {
            let i = choose|i: int| 0 <= i < now.len() && (#[trigger] now[i]).0 == key;
            if i < before.len() {
                assert(before[i].0 == key);
            }
        }
        if last == key {
            assert(keys[k - 1] == key);
        }
    }
}

/// A voxel is a candidate exactly where it is occupied, at most the range away from the
/// voxel of the query along each axis, and the squared way from its mean to the query,
/// which goes with it, is at most the limit.
pub proof fn candidates_are_the_near_voxels_in_reach(
    g: Arithmetic,
    cells: Map<VoxelKey, VoxelCell>,
    query: Point3,
    voxel_size: Float32,
    search_range: i32,
    max_dist_sq: Float32,
    key: VoxelKey,
)
    ensures
        ({
            let found = candidates(g, cells, query, voxel_size, search_range, max_dist_sq);
            let base = voxel_key_spec(g, query, voxel_size);
            let offset = (g.vector_difference)(query, cells[key].mean);
            let range = search_range as int;
            &&& (exists|i: int| 0 <= i < found.len() && (#[trigger] found[i]).0 == key)
                <==> cells.contains_key(key) && (g.dot)(offset, offset).le_spec(max_dist_sq) && {
                &&& -range <= key.ix - base.ix <= range
                &&& -range <= key.iy - base.iy <= range
                &&& -range <= key.iz - base.iz <= range
            }
            &&& forall|i: int|
                0 <= i < found.len() ==> {
                    let way = (g.vector_difference)(query, cells[(#[trigger] found[i]).0].mean);
                    found[i].1 == (g.dot)(way, way)
                }
        }),
{
    let base = voxel_key_spec(g, query, voxel_size);
    let keys = occupied(cells.dom(), base, search_range as int);
    occupied_is_the_cube(cells.dom(), base, search_range as int);
    lemma_candidates(g, cells, keys, query, max_dist_sq, key, keys.len() as int);
    if keys.contains(key) {
        let i = keys.index_of(key);
        assert(keys[i] == key);
    }
    if exists|i: int| 0 <= i < keys.len() && #[trigger] keys[i] == key {
        assert(keys.contains(key));
    }
}

/// The nearest voxels are candidates, `k` of them or all where there are fewer, and no
/// candidate that is left out is nearer than one that is taken.
pub proof fn nearest_voxels_are_the_nearest_candidates(
    g: Arithmetic,
    cells: Map<VoxelKey, VoxelCell>,
    query: Point3,
    voxel_size: Float32,
    search_range: i32,
    max_dist_sq: Float32,
    k: int,
    i: int,
)
    requires
        0 <= k,
    ensures
        ({
            let found = candidates(g, cells, query, voxel_size, search_range, max_dist_sq);
            let nearest = nearest_voxels(
                g,
                cells,
                query,
                voxel_size,
                search_range,
                max_dist_sq,
                k,
            );
            &&& nearest.len() == if found.len() <= k {
                found.len() as int
            } else {
                k
            }
            &&& 0 <= i < nearest.len() ==> found.contains(nearest[i])
            &&& 0 < i < nearest.len() ==> nearest[i - 1].1.rank_spec() <= nearest[i].1.rank_spec()
        }),
{
    let found = candidates(g, cells, query, voxel_size, search_range, max_dist_sq);
    let ranks = distance_ranks(found);
    stable_order_is_sorted(ranks);
    let order = stable_order(ranks);
    let sorted = by_distance(found);
    if 0 <= i < sorted.len() {
        assert(sorted[i] == found[order[i]]);
        assert(found.contains(found[order[i]]));
    }
    if 0 < i < sorted.len() {
        assert(crate::sorting::precedes(ranks, order[i - 1], order[i]));
        assert(ranks[order[i - 1]] == found[order[i - 1]].1.rank_spec());
        assert(ranks[order[i]] == found[order[i]].1.rank_spec());
    }
}

/// Neighbors are searched within the size of a voxel times the factor: the limit is that
/// distance, squared.
pub proof fn neighbors_are_searched_within_the_factor(g: Arithmetic, limits: MatchingLimits)
    requires
        forall|a: Float32, b: Float32| #[trigger] (g.product)(a, b) == (g.product)(b, a),
    ensures
        ({
            let distance = (g.product)(limits.max_dist_factor, limits.target_voxel_size);
            max_neighbor_dist_sq(g, limits) == (g.product)(distance, distance)
        }),
{
}

/// A point corresponds exactly where `k` voxels are found around its place in the world,
/// the farthest within the limit, and the plane fitted to their points is planar enough,
/// near enough to the place and to each of these points, and scores high enough there.
/// The correspondence holds the point as the sensor saw it, the nearest voxel and that
/// plane.
pub proof fn points_correspond_to_the_plane_of_their_neighbors(
    g: Arithmetic,
    cells: Map<VoxelKey, VoxelCell>,
    limits: MatchingLimits,
    pose: Pose,
    src_key: VoxelKey,
    src_point: Point3,
)
    requires
        limits.k > 0,
    ensures
        ({
            let r = correspondence(g, cells, limits, pose, src_key, src_point);
            let place = (g.vector_sum)(
                (g.transformed)(pose.rotation, src_point),
                pose.translation,
            );
            let reach = (g.product)(limits.target_voxel_size, limits.max_dist_factor);
            let max_sq = (g.product)(reach, reach);
            let near = nearest_voxels(
                g,
                cells,
                place,
                limits.target_voxel_size,
                limits.search_range,
                max_sq,
                limits.k as int,
            );
            let shown = |i: int|
                if cells[near[i].0].is_point {
                    cells[near[i].0].point.0
                } else {
                    cells[near[i].0].mean
                };
            let fit = fit_plane_spec(g, Seq::new(near.len(), shown));
            let away = |plane: crate::plane::FittedPlane, p: Point3|
                (g.sum)((g.dot)(plane.normal, p), plane.d).abs_spec();
            let passes = |plane: crate::plane::FittedPlane|
                {
                    &&& limits.min_planarity matches Some(least) ==> !plane.planarity_spec(
                        g,
                    ).lt_spec(least)
                    &&& limits.source_to_plane_max_distance matches Some(most) ==> !most.lt_spec(
                        away(plane, place),
                    )
                    &&& near.len() >= 3
                    &&& usable_threshold(limits.plane_point_distance_threshold)
                    &&& forall|i: int|
                        #![trigger near[i]]
                        0 <= i < near.len() ==> away(plane, shown(i)).le_spec(
                            limits.plane_point_distance_threshold,
                        )
                    &&& limits.source_plane_score_threshold.lt_spec(
                        plane_score(g, plane.equation_spec(), place, (g.norm)(src_point)),
                    )
                };
            &&& r is Some <==> near.len() == limits.k && !max_sq.lt_spec(near.last().1) && (
            fit matches Some(plane) && passes(plane))
            &&& r matches Some(c) ==> {
                &&& c.src_key == src_key
                &&& c.src_point == src_point
                &&& c.target_cell == cells[near[0].0]
                &&& fit matches Some(plane) && c.plane_normal == plane.normal && c.plane_d
                    == plane.d
            }
        }),
{
    let place = world_point_spec(g, pose, src_point);
    let max_sq = max_neighbor_dist_sq(g, limits);
    nearest_voxels_are_the_nearest_candidates(
        g,
        cells,
        place,
        limits.target_voxel_size,
        limits.search_range,
        max_sq,
        limits.k as int,
        0,
    );
    let near = nearest_voxels(
        g,
        cells,
        place,
        limits.target_voxel_size,
        limits.search_range,
        max_sq,
        limits.k as int,
    );
    let shown = |i: int|
        if cells[near[i].0].is_point {
            cells[near[i].0].point.0
        } else {
            cells[near[i].0].mean
        };
    let points = near.map_values(|c: (VoxelKey, Float32)| fitted_point(cells[c.0]));
    assert(points =~= Seq::new(near.len(), shown));
    if let Some(plane) = fit_plane_spec(g, points) {
        points_on_a_plane_are_all_near_it(
            g,
            plane.equation_spec(),
            points,
            limits.plane_point_distance_threshold,
        );
        assert forall|i: int| 0 <= i < near.len() implies points[i] == shown(i) && (
        #[trigger] near[i]).0 == near[i].0 by {}
        if points_on_plane(
            g,
            plane.equation_spec(),
            points,
            limits.plane_point_distance_threshold,
        ) {
            assert forall|i: int| #![trigger near[i]] 0 <= i < near.len() implies (g.sum)(
                (g.dot)(plane.normal, shown(i)),
                plane.d,
            ).abs_spec().le_spec(limits.plane_point_distance_threshold) by {
                assert(points[i] == shown(i));
            }
        } else if near.len() >= 3 && usable_threshold(limits.plane_point_distance_threshold) {
            let i = choose|i: int|
                0 <= i < points.len() && !(g.sum)(
                    (g.dot)(plane.normal, #[trigger] points[i]),
                    plane.d,
                ).abs_spec().le_spec(limits.plane_point_distance_threshold);
            assert(near[i].0 == near[i].0);
            assert(points[i] == shown(i));
        }
    }
}

/// The correspondences found are those of the source voxels, each at its point: one
/// belongs to the list exactly where some voxel has it.
pub proof fn every_source_that_corresponds_is_found(
    g: Arithmetic,
    sources: Map<VoxelKey, VoxelCell>,
    cells: Map<VoxelKey, VoxelCell>,
    limits: MatchingLimits,
    pose: Pose,
    found: Seq<PointCorrespondence>,
    c: PointCorrespondence,
)
    requires
        are_correspondences(g, sources, cells, limits, pose, found),
    ensures
        found.contains(c) <==> exists|key: VoxelKey|
            sources.contains_key(key) && #[trigger] correspondence(
                g,
                cells,
                limits,
                pose,
                key,
                sources[key].point.0,
            ) == Some(c),
        found.len() <= sources.len() || !sources.dom().finite(),
{
    let keys = choose|keys: Seq<VoxelKey>| #[trigger]
        lists_voxels(sources, keys) && found == correspondences_upto(
            g,
            sources,
            cells,
            limits,
            pose,
            keys,
            keys.len() as int,
        );
    lemma_found(g, sources, cells, limits, pose, keys, c, keys.len() as int);
    keys.unique_seq_to_set();
    if exists|i: int|
        0 <= i < keys.len() && #[trigger] correspondence(
            g,
            cells,
            limits,
            pose,
            keys[i],
            sources[keys[i]].point.0,
        ) == Some(c) {
        let i = choose|i: int|
            0 <= i < keys.len() && #[trigger] correspondence(
                g,
                cells,
                limits,
                pose,
                keys[i],
                sources[keys[i]].point.0,
            ) == Some(c);
        assert(keys.to_set().contains(keys[i]));
    }
    if exists|key: VoxelKey|
        sources.contains_key(key) && #[trigger] correspondence(
            g,
            cells,
            limits,
            pose,
            key,
            sources[key].point.0,
        ) == Some(c) {
        let key = choose|key: VoxelKey|
            sources.contains_key(key) && #[trigger] correspondence(
                g,
                cells,
                limits,
                pose,
                key,
                sources[key].point.0,
            ) == Some(c);
        assert(keys.to_set().contains(key));
        let i = choose|i: int| 0 <= i < keys.len() && keys[i] == key;
        assert(correspondence(g, cells, limits, pose, keys[i], sources[keys[i]].point.0) == Some(
            c,
        ));
    }
}

proof fn lemma_found(
    g: Arithmetic,
    sources: Map<VoxelKey, VoxelCell>,
    cells: Map<VoxelKey, VoxelCell>,
    limits: MatchingLimits,
    pose: Pose,
    keys: Seq<VoxelKey>,
    c: PointCorrespondence,
    k: int,
)
    requires
        0 <= k <= keys.len(),
    ensures
        ({
            let found = correspondences_upto(g, sources, cells, limits, pose, keys, k);
            &&& found.len() <= k
            &&& found.contains(c) <==> exists|i: int|
                0 <= i < k && #[trigger] correspondence(
                    g,
                    cells,
                    limits,
                    pose,
                    keys[i],
                    sources[keys[i]].point.0,
                ) == Some(c)
        }),
    decreases k,
{
    if k > 0 {
        lemma_found(g, sources, cells, limits, pose, keys, c, k - 1);
        let before = correspondences_upto(g, sources, cells, limits, pose, keys, k - 1);
        let now = correspondences_upto(g, sources, cells, limits, pose, keys, k);
        let last = correspondence(
            g,
            cells,
            limits,
            pose,
            keys[k - 1],
            sources[keys[k - 1]].point.0,
        );
        if before.contains(c) {
            let j = before.index_of(c);
            assert(now[j] == c);
        }
        if now.contains(c) {
            let j = now.index_of(c);
            if j < before.len() {
                assert(before[j] == c);
            }
        }
        if now.len() > before.len() {
            assert(now[before.len() as int] == last->0);
        }
    }
}

} // verus!
