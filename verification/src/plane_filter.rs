//! Telling the points on local planes from those off them.

use vstd::prelude::*;

use crate::filter_config::FilterConfig;
use crate::float::{Float32, F32_ONE};
use crate::layer_plane::{
    fit_plane_ransac, gathered, height, in_range, layer_plane, PlaneModel,
};
use crate::numerics::{computes, Arithmetic, Numerics, Point3};
use crate::random::{seed_from_key, seed_spec};
use crate::sorting::{positions, sort_positions, stable_order};
use crate::types::PointXYZ;
use crate::voxel::{
    lemma_next_key, occupied, voxel_key, voxel_key_spec, within, KeyMap, VoxelKey,
};

verus! {

// ---------------------------------------------------------------------------
// The grid
// ---------------------------------------------------------------------------

/// The indices in each cell, as sequences.
pub open spec fn lists(grid: Map<VoxelKey, Vec<usize>>) -> Map<VoxelKey, Seq<usize>> {
    grid.map_values(|indices: Vec<usize>| indices@)
}

/// The cells of the first `k` points: the index of each point is in the cell it falls in.
pub open spec fn grid_upto(
    g: Arithmetic,
    points: Seq<Point3>,
    voxel_size: Float32,
    k: int,
) -> Map<VoxelKey, Seq<usize>>
    decreases k,
{
    if k <= 0 {
        Map::empty()
    } else {
        let before = grid_upto(g, points, voxel_size, k - 1);
        let key = voxel_key_spec(g, points[k - 1], voxel_size);
        let index = (k - 1) as usize;
        if before.contains_key(key) {
            before.insert(key, before[key].push(index))
        } else {
            before.insert(key, seq![index])
        }
    }
}

pub open spec fn grid_of(
    g: Arithmetic,
    points: Seq<Point3>,
    voxel_size: Float32,
) -> Map<VoxelKey, Seq<usize>> {
    grid_upto(g, points, voxel_size, points.len() as int)
}

/// Whether all indices of the grid are below `len`.
pub open spec fn grid_in_range(grid: Map<VoxelKey, Seq<usize>>, len: int) -> bool {
    forall|key: VoxelKey| #[trigger] grid.contains_key(key) ==> in_range(grid[key], len)
}

/// The cells of `points`.
pub fn build_voxel_grid<N: Numerics>(n: &N, points: &[Point3], voxel_size: Float32) -> (r: KeyMap<
    Vec<usize>,
>)
    ensures
        grid_in_range(lists(r@), points.len() as int),
        forall|g: Arithmetic| #[trigger]
            computes(*n, g) ==> lists(r@) == grid_of(g, points@, voxel_size),
{
    let mut grid: KeyMap<Vec<usize>> = KeyMap::new();
    let mut k: usize = 0;
    assert(lists(grid@) =~= Map::<VoxelKey, Seq<usize>>::empty());
    while k < points.len()
        invariant
            k <= points.len(),
            grid_in_range(lists(grid@), points.len() as int),
            forall|g: Arithmetic| #[trigger]
                computes(*n, g) ==> lists(grid@) == grid_upto(g, points@, voxel_size, k as int),
        decreases points.len() - k,
    {
        let key = voxel_key(n, points[k], voxel_size);
        let ghost before = grid@;
        let mut indices: Vec<usize> = match grid.remove(key) {
            Some(indices) => indices,
            None => Vec::new(),
        };
        let ghost old_indices = indices@;
        indices.push(k);
        grid.insert(key, indices);
        proof {
            assert(lists(grid@) =~= lists(before).insert(key, old_indices.push(k)));
            assert(old_indices.len() == 0 ==> old_indices.push(k) =~= seq![k]);
            if before.contains_key(key) {
                assert(lists(before).contains_key(key));
                assert(lists(before)[key] == old_indices);
            }
            assert(in_range(old_indices.push(k), points.len() as int)) by {
                if before.contains_key(key) {
                    assert(in_range(lists(before)[key], points.len() as int));
                }
            }
            assert forall|other: VoxelKey| #[trigger]
                lists(grid@).contains_key(other) implies in_range(
                lists(grid@)[other],
                points.len() as int,
            ) by {
                if other != key {
                    assert(lists(before).contains_key(other));
                }
            }
        }
        k += 1;
    }
    grid
}

/// The indices in the first `k` of the cells `keys`, cell by cell.
pub open spec fn indices_upto(
    grid: Map<VoxelKey, Seq<usize>>,
    keys: Seq<VoxelKey>,
    k: int,
) -> Seq<usize>
    decreases k,
{
    if k <= 0 {
        Seq::empty()
    } else {
        indices_upto(grid, keys, k - 1) + grid[keys[k - 1]]
    }
}

/// The indices in the cells around `center`.
pub open spec fn neighborhood(
    grid: Map<VoxelKey, Seq<usize>>,
    center: VoxelKey,
    range: int,
) -> Seq<usize> {
    let keys = occupied(grid.dom(), center, range);
    indices_upto(grid, keys, keys.len() as int)
}

/// The indices in the cells that are at most `range` cells away from `center`.
pub fn collect_neighborhood_indices(
    grid: &KeyMap<Vec<usize>>,
    center: VoxelKey,
    range: i32,
) -> (r: Vec<usize>)
    ensures
        r@ == neighborhood(lists(grid@), center, range as int),
        forall|len: int| #[trigger] grid_in_range(lists(grid@), len) ==> in_range(r@, len),
{
    let ghost cells = lists(grid@);
    let keys = grid.occupied_cube(center, range);
    proof {
        assert(cells.dom() =~= grid@.dom());
        crate::voxel::occupied_is_the_cube(grid@.dom(), center, range as int);
    }
    let mut r: Vec<usize> = Vec::new();
    let mut k: usize = 0;
    while k < keys.len()
        invariant
            k <= keys.len(),
            cells == lists(grid@),
            keys@ == occupied(grid@.dom(), center, range as int),
            forall|key: VoxelKey| #[trigger]
                occupied(grid@.dom(), center, range as int).contains(key) ==> grid@.contains_key(
                    key,
                ),
            r@ == indices_upto(cells, keys@, k as int),
            forall|len: int| #[trigger] grid_in_range(cells, len) ==> in_range(r@, len),
        decreases keys.len() - k,
    {
        let key = keys[k];
        assert(keys@.contains(key));
        let ghost before = r@;
        if let Some(indices) = grid.get(key) {
            let mut i: usize = 0;
            while i < indices.len()
                invariant
                    i <= indices.len(),
                    r@ == before + indices@.take(i as int),
                decreases indices.len() - i,
            {
                r.push(indices[i]);
                i += 1;
                assert(r@ =~= before + indices@.take(i as int));
            }
            assert(r@ =~= before + indices@);
            assert(cells[key] == indices@);
        }
        proof {
            assert forall|len: int| #[trigger] grid_in_range(cells, len) implies in_range(
                r@,
                len,
            ) by {
                assert(cells.contains_key(key));
                assert forall|i: int| 0 <= i < r.len() implies #[trigger] r[i] < len by {
                    if i < before.len() {
                        assert(r[i] == before[i]);
                    } else {
                        assert(r[i] == cells[key][i - before.len()]);
                    }
                }
            }
        }
        k += 1;
    }
    r
}

// ---------------------------------------------------------------------------
// Planes of the cells
// ---------------------------------------------------------------------------

/// What is known of the points around a cell: how many there are, and their plane.
#[derive(Clone, Copy, Debug, PartialEq, Eq, Structural)]
pub struct PlaneCell {
    pub neighborhood_point_count: usize,
    pub primary_plane: Option<PlaneModel>,
}

/// The plane of the points around the cell `key`.
pub open spec fn plane_cell(
    g: Arithmetic,
    points: Seq<Point3>,
    grid: Map<VoxelKey, Seq<usize>>,
    config: FilterConfig,
    key: VoxelKey,
) -> PlaneCell {
    let around = neighborhood(grid, key, config.neighbor_range as int);
    PlaneCell {
        neighborhood_point_count: around.len() as usize,
        primary_plane: if around.len() >= config.min_neighbor_points {
            layer_plane(g, gathered(points, around), config, seed_spec(key, 0))
        } else {
            None
        },
    }
}

/// The planes of all cells.
pub open spec fn plane_cells(
    g: Arithmetic,
    points: Seq<Point3>,
    grid: Map<VoxelKey, Seq<usize>>,
    config: FilterConfig,
) -> Map<VoxelKey, PlaneCell> {
    Map::new(
        |key: VoxelKey| grid.contains_key(key),
        |key: VoxelKey| plane_cell(g, points, grid, config, key),
    )
}

fn plane_of_cell<N: Numerics>(
    n: &N,
    points: &[Point3],
    grid: &KeyMap<Vec<usize>>,
    config: &FilterConfig,
    key: VoxelKey,
) -> (r: PlaneCell)
    requires
        grid_in_range(lists(grid@), points.len() as int),
    ensures
        forall|g: Arithmetic| #[trigger]
            computes(*n, g) ==> r == plane_cell(g, points@, lists(grid@), *config, key),
{
    let around = collect_neighborhood_indices(grid, key, config.neighbor_range);
    let primary_plane = if around.len() >= config.min_neighbor_points {
        fit_plane_ransac(n, points, around.as_slice(), config, seed_from_key(key, 0))
    } else {
        None
    };
    PlaneCell { neighborhood_point_count: around.len(), primary_plane }
}

/// Whether a cell with the plane `reference` may use the plane `candidate`: it is not
/// parallel, or it is close.
pub open spec fn compatible(
    g: Arithmetic,
    reference: PlaneModel,
    candidate: PlaneModel,
    config: FilterConfig,
) -> bool {
    let least = (g.cosine)((g.to_radians)(config.parallel_normal_angle_deg));
    let cosine = (g.dot)(reference.normal, candidate.normal).abs_spec().clamp_spec(
        Float32::zero_spec(),
        Float32 { bits: F32_ONE },
    );
    cosine.lt_spec(least) || height(
        g,
        reference.normal,
        reference.center,
        candidate.center,
    ).abs_spec().le_spec(config.parallel_plane_tolerance)
}

pub fn planes_are_compatible<N: Numerics>(
    n: &N,
    reference: &PlaneModel,
    candidate: &PlaneModel,
    config: &FilterConfig,
) -> (r: bool)
    ensures
        forall|g: Arithmetic| #[trigger]
            computes(*n, g) ==> r == compatible(g, *reference, *candidate, *config),
{
    let least = n.cosine(n.to_radians(config.parallel_normal_angle_deg));
    let cosine = n.dot(reference.normal, candidate.normal).abs().clamp(
        Float32::zero(),
        Float32 { bits: F32_ONE },
    );
    if cosine.lt(least) {
        return true;
    }
    let separation = n.dot(
        reference.normal,
        n.vector_difference(candidate.center, reference.center),
    ).abs();
    separation.le(config.parallel_plane_tolerance)
}

/// The planes of the first `k` of the cells `keys` that a cell with the plane `reference`
/// may use.
pub open spec fn candidates_upto(
    g: Arithmetic,
    planes: Map<VoxelKey, PlaneCell>,
    keys: Seq<VoxelKey>,
    reference: Option<PlaneModel>,
    config: FilterConfig,
    k: int,
) -> Seq<PlaneModel>
    decreases k,
{
    if k <= 0 {
        Seq::empty()
    } else {
        let before = candidates_upto(g, planes, keys, reference, config, k - 1);
        match planes[keys[k - 1]].primary_plane {
            None => before,
            Some(plane) => match reference {
                Some(own) if !compatible(g, own, plane, config) => before,
                _ => before.push(plane),
            },
        }
    }
}

/// The plane of the cell `key`.
pub open spec fn own_plane(planes: Map<VoxelKey, PlaneCell>, key: VoxelKey) -> Option<PlaneModel> {
    if planes.contains_key(key) {
        planes[key].primary_plane
    } else {
        None
    }
}

/// The planes that the cell `key` may use: those of the cells around it.
pub open spec fn candidate_planes(
    g: Arithmetic,
    planes: Map<VoxelKey, PlaneCell>,
    config: FilterConfig,
    key: VoxelKey,
) -> Seq<PlaneModel> {
    let keys = occupied(planes.dom(), key, config.plane_vote_range as int);
    candidates_upto(g, planes, keys, own_plane(planes, key), config, keys.len() as int)
}

proof fn lemma_candidates_compatible(
    g: Arithmetic,
    planes: Map<VoxelKey, PlaneCell>,
    keys: Seq<VoxelKey>,
    own: PlaneModel,
    config: FilterConfig,
    k: int,
)
    ensures
        forall|i: int|
            0 <= i < candidates_upto(g, planes, keys, Some(own), config, k).len() ==> compatible(
                g,
                own,
                #[trigger] candidates_upto(g, planes, keys, Some(own), config, k)[i],
                config,
            ),
    decreases k,
{
    if k > 0 {
        lemma_candidates_compatible(g, planes, keys, own, config, k - 1);
        let before = candidates_upto(g, planes, keys, Some(own), config, k - 1);
        let now = candidates_upto(g, planes, keys, Some(own), config, k);
        assert forall|i: int| 0 <= i < now.len() implies compatible(
            g,
            own,
            #[trigger] now[i],
            config,
        ) by {
            if i < before.len() {
                assert(now[i] == before[i]);
            }
        }
    }
}

/// A cell with a plane of its own uses no plane that is parallel to it and further away
/// than the tolerance.
pub proof fn lent_planes_are_compatible(
    g: Arithmetic,
    planes: Map<VoxelKey, PlaneCell>,
    config: FilterConfig,
    key: VoxelKey,
    i: int,
)
    requires
        own_plane(planes, key) is Some,
        0 <= i < candidate_planes(g, planes, config, key).len(),
    ensures
        compatible(
            g,
            own_plane(planes, key)->0,
            candidate_planes(g, planes, config, key)[i],
            config,
        ),
{
    let keys = occupied(planes.dom(), key, config.plane_vote_range as int);
    lemma_candidates_compatible(
        g,
        planes,
        keys,
        own_plane(planes, key)->0,
        config,
        keys.len() as int,
    );
}

fn candidates<N: Numerics>(
    n: &N,
    plane_grid: &KeyMap<PlaneCell>,
    config: &FilterConfig,
    key: VoxelKey,
) -> (r: Vec<PlaneModel>)
    ensures
        forall|g: Arithmetic| #[trigger]
            computes(*n, g) ==> r@ == candidate_planes(g, plane_grid@, *config, key),
{
    let reference: Option<PlaneModel> = match plane_grid.get(key) {
        Some(cell) => cell.primary_plane,
        None => None,
    };
    let keys = plane_grid.occupied_cube(key, config.plane_vote_range);
    proof {
        crate::voxel::occupied_is_the_cube(
            plane_grid@.dom(),
            key,
            config.plane_vote_range as int,
        );
    }
    let mut r: Vec<PlaneModel> = Vec::new();
    let mut k: usize = 0;
    while k < keys.len()
        invariant
            k <= keys.len(),
            reference == own_plane(plane_grid@, key),
            keys@ == occupied(plane_grid@.dom(), key, config.plane_vote_range as int),
            forall|other: VoxelKey| #[trigger]
                occupied(
                    plane_grid@.dom(),
                    key,
                    config.plane_vote_range as int,
                ).contains(other) ==> plane_grid@.contains_key(other),
            forall|g: Arithmetic| #[trigger]
                computes(*n, g) ==> r@ == candidates_upto(
                    g,
                    plane_grid@,
                    keys@,
                    reference,
                    *config,
                    k as int,
                ),
        decreases keys.len() - k,
    {
        let other = keys[k];
        assert(keys@.contains(other));
        if let Some(cell) = plane_grid.get(other) {
            if let Some(plane) = cell.primary_plane {
                let usable: bool = match reference {
                    Some(own) => planes_are_compatible(n, &own, &plane, config),
                    None => true,
                };
                if usable {
                    r.push(plane);
                }
            }
        }
        k += 1;
    }
    r
}

// ---------------------------------------------------------------------------
// Decisions
// ---------------------------------------------------------------------------

/// What becomes of a point.
#[derive(Clone, Copy, Debug, PartialEq, Eq, Structural)]
pub enum PointDecision {
    /// It is on a local plane.
    KeepPlaneInlier,
    /// There are too few points around it to tell.
    KeepSparse,
    /// There is no plane around it.
    KeepNonPlanar,
    /// It is near a plane, and its cell has no point on one.
    KeepFallback,
    /// It is off the planes around it.
    RemovePlaneOutlier,
    /// There is no plane around it, and such points are not wanted.
    RemoveNonPlanar,
}

impl PointDecision {
    pub open spec fn keep_spec(self) -> bool {
        !(self is RemovePlaneOutlier) && !(self is RemoveNonPlanar)
    }

    #[verifier::when_used_as_spec(keep_spec)]
    pub fn keep(self) -> (r: bool)
        ensures
            r == self.keep_spec(),
    {
        match self {
            PointDecision::RemovePlaneOutlier | PointDecision::RemoveNonPlanar => false,
            _ => true,
        }
    }
}

/// The decisions on the points of a cell.
#[derive(Debug)]
pub struct CellResult {
    pub decisions: Vec<(usize, PointDecision)>,
    pub extracted_plane_count: usize,
}

/// The least distance of `p` from the first `k` planes.
pub open spec fn least_distance_upto(
    g: Arithmetic,
    planes: Seq<PlaneModel>,
    p: Point3,
    k: int,
) -> Float32
    decreases k,
{
    if k <= 0 {
        Float32::infinity_spec()
    } else {
        least_distance_upto(g, planes, p, k - 1).min_spec(planes[k - 1].distance_spec(g, p))
    }
}

pub open spec fn least_distance(g: Arithmetic, planes: Seq<PlaneModel>, p: Point3) -> Float32 {
    least_distance_upto(g, planes, p, planes.len() as int)
}

fn distance_to_nearest<N: Numerics>(n: &N, planes: &[PlaneModel], p: Point3) -> (r: Float32)
    ensures
        forall|g: Arithmetic| #[trigger] computes(*n, g) ==> r == least_distance(g, planes@, p),
{
    let mut least = Float32::infinity();
    let mut k: usize = 0;
    while k < planes.len()
        invariant
            k <= planes.len(),
            forall|g: Arithmetic| #[trigger]
                computes(*n, g) ==> least == least_distance_upto(g, planes@, p, k as int),
        decreases planes.len() - k,
    {
        least = least.min(planes[k].distance(n, p));
        k += 1;
    }
    least
}

/// The least distance of each point from the planes.
pub open spec fn distances(
    g: Arithmetic,
    points: Seq<Point3>,
    indices: Seq<usize>,
    planes: Seq<PlaneModel>,
) -> Seq<Float32> {
    indices.map_values(|i: usize| least_distance(g, planes, points[i as int]))
}

fn distances_of<N: Numerics>(
    n: &N,
    points: &[Point3],
    indices: &Vec<usize>,
    planes: &[PlaneModel],
) -> (r: Vec<Float32>)
    requires
        in_range(indices@, points.len() as int),
    ensures
        r.len() == indices.len(),
        forall|g: Arithmetic| #[trigger]
            computes(*n, g) ==> r@ == distances(g, points@, indices@, planes@),
{
    let mut r: Vec<Float32> = Vec::new();
    let mut k: usize = 0;
    while k < indices.len()
        invariant
            k <= indices.len(),
            r.len() == k,
            in_range(indices@, points.len() as int),
            forall|g: Arithmetic| #[trigger]
                computes(*n, g) ==> r@ == distances(g, points@, indices@, planes@).take(k as int),
        decreases indices.len() - k,
    {
        let distance = distance_to_nearest(n, planes, points[indices[k]]);
        let ghost before = r@;
        r.push(distance);
        proof {
            assert forall|g: Arithmetic| #[trigger] computes(*n, g) implies r@ == distances(
                g,
                points@,
                indices@,
                planes@,
            ).take(k + 1) by {
                assert(r@ =~= distances(g, points@, indices@, planes@).take(k + 1));
            }
        }
        k += 1;
    }
    proof {
        assert forall|g: Arithmetic| #[trigger] computes(*n, g) implies r@ == distances(
            g,
            points@,
            indices@,
            planes@,
        ) by {
            assert(distances(g, points@, indices@, planes@).take(k as int) =~= distances(
                g,
                points@,
                indices@,
                planes@,
            ));
        }
    }
    r
}

/// The first decision on each point: it stays if it is on a plane.
pub open spec fn strict_decisions(
    indices: Seq<usize>,
    distances: Seq<Float32>,
    config: FilterConfig,
) -> Seq<(usize, PointDecision)> {
    Seq::new(
        indices.len(),
        |i: int|
            (
                indices[i],
                if distances[i].le_spec(config.keep_distance_threshold) {
                    PointDecision::KeepPlaneInlier
                } else {
                    PointDecision::RemovePlaneOutlier
                },
            ),
    )
}

/// How many of the first `k` distances are those of points on a plane.
pub open spec fn strict_upto(distances: Seq<Float32>, config: FilterConfig, k: int) -> int
    decreases k,
{
    if k <= 0 {
        0
    } else {
        strict_upto(distances, config, k - 1) + if distances[k - 1].le_spec(
            config.keep_distance_threshold,
        ) {
            1int
        } else {
            0int
        }
    }
}

/// The positions, among the first `k`, of points that are off the planes but near one.
pub open spec fn nearby_upto(distances: Seq<Float32>, config: FilterConfig, k: int) -> Seq<int>
    decreases k,
{
    if k <= 0 {
        Seq::empty()
    } else {
        let before = nearby_upto(distances, config, k - 1);
        let d = distances[k - 1];
        if !d.le_spec(config.keep_distance_threshold) && d.le_spec(config.fallback_keep_distance) {
            before.push(k - 1)
        } else {
            before
        }
    }
}

/// The ranks of the distances at `places`.
pub open spec fn ranks_at(distances: Seq<Float32>, places: Seq<int>) -> Seq<i64> {
    places.map_values(|i: int| distances[i].rank_spec() as i64)
}

/// `decisions`, with the points at the first `m` of the places `nearby`, in `order`, kept.
pub open spec fn rescued_upto(
    decisions: Seq<(usize, PointDecision)>,
    nearby: Seq<int>,
    order: Seq<int>,
    m: int,
) -> Seq<(usize, PointDecision)>
    decreases m,
{
    if m <= 0 {
        decisions
    } else {
        let before = rescued_upto(decisions, nearby, order, m - 1);
        let at = nearby[order[m - 1]];
        before.update(at, (before[at].0, PointDecision::KeepFallback))
    }
}

/// How many points are kept for want of others: none where a point is on a plane.
pub open spec fn rescue_count(distances: Seq<Float32>, config: FilterConfig) -> int {
    let len = distances.len() as int;
    let wanted = config.min_output_points_per_voxel as int;
    let near = nearby_upto(distances, config, len).len() as int;
    if strict_upto(distances, config, len) > 0 {
        0
    } else if wanted < near {
        wanted
    } else {
        near
    }
}

/// The decisions on points at these distances: those on a plane stay, and where there is
/// none, the nearest others that are near enough, as many as are wanted.
pub open spec fn decided(
    indices: Seq<usize>,
    distances: Seq<Float32>,
    config: FilterConfig,
) -> Seq<(usize, PointDecision)> {
    let nearby = nearby_upto(distances, config, distances.len() as int);
    rescued_upto(
        strict_decisions(indices, distances, config),
        nearby,
        stable_order(ranks_at(distances, nearby)),
        rescue_count(distances, config),
    )
}

/// The decision on every point of a cell without a plane to use.
pub open spec fn planeless_decision(neighbors: int, config: FilterConfig) -> PointDecision {
    if neighbors < config.min_neighbor_points {
        PointDecision::KeepSparse
    } else if config.keep_nonplanar_regions {
        PointDecision::KeepNonPlanar
    } else {
        PointDecision::RemoveNonPlanar
    }
}

/// The decisions on the points of the cell `key`.
pub open spec fn cell_decisions(
    g: Arithmetic,
    key: VoxelKey,
    points: Seq<Point3>,
    grid: Map<VoxelKey, Seq<usize>>,
    planes: Map<VoxelKey, PlaneCell>,
    config: FilterConfig,
) -> Seq<(usize, PointDecision)> {
    let usable = candidate_planes(g, planes, config, key);
    if !grid.contains_key(key) {
        Seq::empty()
    } else if usable.len() == 0 {
        let neighbors = if planes.contains_key(key) {
            planes[key].neighborhood_point_count as int
        } else {
            0
        };
        grid[key].map_values(|i: usize| (i, planeless_decision(neighbors, config)))
    } else {
        decided(grid[key], distances(g, points, grid[key], usable), config)
    }
}

proof fn lemma_nearby(distances: Seq<Float32>, config: FilterConfig, k: int)
    requires
        0 <= k <= distances.len(),
    ensures
        nearby_upto(distances, config, k).len() <= k,
        forall|i: int|
            0 <= i < nearby_upto(distances, config, k).len() ==> 0 <= #[trigger] nearby_upto(
                distances,
                config,
                k,
            )[i] < k,
        forall|i: int|
            0 <= i < nearby_upto(distances, config, k).len() ==> !distances[
                #[trigger] nearby_upto(distances, config, k)[i]
            ].le_spec(config.keep_distance_threshold),
        forall|i: int|
            0 <= i < nearby_upto(distances, config, k).len() ==> distances[
                #[trigger] nearby_upto(distances, config, k)[i]
            ].le_spec(config.fallback_keep_distance),
        nearby_upto(distances, config, k).no_duplicates(),
        0 <= strict_upto(distances, config, k) <= k,
    decreases k,
{
    if k > 0 {
        lemma_nearby(distances, config, k - 1);
    }
}

/// The decisions on the points of a cell whose least distances from the planes are
/// `distances`.
pub fn decide(indices: &Vec<usize>, distances: &Vec<Float32>, config: &FilterConfig) -> (r: Vec<
    (usize, PointDecision),
>)
    requires
        indices.len() == distances.len(),
    ensures
        r@ == decided(indices@, distances@, *config),
        r.len() == indices.len(),
{
    let mut r: Vec<(usize, PointDecision)> = Vec::new();
    let mut nearby: Vec<usize> = Vec::new();
    let mut ranks: Vec<i64> = Vec::new();
    let mut strict: usize = 0;
    let ghost first = strict_decisions(indices@, distances@, *config);
    let mut k: usize = 0;
    while k < indices.len()
        invariant
            k <= indices.len(),
            indices.len() == distances.len(),
            first == strict_decisions(indices@, distances@, *config),
            r@ == first.take(k as int),
            strict <= k,
            strict == strict_upto(distances@, *config, k as int),
            positions(nearby@) == nearby_upto(distances@, *config, k as int),
            ranks@ == ranks_at(distances@, nearby_upto(distances@, *config, k as int)),
        decreases indices.len() - k,
    {
        let d = distances[k];
        if d.le(config.keep_distance_threshold) {
            strict += 1;
            r.push((indices[k], PointDecision::KeepPlaneInlier));
        } else {
            r.push((indices[k], PointDecision::RemovePlaneOutlier));
            if d.le(config.fallback_keep_distance) {
                let ghost places = nearby_upto(distances@, *config, k as int);
                let ghost before = nearby@;
                nearby.push(k);
                ranks.push(d.rank());
                proof {
                    assert(positions(nearby@) =~= positions(before).push(k as int));
                    assert(ranks@ =~= ranks_at(distances@, places.push(k as int)));
                }
            }
        }
        k += 1;
        assert(r@ =~= first.take(k as int));
    }
    assert(r@ =~= first);
    if strict == 0 {
        let order = sort_positions(ranks.as_slice());
        let wanted: usize = config.min_output_points_per_voxel;
        let rescued: usize = if wanted < nearby.len() { wanted } else { nearby.len() };
        let ghost places = nearby_upto(distances@, *config, distances.len() as int);
        proof {
            lemma_nearby(distances@, *config, distances.len() as int);
        }
        let mut m: usize = 0;
        while m < rescued
            invariant
                m <= rescued <= nearby.len(),
                nearby.len() == order.len(),
                r.len() == first.len(),
                positions(nearby@) == places,
                positions(order@) == stable_order(ranks_at(distances@, places)),
                forall|i: int| 0 <= i < order.len() ==> #[trigger] order[i] < nearby.len(),
                forall|i: int| 0 <= i < places.len() ==> 0 <= #[trigger] places[i] < first.len(),
                r@ == rescued_upto(
                    first,
                    places,
                    stable_order(ranks_at(distances@, places)),
                    m as int,
                ),
            decreases rescued - m,
        {
            let place: usize = order[m];
            let at: usize = nearby[place];
            proof {
                assert(positions(order@)[m as int] == place as int);
                assert(places[place as int] == at as int);
            }
            let index: usize = r[at].0;
            r.set(at, (index, PointDecision::KeepFallback));
            m += 1;
        }
    }
    r
}

/// The decisions on the points of the cell `key`, by the planes of the cells around it.
pub fn classify_voxel_two_pass<N: Numerics>(
    n: &N,
    key: VoxelKey,
    points: &[Point3],
    grid: &KeyMap<Vec<usize>>,
    plane_grid: &KeyMap<PlaneCell>,
    config: &FilterConfig,
) -> (r: CellResult)
    requires
        grid_in_range(lists(grid@), points.len() as int),
    ensures
        r.extracted_plane_count == 0,
        forall|g: Arithmetic| #[trigger]
            computes(*n, g) ==> r.decisions@ == cell_decisions(
                g,
                key,
                points@,
                lists(grid@),
                plane_grid@,
                *config,
            ),
        decides_the_cell(r.decisions@, lists(grid@), key),
{
    let indices: &Vec<usize> = match grid.get(key) {
        Some(indices) => indices,
        None => {
            return CellResult { decisions: Vec::new(), extracted_plane_count: 0 };
        },
    };
    assert(lists(grid@).contains_key(key) && lists(grid@)[key] == indices@);
    let usable = candidates(n, plane_grid, config, key);
    if usable.len() == 0 {
        let neighbors: usize = match plane_grid.get(key) {
            Some(cell) => cell.neighborhood_point_count,
            None => 0,
        };
        let decision = if neighbors < config.min_neighbor_points {
            PointDecision::KeepSparse
        } else if config.keep_nonplanar_regions {
            PointDecision::KeepNonPlanar
        } else {
            PointDecision::RemoveNonPlanar
        };
        let mut decisions: Vec<(usize, PointDecision)> = Vec::new();
        let mut k: usize = 0;
        while k < indices.len()
            invariant
                k <= indices.len(),
                decisions.len() == k,
                forall|i: int| 0 <= i < k ==> #[trigger] decisions[i] == (indices[i], decision),
            decreases indices.len() - k,
        {
            decisions.push((indices[k], decision));
            k += 1;
        }
        proof {
            assert(decisions@ =~= indices@.map_values(
                |i: usize| (i, planeless_decision(neighbors as int, *config)),
            ));
        }
        return CellResult { decisions, extracted_plane_count: 0 };
    }
    let away = distances_of(n, points, indices, usable.as_slice());
    let decisions = decide(indices, &away, config);
    proof {
        lemma_decided(indices@, away@, *config);
    }
    CellResult { decisions, extracted_plane_count: 0 }
}

/// Whether `decisions` has one decision for each point of the cell `key`, in the cell's
/// order.
pub open spec fn decides_the_cell(
    decisions: Seq<(usize, PointDecision)>,
    grid: Map<VoxelKey, Seq<usize>>,
    key: VoxelKey,
) -> bool {
    let indices = if grid.contains_key(key) { grid[key] } else { Seq::empty() };
    &&& decisions.len() == indices.len()
    &&& forall|i: int| 0 <= i < decisions.len() ==> (#[trigger] decisions[i]).0 == indices[i]
}

proof fn lemma_rescued(
    decisions: Seq<(usize, PointDecision)>,
    nearby: Seq<int>,
    order: Seq<int>,
    m: int,
)
    requires
        0 <= m <= order.len(),
        forall|i: int| 0 <= i < order.len() ==> 0 <= #[trigger] order[i] < nearby.len(),
        forall|i: int| 0 <= i < nearby.len() ==> 0 <= #[trigger] nearby[i] < decisions.len(),
    ensures
        rescued_upto(decisions, nearby, order, m).len() == decisions.len(),
        forall|i: int|
            0 <= i < decisions.len() ==> (#[trigger] rescued_upto(decisions, nearby, order, m)[i]).0
                == decisions[i].0,
        forall|i: int|
            0 <= i < decisions.len() ==> (#[trigger] rescued_upto(decisions, nearby, order, m)[i]).1
                == if exists|j: int| 0 <= j < m && nearby[#[trigger] order[j]] == i {
                PointDecision::KeepFallback
            } else {
                decisions[i].1
            },
    decreases m,
{
    if m > 0 {
        lemma_rescued(decisions, nearby, order, m - 1);
        let before = rescued_upto(decisions, nearby, order, m - 1);
        let now = rescued_upto(decisions, nearby, order, m);
        let at = nearby[order[m - 1]];
        assert forall|i: int| 0 <= i < decisions.len() implies (#[trigger] now[i]).1 == if exists|
            j: int,
        |
            0 <= j < m && nearby[#[trigger] order[j]] == i {
            PointDecision::KeepFallback
        } else {
            decisions[i].1
        } by {
            if i == at {
                assert(nearby[order[m - 1]] == i);
            } else {
                assert(now[i] == before[i]);
                if exists|j: int| 0 <= j < m && nearby[#[trigger] order[j]] == i {
                    let j = choose|j: int| 0 <= j < m && nearby[#[trigger] order[j]] == i;
                    assert(j < m - 1);
                }
            }
        }
    }
}

proof fn lemma_decided(indices: Seq<usize>, distances: Seq<Float32>, config: FilterConfig)
    requires
        indices.len() == distances.len(),
    ensures
        decided(indices, distances, config).len() == indices.len(),
        forall|i: int|
            0 <= i < indices.len() ==> (#[trigger] decided(indices, distances, config)[i]).0
                == indices[i],
        forall|i: int|
            0 <= i < indices.len() ==> {
                ||| (#[trigger] decided(indices, distances, config)[i]).1 == strict_decisions(
                    indices,
                    distances,
                    config,
                )[i].1
                ||| decided(indices, distances, config)[i].1 is KeepFallback && nearby_upto(
                    distances,
                    config,
                    distances.len() as int,
                ).contains(i)
            },
{
    let len = distances.len() as int;
    let nearby = nearby_upto(distances, config, len);
    lemma_nearby(distances, config, len);
    crate::sorting::stable_order_is_sorted(ranks_at(distances, nearby));
    let order = stable_order(ranks_at(distances, nearby));
    lemma_rescued(
        strict_decisions(indices, distances, config),
        nearby,
        order,
        rescue_count(distances, config),
    );
}

/// A point stays as one on a plane exactly if it is on one, and a point that is not near
/// any plane goes.
pub proof fn points_on_a_plane_stay(
    indices: Seq<usize>,
    distances: Seq<Float32>,
    config: FilterConfig,
    i: int,
)
    requires
        indices.len() == distances.len(),
        0 <= i < indices.len(),
    ensures
        decided(indices, distances, config)[i].1 is KeepPlaneInlier <==> distances[i].le_spec(
            config.keep_distance_threshold,
        ),
        decided(indices, distances, config)[i].1.keep_spec() ==> distances[i].le_spec(
            config.keep_distance_threshold,
        ) || distances[i].le_spec(config.fallback_keep_distance),
{
    lemma_decided(indices, distances, config);
    lemma_nearby(distances, config, distances.len() as int);
}

/// The points that are kept for want of others are the nearest: none that goes although it
/// is near a plane is nearer than one of them.
pub proof fn rescued_points_are_the_nearest(
    indices: Seq<usize>,
    distances: Seq<Float32>,
    config: FilterConfig,
    kept: int,
    gone: int,
)
    requires
        indices.len() == distances.len(),
        0 <= kept < indices.len(),
        0 <= gone < indices.len(),
        decided(indices, distances, config)[kept].1 is KeepFallback,
        !decided(indices, distances, config)[gone].1.keep_spec(),
        distances[gone].le_spec(config.fallback_keep_distance),
    ensures
        distances[kept].le_spec(distances[gone]),
{
    let len = distances.len() as int;
    let strict = strict_decisions(indices, distances, config);
    let nearby = nearby_upto(distances, config, len);
    let ranks = ranks_at(distances, nearby);
    let order = stable_order(ranks);
    let m = rescue_count(distances, config);
    lemma_nearby(distances, config, len);
    crate::sorting::stable_order_is_sorted(ranks);
    lemma_rescued(strict, nearby, order, m);
    assert(rescued_upto(strict, nearby, order, m)[kept].1 is KeepFallback);
    let a = choose|j: int| 0 <= j < m && nearby[#[trigger] order[j]] == kept;
    lemma_nearby_members(distances, config, gone, len);
    let place = nearby.index_of(gone);
    lemma_order_has_all(order, place);
    let b = order.index_of(place);
    if b < m {
        assert(nearby[order[b]] == gone);
        assert(rescued_upto(strict, nearby, order, m)[gone].1 is KeepFallback);
    }
    assert(crate::sorting::precedes(ranks, order[a], order[b]));
    assert(ranks[order[a]] == distances[kept].rank_spec() as i64);
    assert(ranks[order[b]] == distances[gone].rank_spec() as i64);
}

proof fn lemma_nearby_members(distances: Seq<Float32>, config: FilterConfig, i: int, k: int)
    requires
        0 <= i < k <= distances.len(),
        !distances[i].le_spec(config.keep_distance_threshold),
        distances[i].le_spec(config.fallback_keep_distance),
    ensures
        nearby_upto(distances, config, k).contains(i),
    decreases k,
{
    let now = nearby_upto(distances, config, k);
    let before = nearby_upto(distances, config, k - 1);
    if i == k - 1 {
        assert(now[before.len() as int] == i);
    } else {
        lemma_nearby_members(distances, config, i, k - 1);
        let j = before.index_of(i);
        assert(now[j] == i);
    }
}

/// A list of as many different positions as there are has each of them.
proof fn lemma_order_has_all(order: Seq<int>, place: int)
    requires
        order.no_duplicates(),
        forall|i: int| 0 <= i < order.len() ==> 0 <= #[trigger] order[i] < order.len(),
        0 <= place < order.len(),
    ensures
        order.contains(place),
{
    let all = vstd::set_lib::set_int_range(0, order.len() as int);
    vstd::set_lib::lemma_int_range(0, order.len() as int);
    order.unique_seq_to_set();
    assert(order.to_set().subset_of(all)) by {
        assert forall|x: int| order.to_set().contains(x) implies all.contains(x) by {
            let j = choose|j: int| 0 <= j < order.len() && order[j] == x;
            assert(0 <= order[j] < order.len());
        }
    }
    vstd::set_lib::lemma_subset_equality(order.to_set(), all);
    assert(all.contains(place));
}

/// How many of the first `k` decisions keep their points.
pub open spec fn kept_upto(decisions: Seq<(usize, PointDecision)>, k: int) -> int
    decreases k,
{
    if k <= 0 {
        0
    } else {
        kept_upto(decisions, k - 1) + if decisions[k - 1].1.keep_spec() {
            1int
        } else {
            0int
        }
    }
}

proof fn lemma_kept_update(
    decisions: Seq<(usize, PointDecision)>,
    at: int,
    decision: (usize, PointDecision),
    k: int,
)
    requires
        0 <= at < decisions.len(),
        0 <= k <= decisions.len(),
        !decisions[at].1.keep_spec(),
        decision.1.keep_spec(),
    ensures
        kept_upto(decisions.update(at, decision), k) == kept_upto(decisions, k) + if at < k {
            1int
        } else {
            0int
        },
    decreases k,
{
    if k > 0 {
        lemma_kept_update(decisions, at, decision, k - 1);
    }
}

proof fn lemma_kept_strict(
    indices: Seq<usize>,
    distances: Seq<Float32>,
    config: FilterConfig,
    k: int,
)
    requires
        indices.len() == distances.len(),
        0 <= k <= indices.len(),
    ensures
        kept_upto(strict_decisions(indices, distances, config), k) == strict_upto(
            distances,
            config,
            k,
        ),
    decreases k,
{
    if k > 0 {
        lemma_kept_strict(indices, distances, config, k - 1);
    }
}

proof fn lemma_kept_rescued(
    indices: Seq<usize>,
    distances: Seq<Float32>,
    config: FilterConfig,
    m: int,
)
    requires
        indices.len() == distances.len(),
        0 <= m <= nearby_upto(distances, config, distances.len() as int).len(),
    ensures
        ({
            let nearby = nearby_upto(distances, config, distances.len() as int);
            let order = stable_order(ranks_at(distances, nearby));
            let strict = strict_decisions(indices, distances, config);
            kept_upto(rescued_upto(strict, nearby, order, m), indices.len() as int) == strict_upto(
                distances,
                config,
                indices.len() as int,
            ) + m
        }),
    decreases m,
{
    let len = indices.len() as int;
    let nearby = nearby_upto(distances, config, len);
    let order = stable_order(ranks_at(distances, nearby));
    let strict = strict_decisions(indices, distances, config);
    if m <= 0 {
        lemma_kept_strict(indices, distances, config, len);
    } else {
        lemma_kept_rescued(indices, distances, config, m - 1);
        lemma_nearby(distances, config, len);
        crate::sorting::stable_order_is_sorted(ranks_at(distances, nearby));
        lemma_rescued(strict, nearby, order, m - 1);
        let before = rescued_upto(strict, nearby, order, m - 1);
        let at = nearby[order[m - 1]];
        assert(!(exists|j: int| 0 <= j < m - 1 && nearby[#[trigger] order[j]] == at)) by {
            if exists|j: int| 0 <= j < m - 1 && nearby[#[trigger] order[j]] == at {
                let j = choose|j: int| 0 <= j < m - 1 && nearby[#[trigger] order[j]] == at;
                assert(order[j] != order[m - 1]);
                assert(nearby[order[j]] != nearby[order[m - 1]]);
            }
        }
        assert(before[at].1 == strict[at].1);
        assert(!distances[nearby[order[m - 1]]].le_spec(config.keep_distance_threshold));
        lemma_kept_update(before, at, (before[at].0, PointDecision::KeepFallback), len);
    }
}

/// A cell with points on planes keeps these and no others. One without keeps
/// `min_output_points_per_voxel` of the points within the fallback distance of a plane, or
/// all of them where they are fewer.
pub proof fn cells_keep_enough(indices: Seq<usize>, distances: Seq<Float32>, config: FilterConfig)
    requires
        indices.len() == distances.len(),
    ensures
        ({
            let len = indices.len() as int;
            let strict = strict_upto(distances, config, len);
            let near = nearby_upto(distances, config, len).len();
            let wanted = config.min_output_points_per_voxel as int;
            kept_upto(decided(indices, distances, config), len) == if strict > 0 {
                strict
            } else if near >= wanted {
                wanted
            } else {
                near as int
            }
        }),
{
    lemma_nearby(distances, config, distances.len() as int);
    lemma_kept_rescued(indices, distances, config, rescue_count(distances, config));
}

proof fn lemma_strict_found(distances: Seq<Float32>, config: FilterConfig, i: int, k: int)
    requires
        0 <= i < k <= distances.len(),
        distances[i].le_spec(config.keep_distance_threshold),
    ensures
        strict_upto(distances, config, k) > 0,
    decreases k,
{
    lemma_nearby(distances, config, k - 1);
    if i < k - 1 {
        lemma_strict_found(distances, config, i, k - 1);
    }
}

/// No point is kept for want of others in a cell that has a point on a plane.
pub proof fn rescue_is_for_cells_without_points_on_planes(
    indices: Seq<usize>,
    distances: Seq<Float32>,
    config: FilterConfig,
    on: int,
    i: int,
)
    requires
        indices.len() == distances.len(),
        0 <= on < indices.len(),
        0 <= i < indices.len(),
        distances[on].le_spec(config.keep_distance_threshold),
    ensures
        decided(indices, distances, config)[i].1 == if distances[i].le_spec(
            config.keep_distance_threshold,
        ) {
            PointDecision::KeepPlaneInlier
        } else {
            PointDecision::RemovePlaneOutlier
        },
{
    lemma_strict_found(distances, config, on, distances.len() as int);
}

// ---------------------------------------------------------------------------
// All cells
// ---------------------------------------------------------------------------

/// The decisions on the points of the first `k` of the cells `order`, cell by cell.
pub open spec fn all_decisions_upto(
    g: Arithmetic,
    points: Seq<Point3>,
    grid: Map<VoxelKey, Seq<usize>>,
    config: FilterConfig,
    order: Seq<VoxelKey>,
    k: int,
) -> Seq<(usize, PointDecision)>
    decreases k,
{
    if k <= 0 {
        Seq::empty()
    } else {
        all_decisions_upto(g, points, grid, config, order, k - 1) + cell_decisions(
            g,
            order[k - 1],
            points,
            grid,
            plane_cells(g, points, grid, config),
            config,
        )
    }
}

pub open spec fn all_decisions(
    g: Arithmetic,
    points: Seq<Point3>,
    grid: Map<VoxelKey, Seq<usize>>,
    config: FilterConfig,
    order: Seq<VoxelKey>,
) -> Seq<(usize, PointDecision)> {
    all_decisions_upto(g, points, grid, config, order, order.len() as int)
}

/// What becomes of each of `len` points by the first `k` of the decisions `all`; a point
/// without a decision stays.
pub open spec fn point_decisions_upto(
    all: Seq<(usize, PointDecision)>,
    len: nat,
    k: int,
) -> Seq<PointDecision>
    decreases k,
{
    if k <= 0 {
        Seq::new(len, |i: int| PointDecision::KeepSparse)
    } else {
        point_decisions_upto(all, len, k - 1).update(all[k - 1].0 as int, all[k - 1].1)
    }
}

/// How many of the first `k` decisions are `decision`.
pub open spec fn count_upto(
    all: Seq<(usize, PointDecision)>,
    decision: PointDecision,
    k: int,
) -> int
    decreases k,
{
    if k <= 0 {
        0
    } else {
        count_upto(all, decision, k - 1) + if all[k - 1].1 == decision {
            1int
        } else {
            0int
        }
    }
}

/// How many of the first `k` of the cells `order` have a plane.
pub open spec fn planes_upto(
    planes: Map<VoxelKey, PlaneCell>,
    order: Seq<VoxelKey>,
    k: int,
) -> int
    decreases k,
{
    if k <= 0 {
        0
    } else {
        planes_upto(planes, order, k - 1) + if planes[order[k - 1]].primary_plane is Some {
            1int
        } else {
            0int
        }
    }
}

/// What a run of the filter has done.
#[derive(Clone, Copy, Debug, PartialEq, Eq, Structural)]
pub struct FilterStats {
    pub input_points: usize,
    pub occupied_voxels: usize,
    pub kept_plane_inliers: usize,
    pub kept_sparse: usize,
    pub kept_nonplanar: usize,
    pub kept_fallback: usize,
    pub removed_plane_outliers: usize,
    pub removed_nonplanar: usize,
    pub local_planes: usize,
}

impl FilterStats {
    pub open spec fn zero_spec() -> FilterStats {
        FilterStats {
            input_points: 0,
            occupied_voxels: 0,
            kept_plane_inliers: 0,
            kept_sparse: 0,
            kept_nonplanar: 0,
            kept_fallback: 0,
            removed_plane_outliers: 0,
            removed_nonplanar: 0,
            local_planes: 0,
        }
    }

    pub open spec fn kept_total_spec(self) -> int {
        self.kept_plane_inliers + self.kept_sparse + self.kept_nonplanar + self.kept_fallback
    }

    pub open spec fn removed_total_spec(self) -> int {
        self.removed_plane_outliers + self.removed_nonplanar
    }

    pub fn kept_total(&self) -> (r: usize)
        requires
            self.kept_total_spec() <= usize::MAX,
        ensures
            r == self.kept_total_spec(),
    {
        self.kept_plane_inliers + self.kept_sparse + self.kept_nonplanar + self.kept_fallback
    }

    pub fn removed_total(&self) -> (r: usize)
        requires
            self.removed_total_spec() <= usize::MAX,
        ensures
            r == self.removed_total_spec(),
    {
        self.removed_plane_outliers + self.removed_nonplanar
    }

    /// Whether the counts of decisions are those of the first `k` decisions.
    pub open spec fn counts(self, all: Seq<(usize, PointDecision)>, k: int) -> bool {
        &&& self.kept_plane_inliers == count_upto(all, PointDecision::KeepPlaneInlier, k)
        &&& self.kept_sparse == count_upto(all, PointDecision::KeepSparse, k)
        &&& self.kept_nonplanar == count_upto(all, PointDecision::KeepNonPlanar, k)
        &&& self.kept_fallback == count_upto(all, PointDecision::KeepFallback, k)
        &&& self.removed_plane_outliers == count_upto(all, PointDecision::RemovePlaneOutlier, k)
        &&& self.removed_nonplanar == count_upto(all, PointDecision::RemoveNonPlanar, k)
        &&& self.kept_total_spec() + self.removed_total_spec() == k
    }
}

impl Default for FilterStats {
    fn default() -> (r: FilterStats)
        ensures
            r == FilterStats::zero_spec(),
    {
        FilterStats {
            input_points: 0,
            occupied_voxels: 0,
            kept_plane_inliers: 0,
            kept_sparse: 0,
            kept_nonplanar: 0,
            kept_fallback: 0,
            removed_plane_outliers: 0,
            removed_nonplanar: 0,
            local_planes: 0,
        }
    }
}

/// Whether `order` lists the cells of the grid, each once.
pub open spec fn lists_the_cells(order: Seq<VoxelKey>, grid: Map<VoxelKey, Seq<usize>>) -> bool {
    order.no_duplicates() && order.to_set() == grid.dom()
}

/// Whether the decisions and the counts are those of a walk over the cells in `order`.
pub open spec fn is_filtered(
    g: Arithmetic,
    points: Seq<Point3>,
    grid: Map<VoxelKey, Seq<usize>>,
    config: FilterConfig,
    order: Seq<VoxelKey>,
    decisions: Seq<PointDecision>,
    stats: FilterStats,
) -> bool {
    let all = all_decisions(g, points, grid, config, order);
    &&& decisions == point_decisions_upto(all, points.len(), all.len() as int)
    &&& stats.counts(all, all.len() as int)
    &&& stats.local_planes == planes_upto(
        plane_cells(g, points, grid, config),
        order,
        order.len() as int,
    )
}

/// What holds of a walk over the cells in `order`, whatever describes the arithmetic.
pub open spec fn is_filtered_in<N: Numerics>(
    n: N,
    points: Seq<Point3>,
    grid: Map<VoxelKey, Seq<usize>>,
    config: FilterConfig,
    order: Seq<VoxelKey>,
    decisions: Seq<PointDecision>,
    stats: FilterStats,
) -> bool {
    forall|g: Arithmetic| #[trigger]
        computes(n, g) ==> is_filtered(g, points, grid, config, order, decisions, stats)
}

#[verifier::spinoff_prover]
#[verifier::rlimit(40)]
fn plane_grid_of<N: Numerics>(
    n: &N,
    points: &[Point3],
    grid: &KeyMap<Vec<usize>>,
    config: &FilterConfig,
    order: &Vec<VoxelKey>,
) -> (r: (KeyMap<PlaneCell>, usize))
    requires
        grid_in_range(lists(grid@), points.len() as int),
        lists_the_cells(order@, lists(grid@)),
    ensures
        forall|g: Arithmetic| #[trigger]
            computes(*n, g) ==> {
                let planes = plane_cells(g, points@, lists(grid@), *config);
                r.0@ == planes && r.1 == planes_upto(planes, order@, order.len() as int)
            },
{
    let ghost cells = lists(grid@);
    let mut planes: KeyMap<PlaneCell> = KeyMap::new();
    let mut found: usize = 0;
    let mut k: usize = 0;
    proof {
        assert(order@.take(0).to_set() =~= Set::<VoxelKey>::empty());
        assert forall|g: Arithmetic| #[trigger] computes(*n, g) implies planes@ == plane_cells(
            g,
            points@,
            cells,
            *config,
        ).restrict(order@.take(0).to_set()) by {
            assert(planes@ =~= plane_cells(g, points@, cells, *config).restrict(
                order@.take(0).to_set(),
            ));
        }
    }
    while k < order.len()
        invariant
            k <= order.len(),
            found <= k,
            cells == lists(grid@),
            grid_in_range(cells, points.len() as int),
            lists_the_cells(order@, cells),
            forall|g: Arithmetic| #[trigger]
                computes(*n, g) ==> planes@ == plane_cells(g, points@, cells, *config).restrict(
                    order@.take(k as int).to_set(),
                ),
            forall|g: Arithmetic| #[trigger]
                computes(*n, g) ==> found == planes_upto(
                    plane_cells(g, points@, cells, *config),
                    order@,
                    k as int,
                ),
        decreases order.len() - k,
    {
        let key = order[k];
        let ghost before = planes@;
        let cell = plane_of_cell(n, points, grid, config, key);
        if cell.primary_plane.is_some() {
            found += 1;
        }
        planes.insert(key, cell);
        proof {
            lemma_next_key(order@, k as int);
            assert(order@.to_set().contains(key));
            assert forall|g: Arithmetic| #[trigger] computes(*n, g) implies planes@ == plane_cells(
                g,
                points@,
                cells,
                *config,
            ).restrict(order@.take(k + 1).to_set()) by {
                assert(planes@ =~= plane_cells(g, points@, cells, *config).restrict(
                    order@.take(k + 1).to_set(),
                ));
            }
        }
        k += 1;
    }
    proof {
        assert(order@.take(k as int) =~= order@);
        assert forall|g: Arithmetic| #[trigger] computes(*n, g) implies planes@ == plane_cells(
            g,
            points@,
            cells,
            *config,
        ) by {
            assert(planes@ =~= plane_cells(g, points@, cells, *config));
        }
    }
    (planes, found)
}

fn decide_cells<N: Numerics>(
    n: &N,
    points: &[Point3],
    grid: &KeyMap<Vec<usize>>,
    config: &FilterConfig,
    order: &Vec<VoxelKey>,
    planes: &KeyMap<PlaneCell>,
) -> (r: Vec<(usize, PointDecision)>)
    requires
        grid_in_range(lists(grid@), points.len() as int),
        forall|g: Arithmetic| #[trigger]
            computes(*n, g) ==> planes@ == plane_cells(g, points@, lists(grid@), *config),
    ensures
        forall|i: int| 0 <= i < r.len() ==> (#[trigger] r[i]).0 < points.len(),
        forall|g: Arithmetic| #[trigger]
            computes(*n, g) ==> r@ == all_decisions(
                g,
                points@,
                lists(grid@),
                *config,
                order@,
            ),
{
    let ghost cells = lists(grid@);
    let mut all: Vec<(usize, PointDecision)> = Vec::new();
    let mut k: usize = 0;
    while k < order.len()
        invariant
            k <= order.len(),
            cells == lists(grid@),
            grid_in_range(cells, points.len() as int),
            forall|i: int| 0 <= i < all.len() ==> (#[trigger] all[i]).0 < points.len(),
            forall|g: Arithmetic| #[trigger]
                computes(*n, g) ==> planes@ == plane_cells(g, points@, cells, *config),
            forall|g: Arithmetic| #[trigger]
                computes(*n, g) ==> all@ == all_decisions_upto(
                    g,
                    points@,
                    cells,
                    *config,
                    order@,
                    k as int,
                ),
        decreases order.len() - k,
    {
        let key = order[k];
        let result = classify_voxel_two_pass(n, key, points, grid, planes, config);
        let ghost before = all@;
        let mut i: usize = 0;
        while i < result.decisions.len()
            invariant
                i <= result.decisions.len(),
                cells == lists(grid@),
                grid_in_range(cells, points.len() as int),
                decides_the_cell(result.decisions@, cells, key),
                all@ == before + result.decisions@.take(i as int),
                forall|j: int| 0 <= j < all.len() ==> (#[trigger] all[j]).0 < points.len(),
            decreases result.decisions.len() - i,
        {
            let decision = result.decisions[i];
            assert(decision.0 < points.len()) by {
                assert(cells.contains_key(key));
                assert(cells[key][i as int] < points.len());
            }
            all.push(decision);
            i += 1;
            assert(all@ =~= before + result.decisions@.take(i as int));
        }
        assert(all@ =~= before + result.decisions@);
        k += 1;
    }
    all
}

fn tally(all: &Vec<(usize, PointDecision)>, len: usize) -> (r: (Vec<PointDecision>, FilterStats))
    requires
        forall|i: int| 0 <= i < all.len() ==> (#[trigger] all[i]).0 < len,
    ensures
        r.0.len() == len,
        r.0@ == point_decisions_upto(all@, len as nat, all.len() as int),
        r.1.counts(all@, all.len() as int),
        r.1.input_points == 0 && r.1.occupied_voxels == 0 && r.1.local_planes == 0,
{
    let mut decisions: Vec<PointDecision> = Vec::new();
    let mut i: usize = 0;
    while i < len
        invariant
            i <= len,
            decisions@ =~= Seq::new(i as nat, |j: int| PointDecision::KeepSparse),
        decreases len - i,
    {
        decisions.push(PointDecision::KeepSparse);
        i += 1;
    }
    let mut stats = FilterStats::default();
    let mut k: usize = 0;
    while k < all.len()
        invariant
            k <= all.len(),
            decisions.len() == len,
            forall|i: int| 0 <= i < all.len() ==> (#[trigger] all[i]).0 < len,
            decisions@ == point_decisions_upto(all@, len as nat, k as int),
            stats.counts(all@, k as int),
            stats.input_points == 0 && stats.occupied_voxels == 0 && stats.local_planes == 0,
        decreases all.len() - k,
    {
        let (index, decision) = all[k];
        decisions.set(index, decision);
        match decision {
            PointDecision::KeepPlaneInlier => {
                stats.kept_plane_inliers = stats.kept_plane_inliers + 1;
            },
            PointDecision::KeepSparse => {
                stats.kept_sparse = stats.kept_sparse + 1;
            },
            PointDecision::KeepNonPlanar => {
                stats.kept_nonplanar = stats.kept_nonplanar + 1;
            },
            PointDecision::KeepFallback => {
                stats.kept_fallback = stats.kept_fallback + 1;
            },
            PointDecision::RemovePlaneOutlier => {
                stats.removed_plane_outliers = stats.removed_plane_outliers + 1;
            },
            PointDecision::RemoveNonPlanar => {
                stats.removed_nonplanar = stats.removed_nonplanar + 1;
            },
        }
        k += 1;
    }
    (decisions, stats)
}

/// Decides on every point: first each cell gets its plane, then its points are held
/// against the planes around it. The cells are walked in no stated order.
pub fn filter_points<N: Numerics>(
    n: &N,
    points: &[Point3],
    grid: &KeyMap<Vec<usize>>,
    config: &FilterConfig,
) -> (r: (Vec<PointDecision>, FilterStats))
    requires
        grid_in_range(lists(grid@), points.len() as int),
    ensures
        r.0.len() == points.len(),
        r.1.input_points == 0 && r.1.occupied_voxels == 0,
        r.1.kept_total_spec() + r.1.removed_total_spec() <= usize::MAX,
        exists|order: Seq<VoxelKey>|
            lists_the_cells(order, lists(grid@)) && #[trigger] is_filtered_in(
                *n,
                points@,
                lists(grid@),
                *config,
                order,
                r.0@,
                r.1,
            ),
{
    let order = grid.keys();
    assert(lists(grid@).dom() =~= grid@.dom());
    let (planes, found) = plane_grid_of(n, points, grid, config, &order);
    let all = decide_cells(n, points, grid, config, &order, &planes);
    let (decisions, counted) = tally(&all, points.len());
    let stats = FilterStats { local_planes: found, ..counted };
    let r = (decisions, stats);
    proof {
        assert(lists_the_cells(order@, lists(grid@)));
        assert(stats.counts(all@, all.len() as int));
        assert(is_filtered_in(*n, points@, lists(grid@), *config, order@, r.0@, r.1));
    }
    r
}

// ---------------------------------------------------------------------------
// Every point once
// ---------------------------------------------------------------------------

/// Whether the index `i` is in the cell `key`.
pub open spec fn in_cell(grid: Map<VoxelKey, Seq<usize>>, key: VoxelKey, i: usize) -> bool {
    grid.contains_key(key) && grid[key].contains(i)
}

proof fn lemma_grid_members(
    g: Arithmetic,
    points: Seq<Point3>,
    voxel_size: Float32,
    key: VoxelKey,
    k: int,
)
    requires
        0 <= k <= points.len() <= usize::MAX,
    ensures
        ({
            let grid = grid_upto(g, points, voxel_size, k);
            &&& grid.contains_key(key) ==> grid[key].no_duplicates()
            &&& forall|i: usize| #[trigger]
                in_cell(grid, key, i) <==> i < k && voxel_key_spec(
                    g,
                    points[i as int],
                    voxel_size,
                ) == key
        }),
    decreases k,
{
    if k > 0 {
        lemma_grid_members(g, points, voxel_size, key, k - 1);
        let before = grid_upto(g, points, voxel_size, k - 1);
        let now = grid_upto(g, points, voxel_size, k);
        let last = (k - 1) as usize;
        let own = voxel_key_spec(g, points[k - 1], voxel_size) == key;
        if own {
            let old = if before.contains_key(key) { before[key] } else { Seq::empty() };
            assert(now[key] =~= old.push(last));
            assert(!old.contains(last)) by {
                assert(!in_cell(before, key, last));
            }
            assert forall|i: usize| #[trigger] in_cell(now, key, i) <==> i < k && voxel_key_spec(
                g,
                points[i as int],
                voxel_size,
            ) == key by {
                assert(in_cell(before, key, i) <==> old.contains(i));
                if old.contains(i) {
                    let j = choose|j: int| 0 <= j < old.len() && old[j] == i;
                    assert(now[key][j] == i);
                }
                if now[key].contains(i) && i != last {
                    let j = choose|j: int| 0 <= j < now[key].len() && now[key][j] == i;
                    assert(old[j] == i);
                }
                assert(now[key][old.len() as int] == last);
            }
        } else {
            assert forall|i: usize| #[trigger] in_cell(now, key, i) <==> in_cell(
                before,
                key,
                i,
            ) by {}
        }
    }
}

proof fn lemma_cell_decides(
    g: Arithmetic,
    key: VoxelKey,
    points: Seq<Point3>,
    grid: Map<VoxelKey, Seq<usize>>,
    planes: Map<VoxelKey, PlaneCell>,
    config: FilterConfig,
)
    ensures
        decides_the_cell(cell_decisions(g, key, points, grid, planes, config), grid, key),
{
    let usable = candidate_planes(g, planes, config, key);
    if grid.contains_key(key) && usable.len() > 0 {
        lemma_decided(grid[key], distances(g, points, grid[key], usable), config);
    }
}

/// The indices that decisions are on.
pub open spec fn decided_indices(all: Seq<(usize, PointDecision)>) -> Seq<usize> {
    all.map_values(|decision: (usize, PointDecision)| decision.0)
}

proof fn lemma_all_indices(
    g: Arithmetic,
    points: Seq<Point3>,
    config: FilterConfig,
    order: Seq<VoxelKey>,
    k: int,
)
    requires
        points.len() <= usize::MAX,
        lists_the_cells(order, grid_of(g, points, config.voxel_size)),
        0 <= k <= order.len(),
    ensures
        ({
            let grid = grid_of(g, points, config.voxel_size);
            let indices = decided_indices(all_decisions_upto(g, points, grid, config, order, k));
            &&& indices.no_duplicates()
            &&& forall|i: usize| #[trigger]
                indices.contains(i) <==> i < points.len() && order.take(k).contains(
                    voxel_key_spec(g, points[i as int], config.voxel_size),
                )
        }),
    decreases k,
{
    let size = config.voxel_size;
    let grid = grid_of(g, points, size);
    let now = decided_indices(all_decisions_upto(g, points, grid, config, order, k));
    if k <= 0 {
        assert(now =~= Seq::<usize>::empty());
    } else {
        lemma_all_indices(g, points, config, order, k - 1);
        let before = decided_indices(all_decisions_upto(g, points, grid, config, order, k - 1));
        let key = order[k - 1];
        let planes = plane_cells(g, points, grid, config);
        assert(order.to_set().contains(key));
        lemma_cell_decides(g, key, points, grid, planes, config);
        lemma_grid_members(g, points, size, key, points.len() as int);
        assert(now =~= before + grid[key]);
        assert(forall|i: usize| #[trigger] grid[key].contains(i) <==> in_cell(grid, key, i));
        assert(!order.take(k - 1).contains(key));
        let (listed, earlier) = (order.take(k), order.take(k - 1));
        assert(listed =~= earlier.push(key));
        assert forall|i: usize| #[trigger] now.contains(i) <==> before.contains(i)
            || grid[key].contains(i) by {
            if now.contains(i) {
                let j = choose|j: int| 0 <= j < now.len() && now[j] == i;
                if j < before.len() {
                    assert(before[j] == i);
                } else {
                    assert(grid[key][j - before.len()] == i);
                }
            }
            if before.contains(i) {
                let j = choose|j: int| 0 <= j < before.len() && before[j] == i;
                assert(now[j] == i);
            }
            if grid[key].contains(i) {
                let j = choose|j: int| 0 <= j < grid[key].len() && grid[key][j] == i;
                assert(now[before.len() + j] == i);
            }
        }
        assert forall|i: usize| #[trigger] now.contains(i) <==> i < points.len() && order.take(
            k,
        ).contains(voxel_key_spec(g, points[i as int], size)) by {
            let own = voxel_key_spec(g, points[i as int], size);
            assert(listed.contains(own) <==> earlier.contains(own) || own == key) by {
                if listed.contains(own) {
                    let j = choose|j: int| 0 <= j < listed.len() && listed[j] == own;
                    if j < earlier.len() {
                        assert(earlier[j] == own);
                    }
                }
                if earlier.contains(own) {
                    let j = choose|j: int| 0 <= j < earlier.len() && earlier[j] == own;
                    assert(listed[j] == own);
                }
                assert(listed[k - 1] == key);
            }
        }
        assert(now.no_duplicates()) by {
            assert forall|a: int, b: int|
                0 <= a < now.len() && 0 <= b < now.len() && a != b implies now[a] != now[b] by {
                let m = before.len() as int;
                if a < m && b < m {
                    assert(before[a] != before[b]);
                } else if a >= m && b >= m {
                    assert(grid[key][a - m] != grid[key][b - m]);
                } else {
                    let (low, high) = if a < b { (a, b) } else { (b, a) };
                    assert(before.contains(now[low])) by {
                        assert(before[low] == now[low]);
                    }
                    assert(grid[key].contains(now[high])) by {
                        assert(grid[key][high - m] == now[high]);
                    }
                    assert(order.take(k - 1).contains(
                        voxel_key_spec(g, points[now[low] as int], size),
                    ));
                }
            }
        }
    }
}

proof fn lemma_last_decision(all: Seq<(usize, PointDecision)>, len: nat, j: int, k: int)
    requires
        0 <= j < k <= all.len(),
        decided_indices(all).no_duplicates(),
        forall|i: int| 0 <= i < all.len() ==> (#[trigger] all[i]).0 < len,
    ensures
        point_decisions_upto(all, len, k).len() == len,
        point_decisions_upto(all, len, k)[all[j].0 as int] == all[j].1,
    decreases k,
{
    lemma_point_decisions_len(all, len, k);
    lemma_point_decisions_len(all, len, k - 1);
    if j < k - 1 {
        lemma_last_decision(all, len, j, k - 1);
        assert(decided_indices(all)[j] != decided_indices(all)[k - 1]);
    }
}

proof fn lemma_point_decisions_len(all: Seq<(usize, PointDecision)>, len: nat, k: int)
    requires
        k <= all.len(),
        forall|i: int| 0 <= i < all.len() ==> (#[trigger] all[i]).0 < len,
    ensures
        point_decisions_upto(all, len, k).len() == len,
    decreases k,
{
    if k > 0 {
        lemma_point_decisions_len(all, len, k - 1);
    }
}

/// Over the grid of the points themselves, every point gets one decision, and it is what
/// becomes of the point. So the counts of kept and of removed points add up to the points.
pub proof fn every_point_is_decided_once(
    g: Arithmetic,
    points: Seq<Point3>,
    config: FilterConfig,
    order: Seq<VoxelKey>,
    decisions: Seq<PointDecision>,
    stats: FilterStats,
)
    requires
        points.len() <= usize::MAX,
        lists_the_cells(order, grid_of(g, points, config.voxel_size)),
        is_filtered(
            g,
            points,
            grid_of(g, points, config.voxel_size),
            config,
            order,
            decisions,
            stats,
        ),
    ensures
        decisions.len() == points.len(),
        stats.kept_total_spec() + stats.removed_total_spec() == points.len(),
        ({
            let grid = grid_of(g, points, config.voxel_size);
            let all = all_decisions(g, points, grid, config, order);
            &&& decided_indices(all).no_duplicates()
            &&& all.len() == points.len()
            &&& forall|j: int|
                0 <= j < all.len() ==> (#[trigger] all[j]).0 < points.len()
                    && decisions[all[j].0 as int] == all[j].1
        }),
{
    let size = config.voxel_size;
    let grid = grid_of(g, points, size);
    let all = all_decisions(g, points, grid, config, order);
    let indices = decided_indices(all);
    let len = points.len() as int;
    lemma_all_indices(g, points, config, order, order.len() as int);
    assert(order.take(order.len() as int) =~= order);
    let numbers = indices.map_values(|i: usize| i as int);
    assert(numbers.to_set() =~= vstd::set_lib::set_int_range(0, len)) by {
        assert forall|x: int| numbers.to_set().contains(x) <==> 0 <= x < len by {
            if numbers.to_set().contains(x) {
                let j = choose|j: int| 0 <= j < numbers.len() && numbers[j] == x;
                assert(indices[j] == x);
                assert(indices.contains(indices[j]));
            }
            if 0 <= x < len {
                let i = x as usize;
                let key = voxel_key_spec(g, points[x], size);
                lemma_grid_members(g, points, size, key, len);
                assert(in_cell(grid, key, i));
                assert(order.to_set().contains(key));
                assert(indices.contains(i));
                let j = choose|j: int| 0 <= j < indices.len() && indices[j] == i;
                assert(numbers[j] == x);
            }
        }
    }
    assert(numbers.no_duplicates()) by {
        assert forall|a: int, b: int|
            0 <= a < numbers.len() && 0 <= b < numbers.len() && a != b implies numbers[a]
            != numbers[b] by {
            assert(indices[a] != indices[b]);
        }
    }
    numbers.unique_seq_to_set();
    vstd::set_lib::lemma_int_range(0, len);
    assert forall|j: int| 0 <= j < all.len() implies (#[trigger] all[j]).0 < points.len() by {
        assert(indices[j] == all[j].0);
        assert(indices.contains(indices[j]));
    }
    lemma_point_decisions_len(all, points.len(), all.len() as int);
    assert forall|j: int| 0 <= j < all.len() implies decisions[(#[trigger] all[j]).0 as int]
        == all[j].1 by {
        lemma_last_decision(all, points.len(), j, all.len() as int);
    }
}

// ---------------------------------------------------------------------------
// A whole cloud
// ---------------------------------------------------------------------------

/// The points with finite coordinates among the first `k`.
pub open spec fn finite_upto(points: Seq<PointXYZ>, k: int) -> Seq<PointXYZ>
    decreases k,
{
    if k <= 0 {
        Seq::empty()
    } else {
        let before = finite_upto(points, k - 1);
        let p = points[k - 1];
        if p.x.is_finite_spec() && p.y.is_finite_spec() && p.z.is_finite_spec() {
            before.push(p)
        } else {
            before
        }
    }
}

fn finite_points(points: &[PointXYZ]) -> (r: Vec<PointXYZ>)
    ensures
        r@ == finite_upto(points@, points.len() as int),
{
    let mut r: Vec<PointXYZ> = Vec::new();
    let mut k: usize = 0;
    while k < points.len()
        invariant
            k <= points.len(),
            r@ == finite_upto(points@, k as int),
        decreases points.len() - k,
    {
        let p = points[k];
        if p.x.is_finite() && p.y.is_finite() && p.z.is_finite() {
            r.push(p);
        }
        k += 1;
    }
    r
}

/// The coordinates of the points.
pub open spec fn coordinates_of(points: Seq<PointXYZ>) -> Seq<Point3> {
    points.map_values(|p: PointXYZ| Point3 { x: p.x, y: p.y, z: p.z })
}

fn to_coordinates(points: &Vec<PointXYZ>) -> (r: Vec<Point3>)
    ensures
        r@ == coordinates_of(points@),
{
    let mut r: Vec<Point3> = Vec::new();
    let mut k: usize = 0;
    while k < points.len()
        invariant
            k <= points.len(),
            r@ == coordinates_of(points@).take(k as int),
        decreases points.len() - k,
    {
        let p = points[k];
        r.push(Point3 { x: p.x, y: p.y, z: p.z });
        k += 1;
        assert(r@ =~= coordinates_of(points@).take(k as int));
    }
    assert(r@ =~= coordinates_of(points@));
    r
}

/// Those of the first `k` points that are kept, or those that are not.
pub open spec fn split_upto(
    points: Seq<PointXYZ>,
    decisions: Seq<PointDecision>,
    kept: bool,
    k: int,
) -> Seq<PointXYZ>
    decreases k,
{
    if k <= 0 {
        Seq::empty()
    } else {
        let before = split_upto(points, decisions, kept, k - 1);
        if decisions[k - 1].keep_spec() == kept {
            before.push(points[k - 1])
        } else {
            before
        }
    }
}

/// The kept points and the removed ones.
pub fn split_points(points: &Vec<PointXYZ>, decisions: &Vec<PointDecision>) -> (r: (
    Vec<PointXYZ>,
    Vec<PointXYZ>,
))
    requires
        points.len() == decisions.len(),
    ensures
        r.0@ == split_upto(points@, decisions@, true, points.len() as int),
        r.1@ == split_upto(points@, decisions@, false, points.len() as int),
        r.0.len() + r.1.len() == points.len(),
{
    let mut kept: Vec<PointXYZ> = Vec::new();
    let mut removed: Vec<PointXYZ> = Vec::new();
    let mut k: usize = 0;
    while k < points.len()
        invariant
            k <= points.len(),
            points.len() == decisions.len(),
            kept@ == split_upto(points@, decisions@, true, k as int),
            removed@ == split_upto(points@, decisions@, false, k as int),
            kept.len() + removed.len() == k,
        decreases points.len() - k,
    {
        if decisions[k].keep() {
            kept.push(points[k]);
        } else {
            removed.push(points[k]);
        }
        k += 1;
    }
    (kept, removed)
}

/// A filtered cloud.
#[derive(Debug)]
pub struct FilteredCloud {
    pub kept: Vec<PointXYZ>,
    pub removed: Vec<PointXYZ>,
    pub stats: FilterStats,
}

/// Whether a cloud is what the filter makes of the finite points `finite`, with the cells
/// walked in `order`.
pub open spec fn is_filtered_cloud(
    g: Arithmetic,
    finite: Seq<PointXYZ>,
    config: FilterConfig,
    order: Seq<VoxelKey>,
    decisions: Seq<PointDecision>,
    cloud: FilteredCloud,
) -> bool {
    let points = coordinates_of(finite);
    let grid = grid_of(g, points, config.voxel_size);
    &&& lists_the_cells(order, grid)
    &&& is_filtered(g, points, grid, config, order, decisions, cloud.stats)
    &&& cloud.kept@ == split_upto(finite, decisions, true, finite.len() as int)
    &&& cloud.removed@ == split_upto(finite, decisions, false, finite.len() as int)
    &&& cloud.stats.input_points == finite.len()
    &&& cloud.stats.occupied_voxels == order.len()
}

/// What holds of a filtered cloud, whatever describes the arithmetic.
pub open spec fn filters_to<N: Numerics>(
    n: N,
    finite: Seq<PointXYZ>,
    config: FilterConfig,
    order: Seq<VoxelKey>,
    decisions: Seq<PointDecision>,
    cloud: FilteredCloud,
) -> bool {
    forall|g: Arithmetic| #[trigger]
        computes(n, g) ==> is_filtered_cloud(g, finite, config, order, decisions, cloud)
}

/// Filters the finite points of a cloud; there is nothing to filter where it has none.
pub fn filter_cloud<N: Numerics>(n: &N, cloud: &[PointXYZ], config: &FilterConfig) -> (r: Option<
    FilteredCloud,
>)
    ensures
        r is None <==> finite_upto(cloud@, cloud.len() as int).len() == 0,
        r matches Some(filtered) ==> {
            let finite = finite_upto(cloud@, cloud.len() as int);
            &&& filtered.kept.len() + filtered.removed.len() == finite.len()
            &&& filtered.stats.kept_total_spec() + filtered.stats.removed_total_spec() <= usize::MAX
            &&& exists|order: Seq<VoxelKey>, decisions: Seq<PointDecision>| #[trigger]
                filters_to(*n, finite, *config, order, decisions, filtered)
        },
{
    let finite = finite_points(cloud);
    if finite.len() == 0 {
        return None;
    }
    let points = to_coordinates(&finite);
    let grid = build_voxel_grid(n, points.as_slice(), config.voxel_size);
    let cells: usize = grid.len();
    let (decisions, counted) = filter_points(n, points.as_slice(), &grid, config);
    let (kept, removed) = split_points(&finite, &decisions);
    let stats = FilterStats {
        input_points: finite.len(),
        occupied_voxels: cells,
        ..counted
    };
    let filtered = FilteredCloud { kept, removed, stats };
    proof {
        let boxes = lists(grid@);
        let order = choose|order: Seq<VoxelKey>|
            lists_the_cells(order, boxes) && #[trigger] is_filtered_in(
                *n,
                points@,
                boxes,
                *config,
                order,
                decisions@,
                counted,
            );
        assert(boxes.dom() =~= grid@.dom());
        order.unique_seq_to_set();
        assert(order.len() == grid@.dom().len());
        assert forall|g: Arithmetic| #[trigger] computes(*n, g) implies is_filtered_cloud(
            g,
            finite@,
            *config,
            order,
            decisions@,
            filtered,
        ) by {
            assert(is_filtered(g, points@, boxes, *config, order, decisions@, counted));
            let all = all_decisions(g, points@, boxes, *config, order);
            assert(counted.counts(all, all.len() as int));
            assert(stats.counts(all, all.len() as int));
        }
        assert(filters_to(*n, finite@, *config, order, decisions@, filtered));
    }
    Some(filtered)
}

// ---------------------------------------------------------------------------
// What distances and decisions are
// ---------------------------------------------------------------------------

proof fn lemma_least_distance(g: Arithmetic, planes: Seq<PlaneModel>, p: Point3, k: int, i: int)
    requires
        0 <= i < k <= planes.len(),
    ensures
        ({
            let least = least_distance_upto(g, planes, p, k);
            &&& !least.is_nan_spec()
            &&& !planes[i].distance_spec(g, p).is_nan_spec() ==> least.le_spec(
                planes[i].distance_spec(g, p),
            )
            &&& least == Float32::infinity_spec() || exists|j: int|
                0 <= j < k && (#[trigger] planes[j]).distance_spec(g, p) == least
        }),
    decreases k,
{
    let now = planes[k - 1].distance_spec(g, p);
    if k > 1 {
        lemma_least_distance(
            g,
            planes,
            p,
            k - 1,
            if i < k - 1 {
                i
            } else {
                0
            },
        );
    }
    assert(least_distance_upto(g, planes, p, 0) == Float32::infinity_spec());
    let before = least_distance_upto(g, planes, p, k - 1);
    let least = least_distance_upto(g, planes, p, k);
    assert(least == before.min_spec(now));
    if least == now {
        assert(planes[k - 1].distance_spec(g, p) == least);
    } else if before != Float32::infinity_spec() {
        let j = choose|j: int|
            0 <= j < k - 1 && (#[trigger] planes[j]).distance_spec(g, p) == before;
        assert(planes[j].distance_spec(g, p) == least);
    }
}

/// The distance that a point is judged by is none above that of any plane, and it is that
/// of one of the planes, unless no plane is at a finite distance.
pub proof fn points_are_judged_by_their_nearest_plane(
    g: Arithmetic,
    planes: Seq<PlaneModel>,
    p: Point3,
    i: int,
)
    requires
        0 <= i < planes.len(),
    ensures
        !planes[i].distance_spec(g, p).is_nan_spec() ==> least_distance(g, planes, p).le_spec(
            planes[i].distance_spec(g, p),
        ),
        planes[i].distance_spec(g, p).is_finite_spec() ==> exists|j: int|
            0 <= j < planes.len() && (#[trigger] planes[j]).distance_spec(g, p)
                == least_distance(g, planes, p),
{
    lemma_least_distance(g, planes, p, planes.len() as int, i);
}

/// A point of a cell stays as one on a plane exactly where some plane that the cell may
/// use is within the threshold of it: on the plane of its own cell, or of one around it,
/// that is compatible.
pub proof fn points_near_a_usable_plane_stay(
    g: Arithmetic,
    key: VoxelKey,
    points: Seq<Point3>,
    grid: Map<VoxelKey, Seq<usize>>,
    planes: Map<VoxelKey, PlaneCell>,
    config: FilterConfig,
    i: int,
    j: int,
)
    requires
        grid.contains_key(key),
        0 <= i < grid[key].len(),
        0 <= j < candidate_planes(g, planes, config, key).len(),
        config.keep_distance_threshold.is_finite_spec(),
    ensures
        ({
            let usable = candidate_planes(g, planes, config, key);
            let p = points[grid[key][i] as int];
            let decision = cell_decisions(g, key, points, grid, planes, config)[i];
            &&& decision.0 == grid[key][i]
            &&& usable[j].distance_spec(g, p).le_spec(config.keep_distance_threshold)
                ==> decision.1 is KeepPlaneInlier
            &&& decision.1 is KeepPlaneInlier ==> exists|m: int|
                0 <= m < usable.len() && (#[trigger] usable[m]).distance_spec(g, p).le_spec(
                    config.keep_distance_threshold,
                )
            &&& decision.1.keep_spec() && config.fallback_keep_distance.is_finite_spec()
                ==> exists|m: int|
                0 <= m < usable.len() && ((#[trigger] usable[m]).distance_spec(g, p).le_spec(
                    config.keep_distance_threshold,
                ) || usable[m].distance_spec(g, p).le_spec(config.fallback_keep_distance))
        }),
{
    let usable = candidate_planes(g, planes, config, key);
    let p = points[grid[key][i] as int];
    let away = distances(g, points, grid[key], usable);
    lemma_least_distance(g, usable, p, usable.len() as int, j);
    assert(away[i] == least_distance(g, usable, p));
    points_on_a_plane_stay(grid[key], away, config, i);
    lemma_decided(grid[key], away, config);
}

/// The distance of a point from a plane is that of any other point on the plane through
/// the point and across the same normal, and it is zero at the plane's own center, where
/// differences are those of vectors and a dot product adds up over a sum of them.
pub proof fn distances_are_measured_across_the_plane(
    g: Arithmetic,
    plane: PlaneModel,
    p: Point3,
    along: Point3,
)
    requires
        (g.vector_difference)(plane.center, plane.center) == Point3::origin_spec(),
        (g.dot)(plane.normal, Point3::origin_spec()) == Float32::zero_spec(),
        (g.vector_difference)((g.vector_sum)(p, along), plane.center) == (g.vector_sum)(
            (g.vector_difference)(p, plane.center),
            along,
        ),
        (g.dot)(
            plane.normal,
            (g.vector_sum)((g.vector_difference)(p, plane.center), along),
        ) == (g.sum)(
            (g.dot)(plane.normal, (g.vector_difference)(p, plane.center)),
            (g.dot)(plane.normal, along),
        ),
        forall|x: Float32| #[trigger] (g.sum)(x, Float32::zero_spec()) == x,
    ensures
        plane.distance_spec(g, plane.center) == Float32::zero_spec(),
        (g.dot)(plane.normal, along) == Float32::zero_spec() ==> plane.distance_spec(
            g,
            (g.vector_sum)(p, along),
        ) == plane.distance_spec(g, p),
        plane.distance_spec(g, p) == (g.dot)(
            plane.normal,
            (g.vector_difference)(p, plane.center),
        ).abs_spec(),
{
}

/// A cell uses the plane of a cell within the range, its own among them, exactly where
/// it has no plane itself, or the other is steeper against its own than the angle for
/// parallel planes, or lies within the tolerance of it.
pub proof fn cells_use_planes_that_cross_or_are_close(
    g: Arithmetic,
    planes: Map<VoxelKey, PlaneCell>,
    config: FilterConfig,
    key: VoxelKey,
    other: VoxelKey,
)
    requires
        planes.contains_key(other),
        planes[other].primary_plane is Some,
        within(key, config.plane_vote_range as int, other),
        config.plane_vote_range >= 0,
    ensures
        ({
            let plane = planes[other].primary_plane->0;
            let own = planes[key].primary_plane->0;
            let alone = !planes.contains_key(key) || planes[key].primary_plane is None;
            let steep = (g.dot)(own.normal, plane.normal).abs_spec().clamp_spec(
                Float32::zero_spec(),
                Float32 { bits: F32_ONE },
            ).lt_spec((g.cosine)((g.to_radians)(config.parallel_normal_angle_deg)));
            let close = (g.dot)(
                own.normal,
                (g.vector_difference)(plane.center, own.center),
            ).abs_spec().le_spec(config.parallel_plane_tolerance);
            (alone || steep || close) ==> candidate_planes(g, planes, config, key).contains(plane)
        }),
{
    let range = config.plane_vote_range as int;
    let keys = occupied(planes.dom(), key, range);
    crate::voxel::occupied_is_the_cube(planes.dom(), key, range);
    assert(planes.dom().contains(other));
    assert(keys.contains(other));
    let at = keys.index_of(other);
    let own = own_plane(planes, key);
    let plane = planes[other].primary_plane->0;
    if own is None || compatible(g, own->0, plane, config) {
        lemma_candidate_found(g, planes, keys, own, config, at, keys.len() as int);
    }
}

proof fn lemma_candidate_found(
    g: Arithmetic,
    planes: Map<VoxelKey, PlaneCell>,
    keys: Seq<VoxelKey>,
    own: Option<PlaneModel>,
    config: FilterConfig,
    at: int,
    k: int,
)
    requires
        0 <= at < k <= keys.len(),
        planes[keys[at]].primary_plane is Some,
        own is None || compatible(g, own->0, planes[keys[at]].primary_plane->0, config),
    ensures
        candidates_upto(g, planes, keys, own, config, k).contains(
            planes[keys[at]].primary_plane->0,
        ),
    decreases k,
{
    let plane = planes[keys[at]].primary_plane->0;
    let before = candidates_upto(g, planes, keys, own, config, k - 1);
    let now = candidates_upto(g, planes, keys, own, config, k);
    if at < k - 1 {
        lemma_candidate_found(g, planes, keys, own, config, at, k - 1);
        let j = before.index_of(plane);
        assert(now[j] == plane);
    } else {
        assert(now[before.len() as int] == plane);
    }
}

proof fn lemma_grid_upto(
    g: Arithmetic,
    points: Seq<Point3>,
    voxel_size: Float32,
    k: int,
    key: VoxelKey,
    i: int,
)
    requires
        0 <= i < k <= points.len() <= usize::MAX,
    ensures
        ({
            let grid = grid_upto(g, points, voxel_size, k);
            grid.contains_key(key) && grid[key].contains(i as usize) <==> voxel_key_spec(
                g,
                points[i],
                voxel_size,
            ) == key
        }),
    decreases k,
{
    let before = grid_upto(g, points, voxel_size, k - 1);
    let now = grid_upto(g, points, voxel_size, k);
    let last = voxel_key_spec(g, points[k - 1], voxel_size);
    lemma_grid_below(g, points, voxel_size, k - 1, key);
    if i < k - 1 {
        lemma_grid_upto(g, points, voxel_size, k - 1, key, i);
        if key == last {
            if before.contains_key(key) {
                assert(now[key] == before[key].push((k - 1) as usize));
                if before[key].contains(i as usize) {
                    let j = before[key].index_of(i as usize);
                    assert(now[key][j] == i as usize);
                }
                if now[key].contains(i as usize) {
                    let j = now[key].index_of(i as usize);
                    assert(j < before[key].len());
                    assert(before[key][j] == i as usize);
                }
            } else {
                assert(now[key] == seq![(k - 1) as usize]);
                assert(!now[key].contains(i as usize));
            }
        }
    } else {
        if key == last {
            assert(now[key].last() == (k - 1) as usize);
            assert(now[key][now[key].len() - 1] == (k - 1) as usize);
        }
    }
}

proof fn lemma_grid_below(
    g: Arithmetic,
    points: Seq<Point3>,
    voxel_size: Float32,
    k: int,
    key: VoxelKey,
)
    requires
        0 <= k <= points.len() <= usize::MAX,
    ensures
        grid_upto(g, points, voxel_size, k).contains_key(key) ==> forall|j: int|
            0 <= j < grid_upto(g, points, voxel_size, k)[key].len() ==> (
            #[trigger] grid_upto(g, points, voxel_size, k)[key][j]) < k,
    decreases k,
{
    if k > 0 {
        lemma_grid_below(g, points, voxel_size, k - 1, key);
        let before = grid_upto(g, points, voxel_size, k - 1);
        let now = grid_upto(g, points, voxel_size, k);
        let last = voxel_key_spec(g, points[k - 1], voxel_size);
        assert forall|j: int|
            now.contains_key(key) && 0 <= j < now[key].len() implies #[trigger] now[key][j]
            < k by {
            if key != last {
                assert(now[key] == before[key]);
                assert(before[key][j] < k - 1);
            } else if before.contains_key(key) {
                assert(now[key] == before[key].push((k - 1) as usize));
                if j < before[key].len() {
                    assert(now[key][j] == before[key][j]);
                }
            } else {
                assert(now[key] == seq![(k - 1) as usize]);
            }
        }
    }
}

/// A point is in the list of a cell exactly where the cell is the one it falls in: the
/// floors of its coordinates over the size of a cell are the indices of the cell.
pub proof fn cells_list_the_points_that_fall_in_them(
    g: Arithmetic,
    points: Seq<Point3>,
    voxel_size: Float32,
    key: VoxelKey,
    i: int,
)
    requires
        0 <= i < points.len() <= usize::MAX,
    ensures
        ({
            let grid = grid_of(g, points, voxel_size);
            grid.contains_key(key) && grid[key].contains(i as usize) <==> {
                &&& (g.floor_i32)((g.quotient)(points[i].x, voxel_size)) == key.ix
                &&& (g.floor_i32)((g.quotient)(points[i].y, voxel_size)) == key.iy
                &&& (g.floor_i32)((g.quotient)(points[i].z, voxel_size)) == key.iz
            }
        }),
{
    lemma_grid_upto(g, points, voxel_size, points.len() as int, key, i);
}

proof fn lemma_indices_upto(
    grid: Map<VoxelKey, Seq<usize>>,
    keys: Seq<VoxelKey>,
    k: int,
    index: usize,
)
    requires
        0 <= k <= keys.len(),
    ensures
        indices_upto(grid, keys, k).contains(index) <==> exists|j: int|
            0 <= j < k && (#[trigger] grid[keys[j]]).contains(index),
    decreases k,
{
    if k > 0 {
        lemma_indices_upto(grid, keys, k - 1, index);
        let before = indices_upto(grid, keys, k - 1);
        let last = grid[keys[k - 1]];
        let now = indices_upto(grid, keys, k);
        assert(now == before + last);
        if before.contains(index) {
            let j = before.index_of(index);
            assert(now[j] == index);
        }
        if last.contains(index) {
            let j = last.index_of(index);
            assert(now[before.len() + j] == index);
        }
        if now.contains(index) {
            let j = now.index_of(index);
            if j < before.len() {
                assert(before[j] == index);
            } else {
                assert(last[j - before.len()] == index);
            }
        }
    }
}

/// The neighborhood of a cell holds the points of the cells that are at most the range
/// away from it along each axis, and no others.
pub proof fn neighborhoods_hold_the_points_around(
    grid: Map<VoxelKey, Seq<usize>>,
    center: VoxelKey,
    range: int,
    index: usize,
)
    ensures
        neighborhood(grid, center, range).contains(index) <==> exists|key: VoxelKey| #[trigger]
            grid.contains_key(key) && {
                &&& center.ix - range <= key.ix <= center.ix + range
                &&& center.iy - range <= key.iy <= center.iy + range
                &&& center.iz - range <= key.iz <= center.iz + range
            } && grid[key].contains(index),
{
    let keys = occupied(grid.dom(), center, range);
    crate::voxel::occupied_is_the_cube(grid.dom(), center, range);
    lemma_indices_upto(grid, keys, keys.len() as int, index);
    if neighborhood(grid, center, range).contains(index) {
        let j = choose|j: int|
            0 <= j < keys.len() && (#[trigger] grid[keys[j]]).contains(index);
        assert(keys.contains(keys[j]));
        assert(grid.contains_key(keys[j]));
    }
    assert forall|key: VoxelKey| #[trigger]
        grid.contains_key(key) && {
            &&& center.ix - range <= key.ix <= center.ix + range
            &&& center.iy - range <= key.iy <= center.iy + range
            &&& center.iz - range <= key.iz <= center.iz + range
        } && grid[key].contains(index) implies neighborhood(grid, center, range).contains(
        index,
    ) by {
        assert(keys.contains(key));
        let j = keys.index_of(key);
        assert(grid[keys[j]].contains(index));
    }
}

/// A cell has a plane of its own where enough points are around it and a plane is found
/// among these; how many are around it is counted.
pub proof fn cells_fit_planes_to_the_points_around(
    g: Arithmetic,
    points: Seq<Point3>,
    grid: Map<VoxelKey, Seq<usize>>,
    config: FilterConfig,
    key: VoxelKey,
)
    requires
        grid.contains_key(key),
    ensures
        ({
            let cell = plane_cells(g, points, grid, config)[key];
            let around = neighborhood(grid, key, config.neighbor_range as int);
            &&& plane_cells(g, points, grid, config).contains_key(key)
            &&& cell.neighborhood_point_count == around.len() as usize
            &&& around.len() < config.min_neighbor_points ==> cell.primary_plane is None
            &&& around.len() >= config.min_neighbor_points ==> cell.primary_plane == layer_plane(
                g,
                gathered(points, around),
                config,
                seed_spec(key, 0),
            )
        }),
{
}

/// Without a plane, a point with few others around it stays, and any other one as the
/// configuration says.
pub proof fn sparse_points_stay(neighbors: int, config: FilterConfig)
    ensures
        ({
            let decision = planeless_decision(neighbors, config);
            &&& neighbors < config.min_neighbor_points ==> decision is KeepSparse
            &&& neighbors >= config.min_neighbor_points && config.keep_nonplanar_regions
                ==> decision is KeepNonPlanar
            &&& neighbors >= config.min_neighbor_points && !config.keep_nonplanar_regions
                ==> decision is RemoveNonPlanar
            &&& decision.keep_spec() <==> neighbors < config.min_neighbor_points
                || config.keep_nonplanar_regions
        }),
        (PointDecision::KeepFallback).keep_spec() && (PointDecision::KeepPlaneInlier).keep_spec(),
        !(PointDecision::RemovePlaneOutlier).keep_spec(),
{
}

/// A cloud is split into the points that are kept and those that are removed: each point
/// is in the part of its decision, and both parts together are as many as the points.
pub proof fn clouds_are_split_by_the_decisions(
    points: Seq<PointXYZ>,
    decisions: Seq<PointDecision>,
    kept: bool,
    k: int,
    p: PointXYZ,
)
    requires
        0 <= k <= points.len(),
        points.len() == decisions.len(),
    ensures
        split_upto(points, decisions, kept, k).contains(p) <==> exists|i: int|
            0 <= i < k && (#[trigger] points[i]) == p && kept == !(
            decisions[i] is RemovePlaneOutlier || decisions[i] is RemoveNonPlanar),
        split_upto(points, decisions, true, k).len() + split_upto(
            points,
            decisions,
            false,
            k,
        ).len() == k,
    decreases k,
{
    if k > 0 {
        clouds_are_split_by_the_decisions(points, decisions, kept, k - 1, p);
        let before = split_upto(points, decisions, kept, k - 1);
        let now = split_upto(points, decisions, kept, k);
        let last = points[k - 1];
        if decisions[k - 1].keep_spec() == kept {
            assert(now == before.push(last));
            assert(now[now.len() - 1] == last);
            if before.contains(p) {
                let j = before.index_of(p);
                assert(now[j] == p);
            }
            if now.contains(p) && p != last {
                let j = now.index_of(p);
                assert(before[j] == p);
            }
        }
    }
}

/// The points that are filtered are those with three finite coordinates, each at its own
/// place.
pub proof fn finite_points_are_filtered(points: Seq<PointXYZ>, k: int, p: PointXYZ, i: int)
    requires
        0 <= k <= points.len(),
        0 <= i < points.len(),
    ensures
        finite_upto(points, k).contains(p) <==> p.x.is_finite_spec() && p.y.is_finite_spec()
            && p.z.is_finite_spec() && exists|j: int| 0 <= j < k && #[trigger] points[j] == p,
        coordinates_of(points)[i].x == points[i].x,
        coordinates_of(points)[i].y == points[i].y,
        coordinates_of(points)[i].z == points[i].z,
    decreases k,
{
    if k > 0 {
        finite_points_are_filtered(points, k - 1, p, i);
        let before = finite_upto(points, k - 1);
        let now = finite_upto(points, k);
        let last = points[k - 1];
        if last.x.is_finite_spec() && last.y.is_finite_spec() && last.z.is_finite_spec() {
            assert(now == before.push(last));
            assert(now[now.len() - 1] == last);
            if before.contains(p) {
                let j = before.index_of(p);
                assert(now[j] == p);
            }
            if now.contains(p) && p != last {
                let j = now.index_of(p);
                assert(before[j] == p);
            }
        }
    }
}

/// A decision is counted by how many points it is made of: adding one of a kind adds one
/// to the count of this kind alone. Cells with a plane are counted likewise.
pub proof fn decisions_are_counted_by_kind(
    all: Seq<(usize, PointDecision)>,
    decision: PointDecision,
    planes: Map<VoxelKey, PlaneCell>,
    order: Seq<VoxelKey>,
    k: int,
)
    requires
        0 <= k < all.len(),
        k < order.len(),
    ensures
        all[k].1 == decision ==> count_upto(all, decision, k + 1) == count_upto(all, decision, k)
            + 1,
        all[k].1 != decision ==> count_upto(all, decision, k + 1) == count_upto(all, decision, k),
        count_upto(all, decision, 0) == 0,
        planes[order[k]].primary_plane is Some ==> planes_upto(planes, order, k + 1)
            == planes_upto(planes, order, k) + 1,
        planes[order[k]].primary_plane is None ==> planes_upto(planes, order, k + 1)
            == planes_upto(planes, order, k),
        planes_upto(planes, order, 0) == 0,
{
}

} // verus!
