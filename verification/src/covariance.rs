//! Voxel maps of single clouds, with the covariance of the points around each voxel.

use vstd::prelude::*;

use crate::cell::{first_observation, VoxelCell, VoxelMap};
use crate::float::Float32;
use crate::numerics::{computes, Arithmetic, Numerics, Point3};
use crate::plane::{centroid, centroid_spec, scatter, scatter_spec};
use crate::voxel::{
    occupied, occupied_is_the_cube, voxel_key, voxel_key_spec, KeyMap, VoxelKey,
};

verus! {

/// The cells of the first `k` points: each voxel keeps the first point in it.
pub open spec fn firsts_upto(
    g: Arithmetic,
    points: Seq<Point3>,
    voxel_size: Float32,
    k: int,
) -> Map<VoxelKey, VoxelCell>
    decreases k,
{
    if k <= 0 {
        Map::empty()
    } else {
        let before = firsts_upto(g, points, voxel_size, k - 1);
        let key = voxel_key_spec(g, points[k - 1], voxel_size);
        if before.contains_key(key) {
            before
        } else {
            before.insert(key, first_observation(key, points[k - 1], 0))
        }
    }
}

/// The cells of `points`: each voxel keeps the first point in it.
pub open spec fn firsts_by_voxel(
    g: Arithmetic,
    points: Seq<Point3>,
    voxel_size: Float32,
) -> Map<VoxelKey, VoxelCell> {
    firsts_upto(g, points, voxel_size, points.len() as int)
}

/// The representative points among the first `k` of `keys`.
pub open spec fn points_upto(
    cells: Map<VoxelKey, VoxelCell>,
    keys: Seq<VoxelKey>,
    k: int,
) -> Seq<Point3>
    decreases k,
{
    if k <= 0 {
        Seq::empty()
    } else {
        let before = points_upto(cells, keys, k - 1);
        if cells[keys[k - 1]].is_point {
            before.push(cells[keys[k - 1]].point.0)
        } else {
            before
        }
    }
}

/// The representative points of the voxels around `key`.
pub open spec fn points_around(
    cells: Map<VoxelKey, VoxelCell>,
    key: VoxelKey,
    range: i32,
) -> Seq<Point3> {
    let keys = occupied(cells.dom(), key, range as int);
    points_upto(cells, keys, keys.len() as int)
}

/// The cell at `key` with the mean and the covariance of the points around it; where
/// there are fewer than `min_points`, its covariance is not valid.
pub open spec fn with_covariance(
    g: Arithmetic,
    cells: Map<VoxelKey, VoxelCell>,
    min_points: usize,
    range: i32,
    key: VoxelKey,
) -> VoxelCell {
    let points = points_around(cells, key, range);
    if points.len() < min_points {
        VoxelCell { covariance_valid: false, ..cells[key] }
    } else {
        let mean = centroid_spec(g, points);
        VoxelCell {
            mean,
            covariance: (g.matrix_divided)(
                scatter_spec(g, points, mean),
                (g.from_count)((points.len() - 1) as u64),
            ),
            covariance_valid: true,
            ..cells[key]
        }
    }
}

/// The cells, each with the covariance of the points around it.
pub open spec fn with_covariances(
    g: Arithmetic,
    cells: Map<VoxelKey, VoxelCell>,
    min_points: usize,
    range: i32,
) -> Map<VoxelKey, VoxelCell> {
    Map::new(
        |key: VoxelKey| cells.contains_key(key),
        |key: VoxelKey| with_covariance(g, cells, min_points, range, key),
    )
}

fn gather_points(cells: &VoxelMap, key: VoxelKey, range: i32) -> (r: Vec<Point3>)
    ensures
        r@ == points_around(cells@, key, range),
{
    let keys = cells.occupied_cube(key, range);
    proof {
        occupied_is_the_cube(cells@.dom(), key, range as int);
        assert forall|j: int| 0 <= j < keys.len() implies cells@.contains_key(
            #[trigger] keys[j],
        ) by {
            assert(occupied(cells@.dom(), key, range as int).contains(keys[j]));
        }
    }
    let mut points: Vec<Point3> = Vec::new();
    let mut k: usize = 0;
    while k < keys.len()
        invariant
            k <= keys.len(),
            forall|j: int| 0 <= j < keys.len() ==> cells@.contains_key(#[trigger] keys[j]),
            points@ == points_upto(cells@, keys@, k as int),
        decreases keys.len() - k,
    {
        if let Some(cell) = cells.get(keys[k]) {
            if cell.is_point {
                points.push(cell.point.0);
            }
        }
        k += 1;
    }
    points
}

fn updated_cell<N: Numerics>(
    n: &N,
    cells: &VoxelMap,
    cell: &VoxelCell,
    key: VoxelKey,
    min_points: usize,
    range: i32,
) -> (r: VoxelCell)
    requires
        cells@.contains_key(key),
        *cell == cells@[key],
        min_points > 0 || points_around(cells@, key, range).len() > 0,
    ensures
        forall|g: Arithmetic| #[trigger]
            computes(*n, g) ==> r == with_covariance(g, cells@, min_points, range, key),
{
    let points = gather_points(cells, key, range);
    let mut r = *cell;
    if points.len() < min_points {
        r.covariance_valid = false;
        return r;
    }
    let mean = centroid(n, &points);
    let count: usize = points.len() - 1;
    r.mean = mean;
    r.covariance = n.matrix_divided(scatter(n, &points, mean), n.from_count(count as u64));
    r.covariance_valid = true;
    r
}

/// Gives each cell the mean and the covariance of the points around it.
pub fn compute_covariances<N: Numerics>(
    n: &N,
    voxel_map: &mut VoxelMap,
    min_points: usize,
    neighbor_range: i32,
)
    requires
        min_points > 0 || forall|key: VoxelKey|
            #[trigger] old(voxel_map)@.contains_key(key) ==> points_around(
                old(voxel_map)@,
                key,
                neighbor_range,
            ).len() > 0,
    ensures
        final(voxel_map)@.dom() == old(voxel_map)@.dom(),
        forall|g: Arithmetic| #[trigger]
            computes(*n, g) ==> final(voxel_map)@ == with_covariances(
                g,
                old(voxel_map)@,
                min_points,
                neighbor_range,
            ),
{
    let keys = voxel_map.keys();
    let ghost cells = voxel_map@;
    let mut updated: Vec<VoxelCell> = Vec::new();
    let mut k: usize = 0;
    proof {
        assert forall|j: int| 0 <= j < keys.len() implies cells.contains_key(
            #[trigger] keys[j],
        ) by {
            assert(keys@.to_set().contains(keys[j]));
        }
    }
    while k < keys.len()
        invariant
            k <= keys.len(),
            updated.len() == k,
            voxel_map@ == cells,
            forall|j: int| 0 <= j < keys.len() ==> cells.contains_key(#[trigger] keys[j]),
            min_points > 0 || forall|key: VoxelKey| #[trigger]
                cells.contains_key(key) ==> points_around(cells, key, neighbor_range).len() > 0,
            forall|g: Arithmetic| #[trigger]
                computes(*n, g) ==> forall|j: int|
                    0 <= j < k ==> #[trigger] updated[j] == with_covariance(
                        g,
                        cells,
                        min_points,
                        neighbor_range,
                        keys[j],
                    ),
        decreases keys.len() - k,
    {
        let key = keys[k];
        if let Some(cell) = voxel_map.get(key) {
            updated.push(updated_cell(n, voxel_map, cell, key, min_points, neighbor_range));
        }
        k += 1;
    }
    let mut i: usize = 0;
    while i < keys.len()
        invariant
            i <= keys.len(),
            updated.len() == keys.len(),
            keys@.no_duplicates(),
            keys@.to_set() == cells.dom(),
            forall|j: int| 0 <= j < keys.len() ==> cells.contains_key(#[trigger] keys[j]),
            voxel_map@.dom() == cells.dom(),
            forall|j: int| 0 <= j < i ==> voxel_map@[#[trigger] keys[j]] == updated[j],
        decreases keys.len() - i,
    {
        voxel_map.insert(keys[i], updated[i]);
        assert(voxel_map@.dom() =~= cells.dom());
        i += 1;
    }
    proof {
        assert forall|g: Arithmetic| #[trigger] computes(*n, g) implies voxel_map@
            == with_covariances(g, cells, min_points, neighbor_range) by {
            let wanted = with_covariances(g, cells, min_points, neighbor_range);
            assert forall|key: VoxelKey| cells.contains_key(key) implies #[trigger] wanted[key]
                == voxel_map@[key] by {
                assert(keys@.to_set().contains(key));
                let j = choose|j: int| 0 <= j < keys.len() && keys[j] == key;
                assert(voxel_map@[keys[j]] == updated[j]);
            }
            assert(voxel_map@ =~= wanted);
        }
    }
}

/// Adds the cell of `point` where its voxel has none yet.
pub fn add_first<N: Numerics>(
    n: &N,
    voxel_map: &mut VoxelMap,
    point: Point3,
    voxel_size: Float32,
)
    ensures
        forall|g: Arithmetic| #[trigger]
            computes(*n, g) ==> final(voxel_map)@ == {
                let key = voxel_key_spec(g, point, voxel_size);
                if old(voxel_map)@.contains_key(key) {
                    old(voxel_map)@
                } else {
                    old(voxel_map)@.insert(key, first_observation(key, point, 0))
                }
            },
        forall|key: VoxelKey| #[trigger]
            final(voxel_map)@.contains_key(key) ==> old(voxel_map)@.contains_key(key)
                && final(voxel_map)@[key] == old(voxel_map)@[key] || final(voxel_map)@[key]
                == first_observation(key, point, 0),
{
    let key = voxel_key(n, point, voxel_size);
    if !voxel_map.contains_key(key) {
        voxel_map.insert(key, VoxelCell::from_key(&key, voxel_size, point, 0));
    }
}

/// How many points around a voxel its covariance takes.
pub const MIN_COVARIANCE_POINTS: usize = 5;

/// The voxel map of a cloud. That of a target has covariances.
pub fn build_voxel_map<N: Numerics>(
    n: &N,
    points: &[Point3],
    voxel_size: Float32,
    neighbor_range: i32,
    is_target: bool,
) -> (r: VoxelMap)
    ensures
        forall|g: Arithmetic| #[trigger]
            computes(*n, g) ==> r@ == if is_target {
                with_covariances(
                    g,
                    firsts_by_voxel(g, points@, voxel_size),
                    MIN_COVARIANCE_POINTS,
                    neighbor_range,
                )
            } else {
                firsts_by_voxel(g, points@, voxel_size)
            },
{
    let mut voxel_map: VoxelMap = KeyMap::new();
    let mut k: usize = 0;
    while k < points.len()
        invariant
            k <= points.len(),
            forall|g: Arithmetic| #[trigger]
                computes(*n, g) ==> voxel_map@ == firsts_upto(g, points@, voxel_size, k as int),
        decreases points.len() - k,
    {
        add_first(n, &mut voxel_map, points[k], voxel_size);
        k += 1;
    }
    if is_target {
        compute_covariances(n, &mut voxel_map, MIN_COVARIANCE_POINTS, neighbor_range);
    }
    voxel_map
}

// ---------------------------------------------------------------------------
// What voxels of a cloud hold
// ---------------------------------------------------------------------------

/// A voxel is there exactly where a point of the cloud falls in it, and holds the first of
/// these.
pub proof fn voxels_hold_their_first_point(
    g: Arithmetic,
    points: Seq<Point3>,
    voxel_size: Float32,
    k: int,
    key: VoxelKey,
)
    requires
        0 <= k <= points.len(),
    ensures
        ({
            let cells = firsts_upto(g, points, voxel_size, k);
            &&& cells.contains_key(key) <==> exists|i: int|
                0 <= i < k && voxel_key_spec(g, #[trigger] points[i], voxel_size) == key
            &&& cells.contains_key(key) ==> exists|i: int|
                0 <= i < k && voxel_key_spec(g, #[trigger] points[i], voxel_size) == key
                    && cells[key] == first_observation(key, points[i], 0) && forall|j: int|
                    0 <= j < i ==> voxel_key_spec(g, #[trigger] points[j], voxel_size) != key
        }),
    decreases k,
{
    if k > 0 {
        voxels_hold_their_first_point(g, points, voxel_size, k - 1, key);
        let before = firsts_upto(g, points, voxel_size, k - 1);
        let cells = firsts_upto(g, points, voxel_size, k);
        let last = voxel_key_spec(g, points[k - 1], voxel_size);
        if before.contains_key(key) {
            let i = choose|i: int|
                0 <= i < k - 1 && voxel_key_spec(g, #[trigger] points[i], voxel_size) == key
                    && before[key] == first_observation(key, points[i], 0) && forall|j: int|
                    0 <= j < i ==> voxel_key_spec(g, #[trigger] points[j], voxel_size) != key;
            assert(voxel_key_spec(g, points[i], voxel_size) == key);
            assert(cells[key] == before[key]);
        } else if last == key {
            assert(voxel_key_spec(g, points[k - 1], voxel_size) == key);
            assert(cells[key] == first_observation(key, points[k - 1], 0));
            assert forall|j: int| 0 <= j < k - 1 implies voxel_key_spec(
                g,
                #[trigger] points[j],
                voxel_size,
            ) != key by {}
        }
    }
}

proof fn lemma_points_upto(
    cells: Map<VoxelKey, VoxelCell>,
    keys: Seq<VoxelKey>,
    k: int,
    p: Point3,
)
    requires
        0 <= k <= keys.len(),
    ensures
        points_upto(cells, keys, k).contains(p) <==> exists|i: int|
            0 <= i < k && (#[trigger] cells[keys[i]]).is_point && cells[keys[i]].point.0 == p,
    decreases k,
{
    if k > 0 {
        lemma_points_upto(cells, keys, k - 1, p);
        let before = points_upto(cells, keys, k - 1);
        let now = points_upto(cells, keys, k);
        let cell = cells[keys[k - 1]];
        if cell.is_point {
            assert(now == before.push(cell.point.0));
            assert(now[now.len() - 1] == cell.point.0);
            if before.contains(p) {
                let j = before.index_of(p);
                assert(now[j] == p);
            }
            if now.contains(p) && p != cell.point.0 {
                let j = now.index_of(p);
                assert(before[j] == p);
            }
        }
    }
}

/// The points around a voxel are those of the voxels that are at most the range away
/// along each axis.
pub proof fn points_around_are_those_in_range(
    cells: Map<VoxelKey, VoxelCell>,
    key: VoxelKey,
    range: i32,
    p: Point3,
)
    ensures
        points_around(cells, key, range).contains(p) <==> exists|other: VoxelKey| #[trigger]
            cells.contains_key(other) && {
                &&& key.ix - range <= other.ix <= key.ix + range
                &&& key.iy - range <= other.iy <= key.iy + range
                &&& key.iz - range <= other.iz <= key.iz + range
            } && cells[other].is_point && cells[other].point.0 == p,
{
    let keys = occupied(cells.dom(), key, range as int);
    occupied_is_the_cube(cells.dom(), key, range as int);
    lemma_points_upto(cells, keys, keys.len() as int, p);
    if points_around(cells, key, range).contains(p) {
        let i = choose|i: int|
            0 <= i < keys.len() && (#[trigger] cells[keys[i]]).is_point && cells[keys[i]].point.0
                == p;
        assert(keys.contains(keys[i]));
        assert(cells.contains_key(keys[i]));
    }
    assert forall|other: VoxelKey| #[trigger]
        cells.contains_key(other) && {
            &&& key.ix - range <= other.ix <= key.ix + range
            &&& key.iy - range <= other.iy <= key.iy + range
            &&& key.iz - range <= other.iz <= key.iz + range
        } && cells[other].is_point && cells[other].point.0 == p implies points_around(
        cells,
        key,
        range,
    ).contains(p) by {
        assert(keys.contains(other));
        let i = keys.index_of(other);
        assert(cells[keys[i]].is_point);
    }
}

/// A voxel with enough points around it gets their mean and their covariance, divided by
/// one less than their number; any other keeps what it has and is marked. Nothing else
/// of a voxel changes.
pub proof fn covariances_are_of_the_points_around(
    g: Arithmetic,
    cells: Map<VoxelKey, VoxelCell>,
    min_points: usize,
    range: i32,
    key: VoxelKey,
)
    requires
        cells.contains_key(key),
    ensures
        ({
            let after = with_covariances(g, cells, min_points, range);
            let cell = after[key];
            let points = points_around(cells, key, range);
            let enough = points.len() >= min_points;
            &&& after.dom() == cells.dom()
            &&& cell.covariance_valid <==> enough
            &&& !enough ==> cell.mean == cells[key].mean && cell.covariance
                == cells[key].covariance
            &&& enough ==> cell.mean == centroid_spec(g, points) && cell.covariance == (
            g.matrix_divided)(
                scatter_spec(g, points, cell.mean),
                (g.from_count)((points.len() - 1) as u64),
            )
            &&& cell.point == cells[key].point && cell.is_point == cells[key].is_point
            &&& cell.sample_count == cells[key].sample_count
            &&& cell.observed_frames == cells[key].observed_frames
        }),
{
}

} // verus!
