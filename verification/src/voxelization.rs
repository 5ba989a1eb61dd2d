//! Downsampling of point clouds: one point, the mean, for each occupied voxel.

use std::hash::BuildHasherDefault;

use nohash_hasher::{IntMap, NoHashHasher};
use vstd::prelude::*;

use crate::cell::VoxelMap;
use crate::covariance::{add_first, firsts_by_voxel, firsts_upto};
use crate::float::{Float32, F32_ONE};
use crate::numerics::{computes, Arithmetic, Numerics, Point3};
use crate::voxel::{lemma_next_key, KeyMap};

verus! {

// ---------------------------------------------------------------------------
// Maps from codes
// ---------------------------------------------------------------------------

#[verifier::external_type_specification]
#[verifier::external_body]
#[verifier::reject_recursive_types(T)]
pub struct ExNoHashHasher<T>(NoHashHasher<T>);

#[verifier::external_type_specification]
#[verifier::external_body]
#[verifier::reject_recursive_types(T)]
pub struct ExBuildHasherDefault<T>(BuildHasherDefault<T>);

/// Calls `get` of the hash map that [`nohash_hasher::IntMap`] names: the value at the
/// key, where the map holds the key.
#[verifier::external_body]
fn int_map_get<V>(map: &IntMap<u64, V>, key: u64) -> (r: Option<&V>)
    ensures
        r == if map@.contains_key(key) { Some(&map@[key]) } else { None },
{
    map.get(&key)
}

/// Calls `insert` of the hash map that [`nohash_hasher::IntMap`] names: the key then
/// has the value, and every other key has what it had.
#[verifier::external_body]
fn int_map_insert<V>(map: &mut IntMap<u64, V>, key: u64, value: V)
    ensures
        final(map)@ == old(map)@.insert(key, value),
{
    map.insert(key, value);
}

/// Calls `keys` of the hash map that [`nohash_hasher::IntMap`] names: each key of the
/// map once. Their order is not stated.
#[verifier::external_body]
fn int_map_keys<V>(map: &IntMap<u64, V>) -> (r: Vec<u64>)
    ensures
        r@.no_duplicates(),
        r@.to_set() == map@.dom(),
{
    map.keys().copied().collect()
}

fn empty_map<V>() -> (r: IntMap<u64, V>)
    ensures
        r@ == Map::<u64, V>::empty(),
{
    IntMap::default()
}

// ---------------------------------------------------------------------------
// Codes of voxels
// ---------------------------------------------------------------------------

/// The low 21 bits of `n`, spread so that two free bits follow each.
pub open spec fn spread_spec(n: u32) -> u64 {
    let a = n as u64 & 0x1f_ffff;
    let b = (a | (a << 32)) & 0x001f_0000_0000_ffff;
    let c = (b | (b << 16)) & 0x001f_0000_ff00_00ff;
    let d = (c | (c << 8)) & 0x100f_00f0_0f00_f00f;
    let e = (d | (d << 4)) & 0x10c3_0c30_c30c_30c3;
    (e | (e << 2)) & 0x1249_2492_4924_9249
}

/// The code in which the bits of the three indices alternate.
pub open spec fn morton3d_spec(ix: u32, iy: u32, iz: u32) -> u64 {
    spread_spec(ix) | (spread_spec(iy) << 1) | (spread_spec(iz) << 2)
}

fn spread(n: u32) -> (r: u64)
    ensures
        r == spread_spec(n),
{
    let a: u64 = n as u64 & 0x1f_ffff;
    let b: u64 = (a | (a << 32)) & 0x001f_0000_0000_ffff;
    let c: u64 = (b | (b << 16)) & 0x001f_0000_ff00_00ff;
    let d: u64 = (c | (c << 8)) & 0x100f_00f0_0f00_f00f;
    let e: u64 = (d | (d << 4)) & 0x10c3_0c30_c30c_30c3;
    (e | (e << 2)) & 0x1249_2492_4924_9249
}

pub fn morton3d(ix: u32, iy: u32, iz: u32) -> (r: u64)
    ensures
        r == morton3d_spec(ix, iy, iz),
{
    spread(ix) | (spread(iy) << 1) | (spread(iz) << 2)
}

/// Bit `3 * i` of a code is bit `i` of the first index, and the two bits above it are
/// those of the other two.
pub proof fn morton3d_alternates_bits(ix: u32, iy: u32, iz: u32, i: u32)
    requires
        i < 21,
    ensures
        (morton3d_spec(ix, iy, iz) >> (3 * i) as u64) & 1 == (ix as u64 >> i as u64) & 1,
        (morton3d_spec(ix, iy, iz) >> (3 * i + 1) as u64) & 1 == (iy as u64 >> i as u64) & 1,
        (morton3d_spec(ix, iy, iz) >> (3 * i + 2) as u64) & 1 == (iz as u64 >> i as u64) & 1,
{
    assert((morton3d_spec(ix, iy, iz) >> (3 * i) as u64) & 1 == (ix as u64 >> i as u64) & 1)
        by (bit_vector)
        requires
            i < 21,
    ;
    assert((morton3d_spec(ix, iy, iz) >> (3 * i + 1) as u64) & 1 == (iy as u64 >> i as u64) & 1)
        by (bit_vector)
        requires
            i < 21,
    ;
    assert((morton3d_spec(ix, iy, iz) >> (3 * i + 2) as u64) & 1 == (iz as u64 >> i as u64) & 1)
        by (bit_vector)
        requires
            i < 21,
    ;
}

/// Different indices of at most 21 bits have different codes.
pub proof fn morton3d_is_injective(
    ax: u32,
    ay: u32,
    az: u32,
    bx: u32,
    by: u32,
    bz: u32,
)
    requires
        ax <= 0x1f_ffff && ay <= 0x1f_ffff && az <= 0x1f_ffff,
        bx <= 0x1f_ffff && by <= 0x1f_ffff && bz <= 0x1f_ffff,
        morton3d_spec(ax, ay, az) == morton3d_spec(bx, by, bz),
    ensures
        ax == bx && ay == by && az == bz,
{
    assert(ax == bx && ay == by && az == bz) by (bit_vector)
        requires
            ax <= 0x1f_ffff && ay <= 0x1f_ffff && az <= 0x1f_ffff,
            bx <= 0x1f_ffff && by <= 0x1f_ffff && bz <= 0x1f_ffff,
            morton3d_spec(ax, ay, az) == morton3d_spec(bx, by, bz),
    ;
}

// ---------------------------------------------------------------------------
// The extent of a cloud
// ---------------------------------------------------------------------------

/// By coordinate, the smaller one.
pub open spec fn lower_spec(a: Point3, b: Point3) -> Point3 {
    Point3 { x: a.x.min_spec(b.x), y: a.y.min_spec(b.y), z: a.z.min_spec(b.z) }
}

/// By coordinate, the larger one.
pub open spec fn upper_spec(a: Point3, b: Point3) -> Point3 {
    Point3 { x: a.x.max_spec(b.x), y: a.y.max_spec(b.y), z: a.z.max_spec(b.z) }
}

/// The smallest and the largest coordinates of the first `k` points.
pub open spec fn bounds_upto(points: Seq<Point3>, k: int) -> (Point3, Point3)
    decreases k,
{
    if k <= 0 {
        let high = Float32::infinity_spec();
        let low = high.neg_spec();
        (Point3 { x: high, y: high, z: high }, Point3 { x: low, y: low, z: low })
    } else {
        let (min, max) = bounds_upto(points, k - 1);
        (lower_spec(min, points[k - 1]), upper_spec(max, points[k - 1]))
    }
}

/// The smallest and the largest coordinates of `points`; a NaN counts for nothing.
pub open spec fn bounds_spec(points: Seq<Point3>) -> (Point3, Point3) {
    bounds_upto(points, points.len() as int)
}

pub fn point_cloud_bounds(points: &[Point3]) -> (r: (Point3, Point3))
    ensures
        r == bounds_spec(points@),
{
    let high = Float32::infinity();
    let low = high.neg();
    let mut min = Point3 { x: high, y: high, z: high };
    let mut max = Point3 { x: low, y: low, z: low };
    let mut k: usize = 0;
    while k < points.len()
        invariant
            k <= points.len(),
            (min, max) == bounds_upto(points@, k as int),
        decreases points.len() - k,
    {
        let p = points[k];
        min = Point3 { x: min.x.min(p.x), y: min.y.min(p.y), z: min.z.min(p.z) };
        max = Point3 { x: max.x.max(p.x), y: max.y.max(p.y), z: max.z.max(p.z) };
        k += 1;
    }
    (min, max)
}

proof fn lemma_bounds_upto(points: Seq<Point3>, k: int, i: int)
    requires
        0 <= i < k <= points.len(),
    ensures
        !points[i].x.is_nan_spec() ==> bounds_upto(points, k).0.x.le_spec(points[i].x)
            && points[i].x.le_spec(bounds_upto(points, k).1.x),
        !points[i].y.is_nan_spec() ==> bounds_upto(points, k).0.y.le_spec(points[i].y)
            && points[i].y.le_spec(bounds_upto(points, k).1.y),
        !points[i].z.is_nan_spec() ==> bounds_upto(points, k).0.z.le_spec(points[i].z)
            && points[i].z.le_spec(bounds_upto(points, k).1.z),
    decreases k,
{
    lemma_bounds_are_numbers(points, k - 1);
    if i < k - 1 {
        lemma_bounds_upto(points, k - 1, i);
    }
}

proof fn lemma_bounds_are_numbers(points: Seq<Point3>, k: int)
    requires
        0 <= k <= points.len(),
    ensures
        ({
            let (min, max) = bounds_upto(points, k);
            &&& !min.x.is_nan_spec() && !min.y.is_nan_spec() && !min.z.is_nan_spec()
            &&& !max.x.is_nan_spec() && !max.y.is_nan_spec() && !max.z.is_nan_spec()
        }),
    decreases k,
{
    if k > 0 {
        lemma_bounds_are_numbers(points, k - 1);
    }
}

/// Every coordinate that is a number lies between the bounds.
pub proof fn bounds_hold_every_point(points: Seq<Point3>, i: int)
    requires
        0 <= i < points.len(),
    ensures
        !points[i].x.is_nan_spec() ==> bounds_spec(points).0.x.le_spec(points[i].x)
            && points[i].x.le_spec(bounds_spec(points).1.x),
        !points[i].y.is_nan_spec() ==> bounds_spec(points).0.y.le_spec(points[i].y)
            && points[i].y.le_spec(bounds_spec(points).1.y),
        !points[i].z.is_nan_spec() ==> bounds_spec(points).0.z.le_spec(points[i].z)
            && points[i].z.le_spec(bounds_spec(points).1.z),
{
    lemma_bounds_upto(points, points.len() as int, i);
}

/// The largest index that a code can hold.
pub const MAX_CODED_INDEX: u64 = 0x1f_ffff;

/// The inverse of `voxel_size`.
pub open spec fn inverse_spec(g: Arithmetic, voxel_size: Float32) -> Float32 {
    (g.quotient)(Float32 { bits: F32_ONE }, voxel_size)
}

/// Whether an index between `min` and `max` is too large for a code.
pub open spec fn extent_exceeded(
    g: Arithmetic,
    min: Point3,
    max: Point3,
    inverse: Float32,
) -> bool {
    ||| (g.floor_u64)((g.product)((g.difference)(max.x, min.x), inverse)) > MAX_CODED_INDEX
    ||| (g.floor_u64)((g.product)((g.difference)(max.y, min.y), inverse)) > MAX_CODED_INDEX
    ||| (g.floor_u64)((g.product)((g.difference)(max.z, min.z), inverse)) > MAX_CODED_INDEX
}

/// Whether the cloud reaches so far that different voxels can have the same code.
pub fn morton_extent_exceeded<N: Numerics>(
    n: &N,
    points: &[Point3],
    voxel_size: Float32,
) -> (r: bool)
    ensures
        forall|g: Arithmetic| #[trigger]
            computes(*n, g) ==> r == {
                let (min, max) = bounds_spec(points@);
                extent_exceeded(g, min, max, inverse_spec(g, voxel_size))
            },
{
    let (min, max) = point_cloud_bounds(points);
    let inverse = n.quotient(Float32 { bits: F32_ONE }, voxel_size);
    let x: u64 = n.floor_u64(n.product(n.difference(max.x, min.x), inverse));
    let y: u64 = n.floor_u64(n.product(n.difference(max.y, min.y), inverse));
    let z: u64 = n.floor_u64(n.product(n.difference(max.z, min.z), inverse));
    x > MAX_CODED_INDEX || y > MAX_CODED_INDEX || z > MAX_CODED_INDEX
}

// ---------------------------------------------------------------------------
// Means by code
// ---------------------------------------------------------------------------

/// The sum and the number of some points.
#[derive(Clone, Copy, Debug, PartialEq, Eq, Structural)]
pub struct VoxelStat {
    pub sum: Point3,
    pub count: usize,
}

/// The code of the voxel of `p`, counted from the corner `min`.
pub open spec fn code_of(g: Arithmetic, p: Point3, min: Point3, inverse: Float32) -> u64 {
    morton3d_spec(
        (g.floor_u32)((g.product)((g.difference)(p.x, min.x), inverse)),
        (g.floor_u32)((g.product)((g.difference)(p.y, min.y), inverse)),
        (g.floor_u32)((g.product)((g.difference)(p.z, min.z), inverse)),
    )
}

/// `stat` and one more point.
pub open spec fn with_point(g: Arithmetic, stat: VoxelStat, p: Point3) -> VoxelStat {
    VoxelStat { sum: (g.vector_sum)(stat.sum, p), count: (stat.count + 1) as usize }
}

pub open spec fn no_points() -> VoxelStat {
    VoxelStat { sum: Point3::origin_spec(), count: 0 }
}

/// The sums of the first `k` points, by code.
pub open spec fn stats_upto(
    g: Arithmetic,
    points: Seq<Point3>,
    min: Point3,
    inverse: Float32,
    k: int,
) -> Map<u64, VoxelStat>
    decreases k,
{
    if k <= 0 {
        Map::empty()
    } else {
        let before = stats_upto(g, points, min, inverse, k - 1);
        let code = code_of(g, points[k - 1], min, inverse);
        let stat = if before.contains_key(code) { before[code] } else { no_points() };
        before.insert(code, with_point(g, stat, points[k - 1]))
    }
}

/// The mean of the points.
pub open spec fn stat_mean(g: Arithmetic, stat: VoxelStat) -> Point3 {
    (g.vector_scaled)(
        stat.sum,
        (g.quotient)(Float32 { bits: F32_ONE }, (g.from_count)(stat.count as u64)),
    )
}

/// The sums of the points of a cloud, by the voxel of `voxel_size` that they are in.
pub open spec fn stats_of(g: Arithmetic, points: Seq<Point3>, voxel_size: Float32) -> Map<
    u64,
    VoxelStat,
> {
    stats_upto(
        g,
        points,
        bounds_spec(points).0,
        inverse_spec(g, voxel_size),
        points.len() as int,
    )
}

/// The means of the voxels that `codes` lists.
pub open spec fn means_of(
    g: Arithmetic,
    stats: Map<u64, VoxelStat>,
    codes: Seq<u64>,
) -> Seq<Point3> {
    codes.map_values(|code: u64| stat_mean(g, stats[code]))
}

/// Whether `codes` lists each key of `stats` once.
pub open spec fn lists_codes(stats: Map<u64, VoxelStat>, codes: Seq<u64>) -> bool {
    codes.no_duplicates() && codes.to_set() == stats.dom()
}

/// Whether `means` are the means of the occupied voxels of `points`, each once, in
/// whatever order.
pub open spec fn is_downsampled(
    g: Arithmetic,
    points: Seq<Point3>,
    voxel_size: Float32,
    means: Seq<Point3>,
) -> bool {
    exists|codes: Seq<u64>| #[trigger]
        lists_codes(stats_of(g, points, voxel_size), codes) && means == means_of(
            g,
            stats_of(g, points, voxel_size),
            codes,
        )
}

/// Adds a point to the sums of its voxel.
fn add_point_to_map<N: Numerics>(
    n: &N,
    map: &mut IntMap<u64, VoxelStat>,
    p: Point3,
    min: Point3,
    inverse: Float32,
    Ghost(bound): Ghost<int>,
)
    requires
        0 <= bound < usize::MAX,
        forall|code: u64| #[trigger]
            old(map)@.contains_key(code) ==> 0 < old(map)@[code].count <= bound,
    ensures
        forall|code: u64| #[trigger]
            final(map)@.contains_key(code) ==> 0 < final(map)@[code].count <= bound + 1,
        forall|g: Arithmetic| #[trigger]
            computes(*n, g) ==> final(map)@ == {
                let code = code_of(g, p, min, inverse);
                let stat = if old(map)@.contains_key(code) { old(map)@[code] } else { no_points() };
                old(map)@.insert(code, with_point(g, stat, p))
            },
{
    let ix: u32 = n.floor_u32(n.product(n.difference(p.x, min.x), inverse));
    let iy: u32 = n.floor_u32(n.product(n.difference(p.y, min.y), inverse));
    let iz: u32 = n.floor_u32(n.product(n.difference(p.z, min.z), inverse));
    let code: u64 = morton3d(ix, iy, iz);
    let stat = match int_map_get(map, code) {
        Some(stat) => *stat,
        None => VoxelStat { sum: Point3::origin(), count: 0 },
    };
    let added = VoxelStat { sum: n.vector_sum(stat.sum, p), count: stat.count + 1 };
    int_map_insert(map, code, added);
}

/// Whether `means` are the means that `stats` holds, whatever arithmetic `n` is.
spec fn holds_means<N: Numerics>(n: N, stats: Map<u64, VoxelStat>, means: Seq<Point3>) -> bool {
    exists|codes: Seq<u64>| #[trigger]
        lists_codes(stats, codes) && means.len() == codes.len() && forall|g: Arithmetic| #[trigger]
            computes(n, g) ==> means == means_of(g, stats, codes)
}

proof fn lemma_holds_means<N: Numerics>(
    n: N,
    g: Arithmetic,
    points: Seq<Point3>,
    voxel_size: Float32,
    stats: Map<u64, VoxelStat>,
    means: Seq<Point3>,
)
    requires
        holds_means(n, stats, means),
        computes(n, g),
        stats == stats_of(g, points, voxel_size),
    ensures
        is_downsampled(g, points, voxel_size, means),
{
    let codes = choose|codes: Seq<u64>| #[trigger]
        lists_codes(stats, codes) && means.len() == codes.len() && forall|g: Arithmetic| #[trigger]
            computes(n, g) ==> means == means_of(g, stats, codes);
    assert(lists_codes(stats_of(g, points, voxel_size), codes));
}

/// The means of the voxels, in the order in which the map is walked.
fn stat_map_into_centroids<N: Numerics>(n: &N, map: &IntMap<u64, VoxelStat>) -> (r: Vec<Point3>)
    ensures
        holds_means(*n, map@, r@),
{
    let codes = int_map_keys(map);
    let mut r: Vec<Point3> = Vec::new();
    let mut i: usize = 0;
    while i < codes.len()
        invariant
            i <= codes.len(),
            codes@.no_duplicates(),
            codes@.to_set() == map@.dom(),
            r.len() == i,
            forall|g: Arithmetic| #[trigger]
                computes(*n, g) ==> forall|j: int|
                    0 <= j < i ==> #[trigger] r[j] == stat_mean(g, map@[codes[j]]),
        decreases codes.len() - i,
    {
        assert(codes@.to_set().contains(codes[i as int]));
        if let Some(stat) = int_map_get(map, codes[i]) {
            let inverse_count = n.quotient(
                Float32 { bits: F32_ONE },
                n.from_count(stat.count as u64),
            );
            r.push(n.vector_scaled(stat.sum, inverse_count));
        }
        i += 1;
    }
    proof {
        assert(lists_codes(map@, codes@));
        assert forall|g: Arithmetic| #[trigger] computes(*n, g) implies r@ == means_of(
            g,
            map@,
            codes@,
        ) by {
            assert(r@ =~= means_of(g, map@, codes@));
        }
    }
    r
}

/// One point for each occupied voxel: the mean of the points in it.
pub fn voxel_downsample_points<N: Numerics>(
    n: &N,
    points: &[Point3],
    voxel_size: Float32,
) -> (r: Vec<Point3>)
    requires
        points.len() > 0 ==> Float32::zero().lt(voxel_size),
    ensures
        points.len() == 0 ==> r.len() == 0,
        forall|g: Arithmetic| #[trigger]
            computes(*n, g) ==> is_downsampled(g, points@, voxel_size, r@),
{
    let (min, _) = point_cloud_bounds(points);
    let inverse = n.quotient(Float32 { bits: F32_ONE }, voxel_size);
    let mut map: IntMap<u64, VoxelStat> = empty_map();
    let mut k: usize = 0;
    while k < points.len()
        invariant
            k <= points.len(),
            k == 0 ==> map@ == Map::<u64, VoxelStat>::empty(),
            forall|code: u64| #[trigger] map@.contains_key(code) ==> 0 < map@[code].count <= k,
            forall|g: Arithmetic| #[trigger]
                computes(*n, g) ==> map@ == stats_upto(g, points@, min, inverse, k as int),
        decreases points.len() - k,
    {
        add_point_to_map(n, &mut map, points[k], min, inverse, Ghost(k as int));
        k += 1;
    }
    let r = stat_map_into_centroids(n, &map);
    proof {
        if points.len() == 0 {
            lemma_no_codes(map@);
        }
        assert forall|g: Arithmetic| #[trigger] computes(*n, g) implies is_downsampled(
            g,
            points@,
            voxel_size,
            r@,
        ) by {
            lemma_holds_means(*n, g, points@, voxel_size, map@, r@);
        }
    }
    r
}

/// An empty map has no codes to list.
proof fn lemma_no_codes(stats: Map<u64, VoxelStat>)
    requires
        stats == Map::<u64, VoxelStat>::empty(),
    ensures
        forall|codes: Seq<u64>| #[trigger] lists_codes(stats, codes) ==> codes.len() == 0,
{
    assert forall|codes: Seq<u64>| #[trigger] lists_codes(stats, codes) implies codes.len()
        == 0 by {
        if codes.len() > 0 {
            assert(codes.to_set().contains(codes[0]));
        }
    }
}

fn build_dual_stat_maps<N: Numerics>(
    n: &N,
    points: &[Point3],
    min: Point3,
    first_inverse: Float32,
    second_inverse: Float32,
) -> (r: (IntMap<u64, VoxelStat>, IntMap<u64, VoxelStat>))
    ensures
        points.len() == 0 ==> r.0@ == Map::<u64, VoxelStat>::empty() && r.1@ == Map::<
            u64,
            VoxelStat,
        >::empty(),
        forall|g: Arithmetic| #[trigger]
            computes(*n, g) ==> r.0@ == stats_upto(
                g,
                points@,
                min,
                first_inverse,
                points.len() as int,
            ) && r.1@ == stats_upto(g, points@, min, second_inverse, points.len() as int),
{
    let mut first: IntMap<u64, VoxelStat> = empty_map();
    let mut second: IntMap<u64, VoxelStat> = empty_map();
    let mut k: usize = 0;
    while k < points.len()
        invariant
            k <= points.len(),
            k == 0 ==> first@ == Map::<u64, VoxelStat>::empty() && second@ == Map::<
                u64,
                VoxelStat,
            >::empty(),
            forall|code: u64| #[trigger] first@.contains_key(code) ==> 0 < first@[code].count <= k,
            forall|code: u64| #[trigger]
                second@.contains_key(code) ==> 0 < second@[code].count <= k,
            forall|g: Arithmetic| #[trigger]
                computes(*n, g) ==> first@ == stats_upto(g, points@, min, first_inverse, k as int)
                    && second@ == stats_upto(g, points@, min, second_inverse, k as int),
        decreases points.len() - k,
    {
        add_point_to_map(n, &mut first, points[k], min, first_inverse, Ghost(k as int));
        add_point_to_map(n, &mut second, points[k], min, second_inverse, Ghost(k as int));
        k += 1;
    }
    (first, second)
}

/// Downsamples a cloud at two resolutions in one pass.
pub fn voxel_downsample_points_dual<N: Numerics>(
    n: &N,
    points: &[Point3],
    first_voxel_size: Float32,
    second_voxel_size: Float32,
) -> (r: (Vec<Point3>, Vec<Point3>))
    requires
        points.len() > 0 ==> Float32::zero().lt(first_voxel_size) && Float32::zero().lt(
            second_voxel_size,
        ),
    ensures
        points.len() == 0 ==> r.0.len() == 0 && r.1.len() == 0,
        forall|g: Arithmetic| #[trigger]
            computes(*n, g) ==> is_downsampled(g, points@, first_voxel_size, r.0@)
                && is_downsampled(g, points@, second_voxel_size, r.1@),
{
    let (min, _) = point_cloud_bounds(points);
    let one = Float32 { bits: F32_ONE };
    let (first, second) = build_dual_stat_maps(
        n,
        points,
        min,
        n.quotient(one, first_voxel_size),
        n.quotient(one, second_voxel_size),
    );
    let first_means = stat_map_into_centroids(n, &first);
    let second_means = stat_map_into_centroids(n, &second);
    proof {
        if points.len() == 0 {
            lemma_no_codes(first@);
            lemma_no_codes(second@);
        }
        assert forall|g: Arithmetic| #[trigger] computes(*n, g) implies is_downsampled(
            g,
            points@,
            first_voxel_size,
            first_means@,
        ) && is_downsampled(g, points@, second_voxel_size, second_means@) by {
            lemma_holds_means(*n, g, points@, first_voxel_size, first@, first_means@);
            lemma_holds_means(*n, g, points@, second_voxel_size, second@, second_means@);
        }
    }
    (first_means, second_means)
}

/// A downsampled cloud, and the voxel map of its points.
pub struct DownsampledPointCloud {
    pub points: Vec<Point3>,
    pub voxel_map: VoxelMap,
}

fn stat_map_into_point_cloud<N: Numerics>(
    n: &N,
    map: &IntMap<u64, VoxelStat>,
    voxel_size: Float32,
) -> (r: DownsampledPointCloud)
    ensures
        holds_means(*n, map@, r.points@),
        r.points.len() == 0 ==> r.voxel_map@ == Map::<
            crate::voxel::VoxelKey,
            crate::cell::VoxelCell,
        >::empty(),
        forall|g: Arithmetic| #[trigger]
            computes(*n, g) ==> r.voxel_map@ == firsts_by_voxel(g, r.points@, voxel_size),
{
    let points = stat_map_into_centroids(n, map);
    let mut voxel_map: VoxelMap = KeyMap::new();
    let mut k: usize = 0;
    while k < points.len()
        invariant
            k <= points.len(),
            k == 0 ==> voxel_map@ == Map::<
                crate::voxel::VoxelKey,
                crate::cell::VoxelCell,
            >::empty(),
            forall|g: Arithmetic| #[trigger]
                computes(*n, g) ==> voxel_map@ == firsts_upto(g, points@, voxel_size, k as int),
        decreases points.len() - k,
    {
        add_first(n, &mut voxel_map, points[k], voxel_size);
        k += 1;
    }
    DownsampledPointCloud { points, voxel_map }
}

/// Downsamples a cloud at two resolutions in one pass, and builds the voxel map of
/// each result.
pub fn voxel_downsample_points_and_maps_dual<N: Numerics>(
    n: &N,
    points: &[Point3],
    first_voxel_size: Float32,
    second_voxel_size: Float32,
) -> (r: (DownsampledPointCloud, DownsampledPointCloud))
    requires
        points.len() > 0 ==> Float32::zero().lt(first_voxel_size) && Float32::zero().lt(
            second_voxel_size,
        ),
    ensures
        points.len() == 0 ==> r.0.points.len() == 0 && r.1.points.len() == 0,
        points.len() == 0 ==> r.0.voxel_map@.len() == 0 && r.1.voxel_map@.len() == 0,
        forall|g: Arithmetic| #[trigger]
            computes(*n, g) ==> {
                &&& is_downsampled(g, points@, first_voxel_size, r.0.points@)
                &&& r.0.voxel_map@ == firsts_by_voxel(g, r.0.points@, first_voxel_size)
                &&& is_downsampled(g, points@, second_voxel_size, r.1.points@)
                &&& r.1.voxel_map@ == firsts_by_voxel(g, r.1.points@, second_voxel_size)
            },
{
    let (min, _) = point_cloud_bounds(points);
    let one = Float32 { bits: F32_ONE };
    let (first, second) = build_dual_stat_maps(
        n,
        points,
        min,
        n.quotient(one, first_voxel_size),
        n.quotient(one, second_voxel_size),
    );
    let first_cloud = stat_map_into_point_cloud(n, &first, first_voxel_size);
    let second_cloud = stat_map_into_point_cloud(n, &second, second_voxel_size);
    proof {
        if points.len() == 0 {
            lemma_no_codes(first@);
            lemma_no_codes(second@);
        }
        assert forall|g: Arithmetic| #[trigger] computes(*n, g) implies is_downsampled(
            g,
            points@,
            first_voxel_size,
            first_cloud.points@,
        ) && is_downsampled(g, points@, second_voxel_size, second_cloud.points@) by {
            lemma_holds_means(*n, g, points@, first_voxel_size, first@, first_cloud.points@);
            lemma_holds_means(*n, g, points@, second_voxel_size, second@, second_cloud.points@);
        }
    }
    (first_cloud, second_cloud)
}

// ---------------------------------------------------------------------------
// Laws
// ---------------------------------------------------------------------------

proof fn lemma_order_is_free(
    g: Arithmetic,
    stats: Map<u64, VoxelStat>,
    a: Seq<u64>,
    b: Seq<u64>,
)
    requires
        a.no_duplicates(),
        b.no_duplicates(),
        a.to_set() == b.to_set(),
    ensures
        means_of(g, stats, a).to_multiset() == means_of(g, stats, b).to_multiset(),
    decreases a.len(),
{
    broadcast use vstd::seq_lib::group_to_multiset_ensures;

    if a.len() == 0 {
        if b.len() > 0 {
            assert(b.to_set().contains(b[0]));
        }
        assert(means_of(g, stats, a) =~= means_of(g, stats, b));
    } else {
        let code = a.last();
        assert(a.to_set().contains(code));
        let i = choose|i: int| 0 <= i < b.len() && b[i] == code;
        let shorter = a.drop_last();
        let other = b.remove(i);
        assert(a.take(a.len() - 1) =~= shorter);
        assert(a.take(a.len() as int) =~= a);
        lemma_next_key(a, a.len() - 1);
        assert(other.no_duplicates()) by {
            assert forall|p: int, q: int|
                0 <= p < other.len() && 0 <= q < other.len() && p != q implies other[p]
                != other[q] by {
                assert(b[if p < i { p } else { p + 1 }] != b[if q < i { q } else { q + 1 }]);
            }
        }
        assert(shorter.no_duplicates());
        assert forall|c: u64| shorter.to_set().contains(c) <==> other.to_set().contains(c) by {
            assert(a.to_set().contains(c) <==> shorter.to_set().contains(c) || c == code);
            if other.to_set().contains(c) {
                let j = choose|j: int| 0 <= j < other.len() && other[j] == c;
                let k = if j < i { j } else { j + 1 };
                assert(b[k] == c);
                assert(b.to_set().contains(c));
            }
            if shorter.to_set().contains(c) {
                assert(b.to_set().contains(c));
                let k = choose|k: int| 0 <= k < b.len() && b[k] == c;
                assert(k != i);
                assert(other[if k < i { k } else { k - 1 }] == c);
            }
        }
        assert(shorter.to_set() =~= other.to_set());
        lemma_order_is_free(g, stats, shorter, other);
        let means_a = means_of(g, stats, a);
        let means_b = means_of(g, stats, b);
        assert(means_of(g, stats, shorter).push(stat_mean(g, stats[code])) =~= means_a);
        assert(means_of(g, stats, other) =~= means_b.remove(i));
        assert(means_b[i] == stat_mean(g, stats[code]));
        assert(means_b.contains(means_b[i]));
        let rest = means_b.remove(i).to_multiset();
        assert(means_b.to_multiset() =~= rest.insert(means_b[i]));
    }
}

/// Two downsamplings of a cloud at the same resolution, however they were made, hold
/// the same points as often.
pub proof fn downsampling_gives_the_same_points(
    g: Arithmetic,
    points: Seq<Point3>,
    voxel_size: Float32,
    a: Seq<Point3>,
    b: Seq<Point3>,
)
    requires
        is_downsampled(g, points, voxel_size, a),
        is_downsampled(g, points, voxel_size, b),
    ensures
        a.to_multiset() == b.to_multiset(),
{
    let stats = stats_of(g, points, voxel_size);
    let codes_a = choose|codes: Seq<u64>| #[trigger]
        lists_codes(stats, codes) && a == means_of(g, stats, codes);
    let codes_b = choose|codes: Seq<u64>| #[trigger]
        lists_codes(stats, codes) && b == means_of(g, stats, codes);
    lemma_order_is_free(g, stats, codes_a, codes_b);
}

/// A downsampled cloud has a point for each occupied voxel.
pub proof fn downsampling_gives_one_point_per_voxel(
    g: Arithmetic,
    points: Seq<Point3>,
    voxel_size: Float32,
    means: Seq<Point3>,
)
    requires
        is_downsampled(g, points, voxel_size, means),
    ensures
        means.len() == stats_of(g, points, voxel_size).dom().len(),
{
    let stats = stats_of(g, points, voxel_size);
    let codes = choose|codes: Seq<u64>| #[trigger]
        lists_codes(stats, codes) && means == means_of(g, stats, codes);
    codes.unique_seq_to_set();
}

/// Whether the index of `p` along each axis, counted in voxels from `min`, fits a code.
pub open spec fn fits_a_code(g: Arithmetic, p: Point3, min: Point3, inverse: Float32) -> bool {
    &&& (g.floor_u32)((g.product)((g.difference)(p.x, min.x), inverse)) <= 0x1f_ffff
    &&& (g.floor_u32)((g.product)((g.difference)(p.y, min.y), inverse)) <= 0x1f_ffff
    &&& (g.floor_u32)((g.product)((g.difference)(p.z, min.z), inverse)) <= 0x1f_ffff
}

/// Whether two points are in the same voxel: along each axis the floor of the way from
/// `min`, counted in voxels, is the same.
pub open spec fn share_a_voxel(
    g: Arithmetic,
    p: Point3,
    q: Point3,
    min: Point3,
    inverse: Float32,
) -> bool {
    let index = |a: Float32, low: Float32|
        (g.floor_u32)((g.product)((g.difference)(a, low), inverse));
    &&& index(p.x, min.x) == index(q.x, min.x)
    &&& index(p.y, min.y) == index(q.y, min.y)
    &&& index(p.z, min.z) == index(q.z, min.z)
}

/// Two points whose indices fit have the same code exactly where they are in the same
/// voxel.
pub proof fn codes_tell_voxels_apart(
    g: Arithmetic,
    p: Point3,
    q: Point3,
    min: Point3,
    inverse: Float32,
)
    requires
        fits_a_code(g, p, min, inverse),
        fits_a_code(g, q, min, inverse),
    ensures
        code_of(g, p, min, inverse) == code_of(g, q, min, inverse) <==> share_a_voxel(
            g,
            p,
            q,
            min,
            inverse,
        ),
{
    let index = |a: Float32, low: Float32|
        (g.floor_u32)((g.product)((g.difference)(a, low), inverse));
    if code_of(g, p, min, inverse) == code_of(g, q, min, inverse) {
        morton3d_is_injective(
            index(p.x, min.x),
            index(p.y, min.y),
            index(p.z, min.z),
            index(q.x, min.x),
            index(q.y, min.y),
            index(q.z, min.z),
        );
    }
}

/// Those of the first `k` points that are in the voxel of `p`, in their order.
pub open spec fn voxel_mates_upto(
    g: Arithmetic,
    points: Seq<Point3>,
    min: Point3,
    inverse: Float32,
    p: Point3,
    k: int,
) -> Seq<Point3>
    decreases k,
{
    if k <= 0 {
        Seq::empty()
    } else {
        let before = voxel_mates_upto(g, points, min, inverse, p, k - 1);
        if share_a_voxel(g, points[k - 1], p, min, inverse) {
            before.push(points[k - 1])
        } else {
            before
        }
    }
}

/// The first `k` of some points, added up one after the other.
pub open spec fn added_up(g: Arithmetic, points: Seq<Point3>, k: int) -> Point3
    decreases k,
{
    if k <= 0 {
        Point3 {
            x: Float32::zero_spec(),
            y: Float32::zero_spec(),
            z: Float32::zero_spec(),
        }
    } else {
        (g.vector_sum)(added_up(g, points, k - 1), points[k - 1])
    }
}

proof fn lemma_added_up_push(g: Arithmetic, points: Seq<Point3>, p: Point3, k: int)
    requires
        k <= points.len(),
    ensures
        added_up(g, points.push(p), k) == added_up(g, points, k),
    decreases k,
{
    if k > 0 {
        lemma_added_up_push(g, points, p, k - 1);
        assert(points.push(p)[k - 1] == points[k - 1]);
    }
}

proof fn lemma_voxel_mates(
    g: Arithmetic,
    points: Seq<Point3>,
    min: Point3,
    inverse: Float32,
    p: Point3,
    k: int,
)
    requires
        0 <= k <= points.len() <= usize::MAX,
        fits_a_code(g, p, min, inverse),
        forall|i: int|
            0 <= i < points.len() ==> fits_a_code(g, #[trigger] points[i], min, inverse),
    ensures
        ({
            let stats = stats_upto(g, points, min, inverse, k);
            let code = code_of(g, p, min, inverse);
            let mates = voxel_mates_upto(g, points, min, inverse, p, k);
            &&& mates.len() <= k
            &&& stats.contains_key(code) <==> mates.len() > 0
            &&& stats.contains_key(code) ==> stats[code].count == mates.len() && stats[code].sum
                == added_up(g, mates, mates.len() as int)
        }),
    decreases k,
{
    if k > 0 {
        lemma_voxel_mates(g, points, min, inverse, p, k - 1);
        let last = points[k - 1];
        codes_tell_voxels_apart(g, last, p, min, inverse);
        let before = voxel_mates_upto(g, points, min, inverse, p, k - 1);
        assert(fits_a_code(g, points[k - 1], min, inverse));
        if share_a_voxel(g, last, p, min, inverse) {
            lemma_added_up_push(g, before, last, before.len() as int);
            let now = before.push(last);
            assert(now[now.len() - 1] == last);
            assert(added_up(g, now, now.len() as int) == (g.vector_sum)(
                added_up(g, before, before.len() as int),
                last,
            ));
            assert(added_up(g, before, 0) == Point3::origin_spec());
        }
    }
}

/// The mean of the voxel of a point is that of all points of the cloud in the voxel, and of
/// no other ones: as often as there are points in the voxel, it is their sum, where
/// scaling by a number undoes scaling by its inverse. Points in other voxels, along
/// whichever axis they are apart, do not change it.
pub proof fn voxels_hold_the_mean_of_their_points(
    g: Arithmetic,
    points: Seq<Point3>,
    voxel_size: Float32,
    i: int,
)
    requires
        0 <= i < points.len() <= usize::MAX,
        forall|j: int|
            0 <= j < points.len() ==> fits_a_code(
                g,
                #[trigger] points[j],
                bounds_spec(points).0,
                inverse_spec(g, voxel_size),
            ),
        forall|v: Point3, s: Float32| #[trigger]
            (g.vector_scaled)(
                (g.vector_scaled)(v, (g.quotient)(Float32 { bits: F32_ONE }, s)),
                s,
            ) == v,
    ensures
        ({
            let min = bounds_spec(points).0;
            let inverse = inverse_spec(g, voxel_size);
            let stats = stats_of(g, points, voxel_size);
            let code = code_of(g, points[i], min, inverse);
            let mates = voxel_mates_upto(
                g,
                points,
                min,
                inverse,
                points[i],
                points.len() as int,
            );
            &&& stats.contains_key(code)
            &&& mates.contains(points[i])
            &&& stats[code].count == mates.len()
            &&& (g.vector_scaled)(
                stat_mean(g, stats[code]),
                (g.from_count)(mates.len() as u64),
            ) == added_up(g, mates, mates.len() as int)
        }),
{
    let min = bounds_spec(points).0;
    let inverse = inverse_spec(g, voxel_size);
    let len = points.len() as int;
    assert(fits_a_code(g, points[i], min, inverse));
    lemma_voxel_mates(g, points, min, inverse, points[i], len);
    lemma_is_a_mate(g, points, min, inverse, i, len);
    let mates = voxel_mates_upto(g, points, min, inverse, points[i], len);
    assert(mates.len() > 0);
}

proof fn lemma_is_a_mate(
    g: Arithmetic,
    points: Seq<Point3>,
    min: Point3,
    inverse: Float32,
    i: int,
    k: int,
)
    requires
        0 <= i < k <= points.len(),
    ensures
        voxel_mates_upto(g, points, min, inverse, points[i], k).contains(points[i]),
    decreases k,
{
    let before = voxel_mates_upto(g, points, min, inverse, points[i], k - 1);
    let now = voxel_mates_upto(g, points, min, inverse, points[i], k);
    if i < k - 1 {
        lemma_is_a_mate(g, points, min, inverse, i, k - 1);
        let j = before.index_of(points[i]);
        assert(now[j] == points[i]);
    } else {
        assert(now[before.len() as int] == points[i]);
    }
}

/// The inverse that indices are counted by, times the size of a voxel, is one, where a
/// quotient times its divisor is the dividend.
pub proof fn indices_are_counted_in_voxels(g: Arithmetic, voxel_size: Float32)
    requires
        (g.product)((g.quotient)(Float32 { bits: F32_ONE }, voxel_size), voxel_size)
            == (Float32 { bits: F32_ONE }),
    ensures
        (g.product)(inverse_spec(g, voxel_size), voxel_size) == (Float32 { bits: 0x3f80_0000 }),
{
}

/// Whether counting voxels never goes down: neither finite differences from a corner, nor
/// products with `inverse`, nor floors become smaller where a coordinate becomes larger,
/// and short floors are no larger than long ones.
pub open spec fn counts_go_up(g: Arithmetic, inverse: Float32) -> bool {
    &&& forall|a: Float32, b: Float32, low: Float32|
        a.is_finite_spec() && b.is_finite_spec() && low.is_finite_spec() && a.le_spec(b) ==> (
        #[trigger] (g.difference)(a, low)).le_spec(#[trigger] (g.difference)(b, low))
    &&& forall|a: Float32, b: Float32|
        a.le_spec(b) ==> (#[trigger] (g.product)(a, inverse)).le_spec(
            #[trigger] (g.product)(b, inverse),
        )
    &&& forall|a: Float32, b: Float32|
        a.le_spec(b) ==> #[trigger] (g.floor_u32)(a) <= #[trigger] (g.floor_u64)(b)
}

/// In a cloud whose extent does not exceed the codes, the indices of every point fit.
pub proof fn points_of_a_small_cloud_fit_their_codes(
    g: Arithmetic,
    points: Seq<Point3>,
    inverse: Float32,
    i: int,
)
    requires
        0 <= i < points.len(),
        forall|j: int| 0 <= j < points.len() ==> (#[trigger] points[j]).is_finite_spec(),
        counts_go_up(g, inverse),
        !extent_exceeded(g, bounds_spec(points).0, bounds_spec(points).1, inverse),
    ensures
        fits_a_code(g, points[i], bounds_spec(points).0, inverse),
{
    let (min, max) = bounds_spec(points);
    bounds_hold_every_point(points, i);
    bounds_are_coordinates_of_points(points, points.len() as int);
    let p = points[i];
    assert(p.is_finite_spec());
    assert(min.is_finite_spec());
    assert(max.is_finite_spec());
    assert((g.difference)(p.x, min.x).le_spec((g.difference)(max.x, min.x)));
    assert((g.difference)(p.y, min.y).le_spec((g.difference)(max.y, min.y)));
    assert((g.difference)(p.z, min.z).le_spec((g.difference)(max.z, min.z)));
    assert((g.product)((g.difference)(p.x, min.x), inverse).le_spec(
        (g.product)((g.difference)(max.x, min.x), inverse),
    ));
    assert((g.product)((g.difference)(p.y, min.y), inverse).le_spec(
        (g.product)((g.difference)(max.y, min.y), inverse),
    ));
    assert((g.product)((g.difference)(p.z, min.z), inverse).le_spec(
        (g.product)((g.difference)(max.z, min.z), inverse),
    ));
}

/// Each bound is a coordinate of a point along its axis, or still infinite.
pub proof fn bounds_are_coordinates_of_points(points: Seq<Point3>, k: int)
    requires
        0 <= k <= points.len(),
    ensures
        ({
            let (min, max) = bounds_upto(points, k);
            let high = Float32::infinity_spec();
            let low = high.neg_spec();
            &&& min.x == high || exists|i: int| 0 <= i < k && (#[trigger] points[i]).x == min.x
            &&& min.y == high || exists|i: int| 0 <= i < k && (#[trigger] points[i]).y == min.y
            &&& min.z == high || exists|i: int| 0 <= i < k && (#[trigger] points[i]).z == min.z
            &&& max.x == low || exists|i: int| 0 <= i < k && (#[trigger] points[i]).x == max.x
            &&& max.y == low || exists|i: int| 0 <= i < k && (#[trigger] points[i]).y == max.y
            &&& max.z == low || exists|i: int| 0 <= i < k && (#[trigger] points[i]).z == max.z
        }),
    decreases k,
{
    if k > 0 {
        bounds_are_coordinates_of_points(points, k - 1);
        let last = points[k - 1];
        assert(points[k - 1].x == last.x && points[k - 1].y == last.y && points[k - 1].z
            == last.z);
    }
}

} // verus!
