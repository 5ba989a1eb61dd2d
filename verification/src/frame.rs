//! What a frame does to the pose, to the maps and to the log.

use vstd::prelude::*;

use crate::cell::{SurfaceStatus, VoxelCell, VoxelMap};
use crate::find_nearest_points::{
    are_correspondences, lists_voxels, pickup_valid_source_points, MatchingLimits,
    PointCorrespondence,
};
use crate::float::{Float32, Float64, F64_ONE};
use crate::numerics::{
    computes, widen_pose, widen_pose_spec, Arithmetic, Numerics, Point3, Point3d, Pose, Pose64,
};
use crate::tracking::{correction_magnitudes, pose_correction_magnitudes, AlignmentOutcome};
use crate::types::{CurrentFrameInfo, FrameLog, FrameTiming, PointXYZIT};
use crate::voxel::VoxelKey;
use crate::voxel_map::LOCALMap;

verus! {

// ---------------------------------------------------------------------------
// Times
// ---------------------------------------------------------------------------

/// The earliest and the latest time of the first `k` points.
pub open spec fn times_upto(points: Seq<PointXYZIT>, k: int) -> (Float64, Float64)
    decreases k,
{
    if k <= 0 {
        (Float64::infinity_spec(), Float64::infinity_spec().neg_spec())
    } else {
        let (first, last) = times_upto(points, k - 1);
        (first.min_spec(points[k - 1].timestamp), last.max_spec(points[k - 1].timestamp))
    }
}

/// The earliest and the latest time of the points of a frame.
pub fn frame_time_range(points: &[PointXYZIT]) -> (r: (Float64, Float64))
    ensures
        r == times_upto(points@, points.len() as int),
{
    let mut first = Float64::infinity();
    let mut last = Float64::infinity().neg();
    let mut k: usize = 0;
    while k < points.len()
        invariant
            k <= points.len(),
            (first, last) == times_upto(points@, k as int),
        decreases points.len() - k,
    {
        first = first.min(points[k].timestamp);
        last = last.max(points[k].timestamp);
        k += 1;
    }
    (first, last)
}

// ---------------------------------------------------------------------------
// The pose
// ---------------------------------------------------------------------------

/// One microsecond: no two frames are taken to be closer than this.
pub const MIN_FRAME_INTERVAL: u64 = 0x3eb0_c6f7_a0b5_ed8d;

/// The bit pattern of 2.
pub const F64_TWO: u64 = 0x4000_0000_0000_0000;

/// The largest speed that is believed, in metres per second.
pub const MAX_SPEED: u64 = F64_TWO;

/// `v`, shortened to `max` where it is longer.
pub open spec fn capped(g: Arithmetic, v: Point3d, max: Float64) -> Point3d {
    let length = (g.norm64)(v);
    if max.lt_spec(length) {
        (g.vector_scaled64)(v, (g.quotient64)(max, length))
    } else {
        v
    }
}

/// The speed from `before` to `after`, by the time between the two frames.
pub open spec fn measured_velocity(
    g: Arithmetic,
    before: Point3d,
    after: Point3d,
    previous_time: Float64,
    current_time: Float64,
) -> Point3d {
    let interval = (g.difference64)(current_time, previous_time).max_spec(
        Float64 { bits: MIN_FRAME_INTERVAL },
    );
    capped(
        g,
        (g.vector_divided64)((g.vector_difference64)(after, before), interval),
        Float64 { bits: MAX_SPEED },
    )
}

/// Where the sensor is after a frame: at the pose that the alignment came to. Its speed
/// is the measured one where the alignment succeeded, and else the predicted one, so
/// that a failed alignment does not feed a jump back into the prediction.
pub open spec fn advanced_info(
    g: Arithmetic,
    info: CurrentFrameInfo,
    outcome: AlignmentOutcome,
    predicted_velocity: Point3d,
    previous_time: Float64,
    current_time: Float64,
) -> CurrentFrameInfo {
    let pose = widen_pose_spec(g, outcome.pose);
    CurrentFrameInfo {
        current_global_pose: pose,
        current_velocity: if outcome.icp_ok {
            measured_velocity(
                g,
                info.current_global_pose.translation,
                pose.translation,
                previous_time,
                current_time,
            )
        } else {
            predicted_velocity
        },
    }
}

pub fn advance<N: Numerics>(
    n: &N,
    info: &CurrentFrameInfo,
    outcome: &AlignmentOutcome,
    predicted_velocity: Point3d,
    previous_time: Float64,
    current_time: Float64,
) -> (r: CurrentFrameInfo)
    ensures
        !outcome.icp_ok ==> r.current_velocity == predicted_velocity,
        forall|g: Arithmetic| #[trigger]
            computes(*n, g) ==> r == advanced_info(
                g,
                *info,
                *outcome,
                predicted_velocity,
                previous_time,
                current_time,
            ),
{
    let pose = widen_pose(n, outcome.pose);
    let interval = n.difference64(current_time, previous_time).max(
        Float64 { bits: MIN_FRAME_INTERVAL },
    );
    let raw = n.vector_divided64(
        n.vector_difference64(pose.translation, info.current_global_pose.translation),
        interval,
    );
    let velocity = if outcome.icp_ok {
        let max = Float64 { bits: MAX_SPEED };
        let length = n.norm64(raw);
        if max.lt(length) {
            n.vector_scaled64(raw, n.quotient64(max, length))
        } else {
            raw
        }
    } else {
        predicted_velocity
    };
    CurrentFrameInfo { current_global_pose: pose, current_velocity: velocity }
}

/// How far the sensor moved from `before` to `after`, in metres and in degrees.
pub open spec fn motion_spec(g: Arithmetic, before: Pose64, after: Pose64) -> (Float64, Float64) {
    let one = Float64 { bits: F64_ONE };
    let turn = (g.matrix_product64)(after.rotation, before.rotation.transposed_spec());
    let cosine = (g.quotient64)(
        (g.difference64)((g.trace64)(turn), one),
        Float64 { bits: F64_TWO },
    ).clamp_spec(one.neg_spec(), one);
    (
        (g.norm64)((g.vector_difference64)(after.translation, before.translation)),
        (g.to_degrees64)((g.arc_cosine64)(cosine)),
    )
}

pub fn motion<N: Numerics>(n: &N, before: &Pose64, after: &Pose64) -> (r: (Float64, Float64))
    ensures
        forall|g: Arithmetic| #[trigger] computes(*n, g) ==> r == motion_spec(g, *before, *after),
{
    let one = Float64 { bits: F64_ONE };
    let turn = n.matrix_product64(after.rotation, before.rotation.transposed());
    let cosine = n.quotient64(
        n.difference64(n.trace64(turn), one),
        Float64 { bits: F64_TWO },
    ).clamp(one.neg(), one);
    (
        n.norm64(n.vector_difference64(after.translation, before.translation)),
        n.to_degrees64(n.arc_cosine64(cosine)),
    )
}

// ---------------------------------------------------------------------------
// The maps
// ---------------------------------------------------------------------------

/// Whether a frame may change the maps: the first one, and every one that was aligned.
pub open spec fn map_update_allowed_spec(local_map_was_empty: bool, icp_ok: bool) -> bool {
    local_map_was_empty || icp_ok
}

#[verifier::when_used_as_spec(map_update_allowed_spec)]
pub fn map_update_allowed(local_map_was_empty: bool, icp_ok: bool) -> (r: bool)
    ensures
        r == map_update_allowed_spec(local_map_was_empty, icp_ok),
{
    local_map_was_empty || icp_ok
}

/// The points of correspondences.
pub open spec fn source_points_of(found: Seq<PointCorrespondence>) -> Seq<Point3> {
    found.map_values(|c: PointCorrespondence| c.src_point)
}

/// Whether `r` are the points of a frame that go into the map of the world: none where
/// the frame may not change the maps, all where the local map was empty, and else those
/// that lie on a plane of the local map.
pub open spec fn are_global_points(
    g: Arithmetic,
    points: Seq<Point3>,
    sources: Map<VoxelKey, VoxelCell>,
    cells: Map<VoxelKey, VoxelCell>,
    limits: MatchingLimits,
    pose: Pose,
    icp_ok: bool,
    r: Seq<Point3>,
) -> bool {
    if cells.len() == 0 {
        r == points
    } else if !icp_ok {
        r == Seq::<Point3>::empty()
    } else {
        exists|found: Seq<PointCorrespondence>| #[trigger]
            are_correspondences(g, sources, cells, limits, pose, found) && r == source_points_of(
                found,
            )
    }
}

/// The points of a frame that go into the map of the world.
pub fn global_source_points<N: Numerics>(
    n: &N,
    points: &[Point3],
    source_map: &VoxelMap,
    local_map: &VoxelMap,
    limits: &MatchingLimits,
    outcome: &AlignmentOutcome,
) -> (r: Vec<Point3>)
    requires
        limits.k > 0,
    ensures
        local_map@.len() == 0 ==> r@ == points@,
        local_map@.len() > 0 && !outcome.icp_ok ==> r.len() == 0,
        forall|g: Arithmetic| #[trigger]
            computes(*n, g) ==> are_global_points(
                g,
                points@,
                source_map@,
                local_map@,
                *limits,
                outcome.pose,
                outcome.icp_ok,
                r@,
            ),
{
    let mut r: Vec<Point3> = Vec::new();
    if local_map.len() == 0 {
        let mut k: usize = 0;
        while k < points.len()
            invariant
                k <= points.len(),
                r@ == points@.take(k as int),
            decreases points.len() - k,
        {
            r.push(points[k]);
            k += 1;
            assert(r@ =~= points@.take(k as int));
        }
        assert(r@ =~= points@);
        return r;
    }
    if !outcome.icp_ok {
        return r;
    }
    let found = pickup_valid_source_points(
        n,
        source_map,
        local_map,
        limits,
        outcome.pose.rotation,
        outcome.pose.translation,
    );
    let mut k: usize = 0;
    while k < found.len()
        invariant
            k <= found.len(),
            r.len() == k,
            forall|j: int| 0 <= j < k ==> #[trigger] r[j] == found[j].src_point,
        decreases found.len() - k,
    {
        r.push(found[k].src_point);
        k += 1;
    }
    assert(r@ =~= source_points_of(found@));
    r
}

/// Whether a cell was seen often enough to be written out.
pub open spec fn is_exported(map: LOCALMap, cell: VoxelCell, planar_only: bool) -> bool {
    &&& cell.sample_count >= map.config.min_points_per_voxel
    &&& cell.observed_frames >= map.config.min_observed_frames_per_voxel
    &&& planar_only ==> cell.surface_status == SurfaceStatus::Planar
}

/// The means of the exported cells among the first `k` of `keys`.
pub open spec fn exported_upto(
    map: LOCALMap,
    keys: Seq<VoxelKey>,
    planar_only: bool,
    k: int,
) -> Seq<Point3>
    decreases k,
{
    if k <= 0 {
        Seq::empty()
    } else {
        let before = exported_upto(map, keys, planar_only, k - 1);
        let cell = map.voxel_map@[keys[k - 1]];
        if is_exported(map, cell, planar_only) {
            before.push(cell.mean)
        } else {
            before
        }
    }
}

/// The means of the voxels that were seen often enough; only of the planar ones, where
/// `planar_only`.
pub fn exported_points(map: &LOCALMap, planar_only: bool) -> (r: Vec<Point3>)
    ensures
        exists|keys: Seq<VoxelKey>| #[trigger]
            lists_voxels(map.voxel_map@, keys) && r@ == exported_upto(
                *map,
                keys,
                planar_only,
                keys.len() as int,
            ),
{
    let keys = map.voxel_map.keys();
    let mut r: Vec<Point3> = Vec::new();
    let mut k: usize = 0;
    while k < keys.len()
        invariant
            k <= keys.len(),
            lists_voxels(map.voxel_map@, keys@),
            r@ == exported_upto(*map, keys@, planar_only, k as int),
        decreases keys.len() - k,
    {
        assert(keys@.to_set().contains(keys[k as int]));
        if let Some(cell) = map.voxel_map.get(keys[k]) {
            if cell.sample_count >= map.config.min_points_per_voxel as u64
                && cell.observed_frames >= map.config.min_observed_frames_per_voxel as u64 && (
            !planar_only || cell.surface_status == SurfaceStatus::Planar) {
                r.push(cell.mean);
            }
        }
        k += 1;
    }
    r
}

// ---------------------------------------------------------------------------
// The log
// ---------------------------------------------------------------------------

/// What is recorded of a frame.
pub open spec fn frame_log_spec(
    g: Arithmetic,
    frame_index: usize,
    timestamp: Float64,
    before: CurrentFrameInfo,
    after: CurrentFrameInfo,
    predicted: Pose,
    outcome: AlignmentOutcome,
    map_updated: bool,
    timing: FrameTiming,
) -> FrameLog {
    let (translation_m, rotation_deg) = motion_spec(
        g,
        before.current_global_pose,
        after.current_global_pose,
    );
    let (shift, turn) = if outcome.icp_ok {
        correction_magnitudes(g, predicted, outcome.pose)
    } else {
        (Float32::zero_spec(), Float32::zero_spec())
    };
    let position = after.current_global_pose.translation;
    FrameLog {
        frame_index,
        timestamp,
        icp_ok: outcome.icp_ok,
        rmse: match outcome.final_rmse {
            Some(rmse) => if rmse.is_finite_spec() {
                Some(rmse)
            } else {
                None
            },
            None => None,
        },
        correspondence_count: outcome.correspondence_count,
        correspondence_ratio: outcome.correspondence_ratio,
        observable_rank: outcome.observable_rank,
        min_observable_eigenvalue_ratio: outcome.eigenvalue_ratio,
        icp_translation_correction_m: shift,
        icp_rotation_correction_deg: turn,
        map_updated,
        translation_m,
        rotation_deg,
        velocity_m_s: (g.norm64)(after.current_velocity),
        pose_x: position.x,
        pose_y: position.y,
        pose_z: position.z,
        timing,
    }
}

pub fn frame_log<N: Numerics>(
    n: &N,
    frame_index: usize,
    timestamp: Float64,
    before: &CurrentFrameInfo,
    after: &CurrentFrameInfo,
    predicted: Pose,
    outcome: &AlignmentOutcome,
    map_updated: bool,
    timing: FrameTiming,
) -> (r: FrameLog)
    ensures
        r.rmse matches Some(rmse) ==> rmse.is_finite_spec(),
        forall|g: Arithmetic| #[trigger]
            computes(*n, g) ==> r == frame_log_spec(
                g,
                frame_index,
                timestamp,
                *before,
                *after,
                predicted,
                *outcome,
                map_updated,
                timing,
            ),
{
    let (translation_m, rotation_deg) = motion(
        n,
        &before.current_global_pose,
        &after.current_global_pose,
    );
    let (shift, turn) = if outcome.icp_ok {
        pose_correction_magnitudes(n, predicted, outcome.pose)
    } else {
        (Float32::zero(), Float32::zero())
    };
    let position = after.current_global_pose.translation;
    let rmse = match outcome.final_rmse {
        Some(rmse) => if rmse.is_finite() {
            Some(rmse)
        } else {
            None
        },
        None => None,
    };
    FrameLog {
        frame_index,
        timestamp,
        icp_ok: outcome.icp_ok,
        rmse,
        correspondence_count: outcome.correspondence_count,
        correspondence_ratio: outcome.correspondence_ratio,
        observable_rank: outcome.observable_rank,
        min_observable_eigenvalue_ratio: outcome.eigenvalue_ratio,
        icp_translation_correction_m: shift,
        icp_rotation_correction_deg: turn,
        map_updated,
        translation_m,
        rotation_deg,
        velocity_m_s: n.norm64(after.current_velocity),
        pose_x: position.x,
        pose_y: position.y,
        pose_z: position.z,
        timing,
    }
}

// ---------------------------------------------------------------------------
// What a frame changes
// ---------------------------------------------------------------------------

/// The first time of a cloud is at or before that of each point, the last one is at or
/// after it, and both are times of points, where all of them are finite.
pub proof fn frame_times_enclose_the_points(points: Seq<PointXYZIT>, k: int, i: int)
    requires
        0 <= i < k <= points.len(),
        forall|j: int| 0 <= j < k ==> (#[trigger] points[j]).timestamp.is_finite_spec(),
    ensures
        times_upto(points, k).0.le_spec(points[i].timestamp),
        points[i].timestamp.le_spec(times_upto(points, k).1),
        exists|j: int| 0 <= j < k && (#[trigger] points[j]).timestamp == times_upto(points, k).0,
        exists|j: int| 0 <= j < k && (#[trigger] points[j]).timestamp == times_upto(points, k).1,
    decreases k,
{
    reveal_with_fuel(times_upto, 2);
    let now = points[k - 1].timestamp;
    if k > 1 {
        frame_times_enclose_the_points(
            points,
            k - 1,
            if i < k - 1 {
                i
            } else {
                0
            },
        );
        let (first, last) = times_upto(points, k - 1);
        let a = choose|j: int| 0 <= j < k - 1 && (#[trigger] points[j]).timestamp == first;
        let b = choose|j: int| 0 <= j < k - 1 && (#[trigger] points[j]).timestamp == last;
        assert(points[a].timestamp == first && points[b].timestamp == last);
        assert(times_upto(points, k).0 == first || times_upto(points, k).0 == now);
        assert(times_upto(points, k).1 == last || times_upto(points, k).1 == now);
    } else {
        assert(times_upto(points, 0) == (
            Float64::infinity_spec(),
            Float64::infinity_spec().neg_spec(),
        ));
        assert(times_upto(points, 1) == (now, now));
    }
}

/// A velocity is kept where it is not above the limit, and is else shortened to the limit
/// along its own direction, where a vector scaled by a factor is that factor as long.
pub proof fn velocities_are_shortened_to_the_limit(g: Arithmetic, v: Point3d, max: Float64)
    requires
        (g.norm64)((g.vector_scaled64)(v, (g.quotient64)(max, (g.norm64)(v)))) == (g.product64)(
            (g.quotient64)(max, (g.norm64)(v)),
            (g.norm64)(v),
        ),
        (g.product64)((g.quotient64)(max, (g.norm64)(v)), (g.norm64)(v)) == max,
    ensures
        (g.norm64)(v).le_spec(max) ==> capped(g, v, max) == v,
        max.lt_spec((g.norm64)(v)) ==> (g.norm64)(capped(g, v, max)) == max,
        max.lt_spec((g.norm64)(v)) ==> exists|factor: Float64|
            capped(g, v, max) == #[trigger] (g.vector_scaled64)(v, factor),
{
}

/// The velocity times the time between two frames is the way between their places, where
/// a vector divided by a number and scaled by it is the vector again, unless the velocity
/// is above two meters a second. Frames are at least a microsecond apart.
pub proof fn velocities_lead_from_place_to_place(
    g: Arithmetic,
    before: Point3d,
    after: Point3d,
    previous_time: Float64,
    current_time: Float64,
)
    requires
        forall|v: Point3d, s: Float64| #[trigger]
            (g.vector_scaled64)((g.vector_divided64)(v, s), s) == v,
    ensures
        ({
            let velocity = measured_velocity(g, before, after, previous_time, current_time);
            let least = Float64 { bits: 0x3eb0_c6f7_a0b5_ed8d };
            let limit = Float64 { bits: 0x4000_0000_0000_0000 };
            let interval = (g.difference64)(current_time, previous_time);
            let way = (g.vector_difference64)(after, before);
            &&& least.le_spec(interval) && (g.norm64)((g.vector_divided64)(way, interval)).le_spec(
                limit,
            ) ==> (g.vector_scaled64)(velocity, interval) == way
            &&& interval.lt_spec(least) && (g.norm64)((g.vector_divided64)(way, least)).le_spec(
                limit,
            ) ==> (g.vector_scaled64)(velocity, least) == way
        }),
{
}

/// After a frame the pose is that of the alignment, and the velocity is that from the pose
/// before to it where the alignment held, and the predicted one where it did not.
pub proof fn frames_advance_to_their_alignment(
    g: Arithmetic,
    info: CurrentFrameInfo,
    outcome: AlignmentOutcome,
    predicted_velocity: Point3d,
    previous_time: Float64,
    current_time: Float64,
)
    ensures
        ({
            let next = advanced_info(
                g,
                info,
                outcome,
                predicted_velocity,
                previous_time,
                current_time,
            );
            let place = next.current_global_pose.translation;
            &&& place.x == (g.widen)(outcome.pose.translation.x)
            &&& place.y == (g.widen)(outcome.pose.translation.y)
            &&& place.z == (g.widen)(outcome.pose.translation.z)
            &&& next.current_global_pose.rotation.c0.y == (g.widen)(outcome.pose.rotation.c0.y)
            &&& next.current_global_pose.rotation.c1.x == (g.widen)(outcome.pose.rotation.c1.x)
            &&& !outcome.icp_ok ==> next.current_velocity == predicted_velocity
            &&& outcome.icp_ok ==> next.current_velocity == measured_velocity(
                g,
                info.current_global_pose.translation,
                place,
                previous_time,
                current_time,
            )
        }),
{
}

/// The motion between two poses is the length of the way between their places, and the
/// angle whose cosine is half of the trace of the turn between them, less one. From a
/// pose to itself it is none, where the operations say so of a pose and itself.
pub proof fn motion_is_the_way_and_the_turn(g: Arithmetic, before: Pose64, after: Pose64)
    ensures
        ({
            let one = Float64 { bits: 0x3ff0_0000_0000_0000 };
            let two = Float64 { bits: 0x4000_0000_0000_0000 };
            let zero = Float64::zero_spec();
            let (way, turn) = motion_spec(g, before, after);
            let between = (g.matrix_product64)(after.rotation, before.rotation.transposed_spec());
            let cosine = (g.quotient64)((g.difference64)((g.trace64)(between), one), two);
            &&& way == (g.norm64)((g.vector_difference64)(after.translation, before.translation))
            &&& one.neg_spec().le_spec(cosine) && cosine.le_spec(one) ==> turn
                == (g.to_degrees64)((g.arc_cosine64)(cosine))
            &&& one.lt_spec(cosine) ==> turn == (g.to_degrees64)((g.arc_cosine64)(one))
            &&& cosine.lt_spec(one.neg_spec()) ==> turn == (g.to_degrees64)(
                (g.arc_cosine64)(one.neg_spec()),
            )
            &&& after == before && (g.norm64)(
                (g.vector_difference64)(after.translation, after.translation),
            ) == zero && cosine == one && (g.to_degrees64)((g.arc_cosine64)(one)) == zero ==> (
                way,
                turn,
            ) == (zero, zero)
        }),
{
}

/// The map is changed by its first frame and by every frame that was aligned, and by no
/// other.
pub proof fn maps_grow_by_aligned_frames(local_map_was_empty: bool, icp_ok: bool)
    ensures
        icp_ok ==> map_update_allowed_spec(local_map_was_empty, icp_ok),
        local_map_was_empty ==> map_update_allowed_spec(local_map_was_empty, icp_ok),
        !icp_ok && !local_map_was_empty ==> !map_update_allowed_spec(local_map_was_empty, icp_ok),
{
}

/// The first frame brings all of its points into the map, a frame that was not aligned
/// none, and any other the means of those of its voxels that correspond.
pub proof fn frames_bring_the_points_that_correspond(
    g: Arithmetic,
    points: Seq<Point3>,
    sources: Map<VoxelKey, VoxelCell>,
    cells: Map<VoxelKey, VoxelCell>,
    limits: MatchingLimits,
    pose: Pose,
    icp_ok: bool,
    r: Seq<Point3>,
)
    requires
        are_global_points(g, points, sources, cells, limits, pose, icp_ok, r),
    ensures
        cells.len() == 0 ==> r == points,
        cells.len() != 0 && !icp_ok ==> r.len() == 0,
        cells.len() != 0 && icp_ok ==> exists|found: Seq<PointCorrespondence>| #[trigger]
            are_correspondences(g, sources, cells, limits, pose, found) && r.len() == found.len()
                && forall|i: int| 0 <= i < found.len() ==> #[trigger] r[i] == found[i].src_point,
{
}

/// Every voxel that holds enough points of enough frames, and is planar where only those
/// are wanted, is exported at its mean, and nothing else is.
pub proof fn exports_hold_the_means_of_wanted_voxels(
    map: LOCALMap,
    keys: Seq<VoxelKey>,
    planar_only: bool,
    k: int,
    p: Point3,
)
    requires
        0 <= k <= keys.len(),
    ensures
        exported_upto(map, keys, planar_only, k).contains(p) <==> exists|i: int|
            0 <= i < k && (#[trigger] map.voxel_map@[keys[i]]).mean == p
                && map.voxel_map@[keys[i]].sample_count >= map.config.min_points_per_voxel
                && map.voxel_map@[keys[i]].observed_frames
                >= map.config.min_observed_frames_per_voxel && (planar_only
                ==> map.voxel_map@[keys[i]].surface_status is Planar),
        exported_upto(map, keys, planar_only, k).len() <= k,
    decreases k,
{
    if k > 0 {
        exports_hold_the_means_of_wanted_voxels(map, keys, planar_only, k - 1, p);
        let before = exported_upto(map, keys, planar_only, k - 1);
        let now = exported_upto(map, keys, planar_only, k);
        let cell = map.voxel_map@[keys[k - 1]];
        if is_exported(map, cell, planar_only) {
            assert(now == before.push(cell.mean));
            assert(now[now.len() - 1] == cell.mean);
            if before.contains(p) {
                let j = before.index_of(p);
                assert(now[j] == p);
            }
            if now.contains(p) && p != cell.mean {
                let j = now.index_of(p);
                assert(before[j] == p);
            }
        }
    }
}

/// A frame's entry in the log is of its own numbers: where it was aligned, with the
/// correction that the alignment made to the prediction, and else with none; an error
/// that is not finite is left out.
pub proof fn frames_are_logged_as_they_went(
    g: Arithmetic,
    frame_index: usize,
    timestamp: Float64,
    before: CurrentFrameInfo,
    after: CurrentFrameInfo,
    predicted: Pose,
    outcome: AlignmentOutcome,
    map_updated: bool,
    timing: FrameTiming,
)
    ensures
        ({
            let log = frame_log_spec(
                g,
                frame_index,
                timestamp,
                before,
                after,
                predicted,
                outcome,
                map_updated,
                timing,
            );
            let zero = Float32::zero_spec();
            let place = after.current_global_pose.translation;
            let way = (g.vector_difference64)(place, before.current_global_pose.translation);
            &&& log.frame_index == frame_index && log.timestamp == timestamp
            &&& log.icp_ok == outcome.icp_ok && log.map_updated == map_updated
            &&& log.timing == timing
            &&& log.correspondence_count == outcome.correspondence_count
            &&& log.correspondence_ratio == outcome.correspondence_ratio
            &&& log.observable_rank == outcome.observable_rank
            &&& log.min_observable_eigenvalue_ratio == outcome.eigenvalue_ratio
            &&& log.rmse matches Some(rmse) ==> outcome.final_rmse == Some(rmse)
                && rmse.is_finite_spec()
            &&& outcome.final_rmse matches Some(rmse) ==> (log.rmse is Some
                <==> rmse.is_finite_spec())
            &&& outcome.final_rmse is None ==> log.rmse is None
            &&& log.translation_m == (g.norm64)(way)
            &&& log.rotation_deg == motion_spec(
                g,
                before.current_global_pose,
                after.current_global_pose,
            ).1
            &&& log.velocity_m_s == (g.norm64)(after.current_velocity)
            &&& log.pose_x == place.x && log.pose_y == place.y && log.pose_z == place.z
            &&& !outcome.icp_ok ==> log.icp_translation_correction_m == zero
                && log.icp_rotation_correction_deg == zero
            &&& outcome.icp_ok ==> log.icp_translation_correction_m == (g.norm)(
                (g.vector_difference)(outcome.pose.translation, predicted.translation),
            ) && log.icp_rotation_correction_deg == correction_magnitudes(
                g,
                predicted,
                outcome.pose,
            ).1
        }),
{
}

} // verus!
