//! One frame, from its downsampled points to the next pose and the next maps.

use vstd::prelude::*;

use crate::classification::{
    epoch_for, is_delayed_judgement, observations_kept, SurfaceClassificationStats,
};
use crate::find_nearest_points::{MatchingLimits, PointCorrespondence};
use crate::float::Float64;
use crate::frame::{
    advance, advanced_info, are_global_points, global_source_points, map_update_allowed,
};
use crate::numerics::{
    computes, narrow_pose, narrow_pose_spec, Arithmetic, Numerics, Point3, Point3d, Pose, Pose64,
};
use crate::surface::SurfaceFilterConfig;
use crate::timing::{StageClock, TimingField};
use crate::tracking::{
    align_frame, alignment_start, comes_to, failed, AlignmentOutcome, AlignmentSettings,
};
use crate::types::{CurrentFrameInfo, SLAMMap};
use crate::voxel::VoxelKey;
use crate::voxel_map::{near_cells, only_voxels_changed, with_points, world_points_spec, LOCALMap};
use crate::voxelization::DownsampledPointCloud;
use crate::world_update::{is_filtered_update, WorldMapUpdateFilterConfig, WorldMapUpdateStats};

verus! {

/// How frames are processed. Frames are matched with the voxels of the local map, so the
/// size of the voxels is that of the map, whatever the limits here say.
#[derive(Clone, Copy, Debug)]
pub struct SlamSettings {
    pub alignment: AlignmentSettings,
    /// What makes a point fit for the map of the world.
    pub global_matching: MatchingLimits,
    pub world_update: WorldMapUpdateFilterConfig,
    pub surface: SurfaceFilterConfig,
    /// How old a frame is when the voxels that it changed are judged.
    pub surface_delay_frames: u64,
}

/// A frame: its points at two resolutions, and the motion that was predicted for it.
pub struct FrameInput {
    pub local_source: DownsampledPointCloud,
    pub global_source: DownsampledPointCloud,
    pub predicted_pose: Pose64,
    pub predicted_velocity: Point3d,
    pub previous_time: Float64,
    pub current_time: Float64,
}

/// What a frame came to.
#[derive(Clone, Copy, Debug)]
pub struct FrameResult {
    pub predicted: Pose,
    pub outcome: AlignmentOutcome,
    pub map_updated: bool,
    pub world_stats: WorldMapUpdateStats,
    pub surface_stats: SurfaceClassificationStats,
}

/// Whether a frame can be processed.
pub open spec fn is_ready(maps: SLAMMap, settings: SlamSettings) -> bool {
    &&& maps.global_voxel_map.wf()
    &&& maps.global_voxel_map.has_room()
    &&& maps.local_voxel_map.wf()
    &&& maps.local_voxel_map.has_room()
    &&& settings.alignment.matching.k > 0
    &&& settings.alignment.recovery_matching.k > 0
    &&& settings.global_matching.k > 0
    &&& settings.world_update.is_valid()
    &&& epoch_for(maps.global_voxel_map, settings.surface) <= u64::MAX
}

pub open spec fn no_update() -> WorldMapUpdateStats {
    WorldMapUpdateStats {
        input_points: 0,
        inserted_provisional: 0,
        projected_to_mature_plane: 0,
        held_pending: 0,
        rejected_non_finite: 0,
        pending_voxels: 0,
    }
}

/// Whether `r` and the state after it are what the frame makes of the state before,
/// where `points` go into the map of the world and `between` is that map before its
/// voxels are judged.
pub open spec fn is_frame_step(
    g: Arithmetic,
    settings: SlamSettings,
    before: SLAMMap,
    info: CurrentFrameInfo,
    input: FrameInput,
    points: Seq<Point3>,
    between: LOCALMap,
    after: SLAMMap,
    next: CurrentFrameInfo,
    r: FrameResult,
) -> bool {
    let local = before.local_voxel_map;
    let pose = narrow_pose_spec(g, next.current_global_pose);
    &&& r.predicted == narrow_pose_spec(g, input.predicted_pose)
    &&& next == advanced_info(
        g,
        info,
        r.outcome,
        input.predicted_velocity,
        input.previous_time,
        input.current_time,
    )
    &&& are_global_points(
        g,
        input.global_source.points@,
        input.global_source.voxel_map@,
        local.voxel_map@,
        settings.global_matching.over_voxels(local.config.index_voxel_size),
        r.outcome.pose,
        r.outcome.icp_ok,
        points,
    )
    &&& r.map_updated ==> is_filtered_update(
        g,
        before.global_voxel_map,
        points,
        next.current_global_pose,
        settings.world_update,
        between,
        r.world_stats,
    )
    &&& !r.map_updated ==> between == before.global_voxel_map && r.world_stats == no_update()
    &&& is_delayed_judgement(
        g,
        between,
        settings.surface_delay_frames,
        settings.surface,
        after.global_voxel_map,
        r.surface_stats,
    )
    &&& r.map_updated ==> after.local_voxel_map.voxel_map@ == near_cells(
        g,
        with_points(g, local, world_points_spec(g, pose, input.local_source.points@)),
        pose.translation,
        local.config.max_distance,
    )
}

/// The same, whatever the arithmetic is that `n` computes.
pub open spec fn steps_to<N: Numerics>(
    n: N,
    settings: SlamSettings,
    before: SLAMMap,
    info: CurrentFrameInfo,
    input: FrameInput,
    points: Seq<Point3>,
    between: LOCALMap,
    after: SLAMMap,
    next: CurrentFrameInfo,
    r: FrameResult,
) -> bool {
    forall|g: Arithmetic| #[trigger]
        computes(n, g) ==> is_frame_step(
            g,
            settings,
            before,
            info,
            input,
            points,
            between,
            after,
            next,
            r,
        )
}

/// Processes one frame: aligns it with the local map, moves the sensor, and adds the
/// frame to both maps where it may change them.
pub fn process_frame<N: Numerics, C: StageClock>(
    n: &N,
    clock: &mut C,
    settings: &SlamSettings,
    maps: &mut SLAMMap,
    info: &mut CurrentFrameInfo,
    input: &FrameInput,
) -> (r: FrameResult)
    requires
        is_ready(*old(maps), *settings),
    ensures
        final(maps).global_voxel_map.wf(),
        final(maps).local_voxel_map.wf(),
        r.map_updated == map_update_allowed(
            old(maps).local_voxel_map.voxel_map@.len() == 0,
            r.outcome.icp_ok,
        ),
        !r.outcome.icp_ok ==> r.outcome.pose == r.predicted && final(info).current_velocity
            == input.predicted_velocity,
        old(maps).local_voxel_map.voxel_map@.len() == 0 ==> r.outcome == failed(
            r.predicted,
            alignment_start(r.predicted),
        ),
        old(maps).local_voxel_map.voxel_map@.len() > 0 ==> exists|
            trace: Seq<Seq<PointCorrespondence>>,
            last: Seq<PointCorrespondence>,
        | #[trigger]
            comes_to(
                *n,
                settings.alignment.over_voxels(old(maps).local_voxel_map.config.index_voxel_size),
                r.predicted,
                input.local_source.voxel_map@,
                old(maps).local_voxel_map.voxel_map@,
                trace,
                last,
                r.outcome,
            ),
        !r.map_updated ==> final(maps).local_voxel_map == old(maps).local_voxel_map
            && observations_kept(
            old(maps).global_voxel_map.voxel_map@,
            final(maps).global_voxel_map.voxel_map@,
        ) && final(maps).global_voxel_map.next_frame_id == old(
            maps,
        ).global_voxel_map.next_frame_id,
        r.map_updated ==> only_voxels_changed(
            old(maps).local_voxel_map,
            final(maps).local_voxel_map,
        ) && final(maps).local_voxel_map.next_frame_id == old(maps).local_voxel_map.next_frame_id
            + 1 && final(maps).global_voxel_map.next_frame_id == old(
            maps,
        ).global_voxel_map.next_frame_id + 1,
        exists|points: Seq<Point3>, between: LOCALMap| #[trigger]
            steps_to(
                *n,
                *settings,
                *old(maps),
                *old(info),
                *input,
                points,
                between,
                *final(maps),
                *final(info),
                r,
            ),
{
    let predicted = narrow_pose(n, &input.predicted_pose);
    let voxel_size = maps.local_voxel_map.config.index_voxel_size;
    let alignment = settings.alignment.over_voxels(voxel_size);
    let outcome = align_frame(
        n,
        clock,
        &alignment,
        predicted,
        &input.local_source.voxel_map,
        &maps.local_voxel_map.voxel_map,
    );
    let ghost (trace, last) = choose|
        trace: Seq<Seq<PointCorrespondence>>,
        last: Seq<PointCorrespondence>,
    | #[trigger]
        comes_to(
            *n,
            alignment,
            predicted,
            input.local_source.voxel_map@,
            maps.local_voxel_map.voxel_map@,
            trace,
            last,
            outcome,
        );
    let ghost moved_from = *info;
    *info = advance(
        n,
        info,
        &outcome,
        input.predicted_velocity,
        input.previous_time,
        input.current_time,
    );
    let was_empty = maps.local_voxel_map.voxel_map.len() == 0;
    let map_updated = map_update_allowed(was_empty, outcome.icp_ok);
    clock.lap(TimingField::PoseUpdate);
    let points = global_source_points(
        n,
        &input.global_source.points,
        &input.global_source.voxel_map,
        &maps.local_voxel_map.voxel_map,
        &settings.global_matching.over_voxels(voxel_size),
        &outcome,
    );
    clock.lap(TimingField::GlobalFilter);
    let pose = info.current_global_pose;
    let mut world_stats = WorldMapUpdateStats {
        input_points: 0,
        inserted_provisional: 0,
        projected_to_mature_plane: 0,
        held_pending: 0,
        rejected_non_finite: 0,
        pending_voxels: 0,
    };
    if map_updated {
        world_stats =
        maps.global_voxel_map.update_world_map_filtered(
            n,
            &points,
            &pose,
            &settings.world_update,
        );
    }
    clock.lap(TimingField::GlobalMapUpdate);
    let ghost between = maps.global_voxel_map;
    let surface_stats = maps.global_voxel_map.classify_delayed_surface_voxels(
        n,
        settings.surface_delay_frames,
        &settings.surface,
    );
    clock.lap(TimingField::DelayedSurface);
    if map_updated {
        maps.local_voxel_map.update_with_new_frame(n, &input.local_source.points, &pose);
    }
    clock.lap(TimingField::LocalMapUpdate);
    let r = FrameResult { predicted, outcome, map_updated, world_stats, surface_stats };
    assert(old(maps).local_voxel_map.voxel_map@.len() > 0 ==> comes_to(
        *n,
        alignment,
        r.predicted,
        input.local_source.voxel_map@,
        old(maps).local_voxel_map.voxel_map@,
        trace,
        last,
        r.outcome,
    ));
    assert(steps_to(
        *n,
        *settings,
        *old(maps),
        moved_from,
        *input,
        points@,
        between,
        *maps,
        *info,
        r,
    ));
    r
}

/// A frame that does not change the maps leaves every voxel of the map of the world with
/// its points, and counts none; a frame that was not aligned goes on at the predicted
/// speed, and every frame stands where its alignment does.
pub proof fn frames_that_change_no_map_keep_its_points(
    g: Arithmetic,
    settings: SlamSettings,
    before: SLAMMap,
    info: CurrentFrameInfo,
    input: FrameInput,
    points: Seq<Point3>,
    between: LOCALMap,
    after: SLAMMap,
    next: CurrentFrameInfo,
    r: FrameResult,
    key: VoxelKey,
)
    requires
        is_frame_step(g, settings, before, info, input, points, between, after, next, r),
        before.global_voxel_map.voxel_map@.contains_key(key),
    ensures
        !r.map_updated ==> {
            let old_cell = before.global_voxel_map.voxel_map@[key];
            let new_cell = after.global_voxel_map.voxel_map@[key];
            &&& after.global_voxel_map.voxel_map@.dom() == before.global_voxel_map.voxel_map@.dom()
            &&& new_cell.mean == old_cell.mean && new_cell.m2 == old_cell.m2
            &&& new_cell.sample_count == old_cell.sample_count
            &&& new_cell.observed_frames == old_cell.observed_frames
            &&& after.global_voxel_map.next_frame_id == before.global_voxel_map.next_frame_id
            &&& r.world_stats.input_points == 0 && r.world_stats.held_pending == 0
        },
        next.current_global_pose.translation.x == (g.widen)(r.outcome.pose.translation.x),
        next.current_global_pose.translation.y == (g.widen)(r.outcome.pose.translation.y),
        next.current_global_pose.translation.z == (g.widen)(r.outcome.pose.translation.z),
        !r.outcome.icp_ok ==> next.current_velocity == input.predicted_velocity,
        r.predicted.translation.x == (g.narrow)(input.predicted_pose.translation.x),
        r.predicted.translation.y == (g.narrow)(input.predicted_pose.translation.y),
        r.predicted.translation.z == (g.narrow)(input.predicted_pose.translation.z),
{
}

} // verus!
