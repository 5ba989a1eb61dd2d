//! The alignment of a frame with the local map: repeated matching and solving from
//! the predicted pose, with limits on every step and on the result.

use vstd::prelude::*;

use crate::cell::{VoxelCell, VoxelMap};
use crate::find_nearest_points::{
    are_correspondences, pickup_valid_source_points, MatchingLimits, PointCorrespondence,
};
use crate::float::{Float32, F32_HALF, F32_ONE};
use crate::icp::{
    apply_delta, build_robust_point_to_plane_system, compute_rmse, compute_robust_cost,
    observable_step, rmse_spec, robust_cost_spec, solve_icp_delta_observable, stepped, system_of,
};
use crate::matrix6::Vector6;
use crate::numerics::{computes, Arithmetic, Numerics, Point3, Pose};
use crate::timing::{StageClock, TimingField};
use crate::voxel::VoxelKey;

verus! {

/// How frames are aligned.
#[derive(Clone, Copy, Debug)]
pub struct AlignmentSettings {
    pub iterations: usize,
    pub huber_delta_m: Float32,
    pub min_correspondences: usize,
    /// The least share of the points that must correspond.
    pub min_correspondence_ratio: Float32,
    pub min_observable_rank: usize,
    pub relative_eigenvalue_threshold: Float32,
    pub damping: Float32,
    pub max_final_rmse_m: Float32,
    /// How far from the prediction the result may be.
    pub max_translation_correction_m: Float32,
    pub max_rotation_correction_deg: Float32,
    pub rmse_change_threshold_m: Float32,
    pub translation_delta_threshold_m: Float32,
    pub rotation_delta_threshold_deg: Float32,
    pub matching: MatchingLimits,
    /// The wider matching that is tried once where the normal one finds too little.
    pub recovery_matching: MatchingLimits,
    pub recovery_max_translation_correction_m: Float32,
}

/// The settings for a sparse cloud: eight iterations, at least 100 correspondences and a
/// twentieth of the points, corrections of at most 10 cm (60 cm after the wider
/// matching) and 2 degrees.
pub open spec fn default_settings() -> AlignmentSettings {
    let matching = MatchingLimits {
        target_voxel_size: Float32 { bits: 0x3e80_0000 },
        search_range: 3,
        k: 5,
        max_dist_factor: Float32 { bits: 0x4040_0000 },
        plane_point_distance_threshold: Float32 { bits: 0x3e80_0000 },
        source_plane_score_threshold: Float32 { bits: 0x3f59_999a },
        source_to_plane_max_distance: Some(Float32 { bits: 0x3e19_999a }),
        min_planarity: Some(Float32 { bits: 0x3dcc_cccd }),
    };
    let recovery_matching = MatchingLimits {
        target_voxel_size: matching.target_voxel_size,
        search_range: 6,
        k: 5,
        max_dist_factor: Float32 { bits: 0x40c0_0000 },
        plane_point_distance_threshold: matching.plane_point_distance_threshold,
        source_plane_score_threshold: Float32::zero_spec(),
        source_to_plane_max_distance: Some(Float32 { bits: 0x3f19_999a }),
        min_planarity: matching.min_planarity,
    };
    AlignmentSettings {
        iterations: 8,
        huber_delta_m: Float32 { bits: 0x3da3_d70a },
        min_correspondences: 100,
        min_correspondence_ratio: Float32 { bits: 0x3d4c_cccd },
        min_observable_rank: 3,
        relative_eigenvalue_threshold: Float32 { bits: 0x3ca3_d70a },
        damping: Float32 { bits: 0x3586_37bd },
        max_final_rmse_m: Float32 { bits: 0x3e19_999a },
        max_translation_correction_m: Float32 { bits: 0x3dcc_cccd },
        max_rotation_correction_deg: Float32 { bits: 0x4000_0000 },
        rmse_change_threshold_m: Float32 { bits: 0x38d1_b717 },
        translation_delta_threshold_m: Float32 { bits: 0x3a83_126f },
        rotation_delta_threshold_deg: Float32 { bits: 0x3c23_d70a },
        matching,
        recovery_matching,
        recovery_max_translation_correction_m: Float32 { bits: 0x3f19_999a },
    }
}

impl Default for AlignmentSettings {
    fn default() -> (r: AlignmentSettings)
        ensures
            r == default_settings(),
    {
        let matching = MatchingLimits {
            target_voxel_size: Float32 { bits: 0x3e80_0000 },
            search_range: 3,
            k: 5,
            max_dist_factor: Float32 { bits: 0x4040_0000 },
            plane_point_distance_threshold: Float32 { bits: 0x3e80_0000 },
            source_plane_score_threshold: Float32 { bits: 0x3f59_999a },
            source_to_plane_max_distance: Some(Float32 { bits: 0x3e19_999a }),
            min_planarity: Some(Float32 { bits: 0x3dcc_cccd }),
        };
        let recovery_matching = MatchingLimits {
            target_voxel_size: matching.target_voxel_size,
            search_range: 6,
            k: 5,
            max_dist_factor: Float32 { bits: 0x40c0_0000 },
            plane_point_distance_threshold: matching.plane_point_distance_threshold,
            source_plane_score_threshold: Float32::zero(),
            source_to_plane_max_distance: Some(Float32 { bits: 0x3f19_999a }),
            min_planarity: matching.min_planarity,
        };
        AlignmentSettings {
            iterations: 8,
            huber_delta_m: Float32 { bits: 0x3da3_d70a },
            min_correspondences: 100,
            min_correspondence_ratio: Float32 { bits: 0x3d4c_cccd },
            min_observable_rank: 3,
            relative_eigenvalue_threshold: Float32 { bits: 0x3ca3_d70a },
            damping: Float32 { bits: 0x3586_37bd },
            max_final_rmse_m: Float32 { bits: 0x3e19_999a },
            max_translation_correction_m: Float32 { bits: 0x3dcc_cccd },
            max_rotation_correction_deg: Float32 { bits: 0x4000_0000 },
            rmse_change_threshold_m: Float32 { bits: 0x38d1_b717 },
            translation_delta_threshold_m: Float32 { bits: 0x3a83_126f },
            rotation_delta_threshold_deg: Float32 { bits: 0x3c23_d70a },
            matching,
            recovery_matching,
            recovery_max_translation_correction_m: Float32 { bits: 0x3f19_999a },
        }
    }
}

impl AlignmentSettings {
    /// The same settings for a map with voxels of this size.
    pub open spec fn over_voxels_spec(self, size: Float32) -> AlignmentSettings {
        AlignmentSettings {
            matching: self.matching.over_voxels_spec(size),
            recovery_matching: self.recovery_matching.over_voxels_spec(size),
            ..self
        }
    }

    #[verifier::when_used_as_spec(over_voxels_spec)]
    pub fn over_voxels(self, size: Float32) -> (r: AlignmentSettings)
        ensures
            r == self.over_voxels_spec(size),
    {
        AlignmentSettings {
            matching: self.matching.over_voxels(size),
            recovery_matching: self.recovery_matching.over_voxels(size),
            ..self
        }
    }
}

/// An alignment on its way.
#[derive(Clone, Copy, Debug)]
pub struct AlignmentState {
    pub pose: Pose,
    pub previous_rmse: Option<Float32>,
    pub final_rmse: Option<Float32>,
    pub correspondence_count: usize,
    pub correspondence_ratio: Float32,
    pub observable_rank: usize,
    pub eigenvalue_ratio: Option<Float32>,
    /// Whether a step was taken.
    pub icp_ok: bool,
    pub recovery_attempted: bool,
    /// Whether the next matching is the wider one.
    pub use_recovery: bool,
    /// Whether the pose comes from a step after the wider matching.
    pub recovery_pose: bool,
    /// Whether another iteration follows.
    pub running: bool,
}

pub open spec fn alignment_start(predicted: Pose) -> AlignmentState {
    AlignmentState {
        pose: predicted,
        previous_rmse: None,
        final_rmse: None,
        correspondence_count: 0,
        correspondence_ratio: Float32::zero_spec(),
        observable_rank: 0,
        eigenvalue_ratio: None,
        icp_ok: false,
        recovery_attempted: false,
        use_recovery: false,
        recovery_pose: false,
        running: true,
    }
}

fn start(predicted: Pose) -> (r: AlignmentState)
    ensures
        r == alignment_start(predicted),
{
    AlignmentState {
        pose: predicted,
        previous_rmse: None,
        final_rmse: None,
        correspondence_count: 0,
        correspondence_ratio: Float32::zero(),
        observable_rank: 0,
        eigenvalue_ratio: None,
        icp_ok: false,
        recovery_attempted: false,
        use_recovery: false,
        recovery_pose: false,
        running: true,
    }
}

// ---------------------------------------------------------------------------
// Parts of an iteration
// ---------------------------------------------------------------------------

/// How many correspondences a frame of `source_count` points needs.
pub open spec fn required_correspondences(
    g: Arithmetic,
    settings: AlignmentSettings,
    source_count: usize,
) -> int {
    let share = (g.ceil_u64)(
        (g.product)(
            (g.from_count)(source_count as u64),
            settings.min_correspondence_ratio,
        ),
    );
    if share <= usize::MAX && share > settings.min_correspondences {
        share as int
    } else if share > usize::MAX {
        usize::MAX as int
    } else {
        settings.min_correspondences as int
    }
}

pub fn min_correspondences<N: Numerics>(
    n: &N,
    settings: &AlignmentSettings,
    source_count: usize,
) -> (r: usize)
    ensures
        r >= settings.min_correspondences,
        forall|g: Arithmetic| #[trigger]
            computes(*n, g) ==> r == required_correspondences(g, *settings, source_count),
{
    let share: u64 = n.ceil_u64(
        n.product(n.from_count(source_count as u64), settings.min_correspondence_ratio),
    );
    let share: usize = if share > usize::MAX as u64 { usize::MAX } else { share as usize };
    if share > settings.min_correspondences {
        share
    } else {
        settings.min_correspondences
    }
}

/// The share of the points that correspond.
pub open spec fn ratio_spec(g: Arithmetic, found: int, source_count: usize) -> Float32 {
    if source_count > 0 {
        (g.quotient)((g.from_count)(found as u64), (g.from_count)(source_count as u64))
    } else {
        Float32::zero_spec()
    }
}

fn correspondence_ratio<N: Numerics>(n: &N, found: usize, source_count: usize) -> (r: Float32)
    ensures
        forall|g: Arithmetic| #[trigger]
            computes(*n, g) ==> r == ratio_spec(g, found as int, source_count),
{
    if source_count > 0 {
        n.quotient(n.from_count(found as u64), n.from_count(source_count as u64))
    } else {
        Float32::zero()
    }
}

/// `delta` without its rotation and its horizontal shift.
pub open spec fn vertical_part(delta: Vector6) -> Vector6 {
    Vector6 { e5: delta.e5, ..Vector6::zeros_spec() }
}

pub fn retain_world_z_translation(delta: &Vector6) -> (r: Vector6)
    ensures
        r == vertical_part(*delta),
{
    let zero = Float32::zero();
    Vector6 { e0: zero, e1: zero, e2: zero, e3: zero, e4: zero, e5: delta.e5 }
}

/// How far `candidate` is from `reference`, in metres and in degrees.
pub open spec fn correction_magnitudes(
    g: Arithmetic,
    reference: Pose,
    candidate: Pose,
) -> (Float32, Float32) {
    let one = Float32 { bits: F32_ONE };
    let turn = (g.matrix_product)(candidate.rotation, reference.rotation.transposed_spec());
    let cosine = (g.product)(
        (g.difference)((g.trace)(turn), one),
        Float32 { bits: F32_HALF },
    ).clamp_spec(one.neg_spec(), one);
    (
        (g.norm)((g.vector_difference)(candidate.translation, reference.translation)),
        (g.to_degrees)((g.arc_cosine)(cosine)),
    )
}

pub fn pose_correction_magnitudes<N: Numerics>(
    n: &N,
    reference: Pose,
    candidate: Pose,
) -> (r: (Float32, Float32))
    ensures
        forall|g: Arithmetic| #[trigger]
            computes(*n, g) ==> r == correction_magnitudes(g, reference, candidate),
{
    let one = Float32 { bits: F32_ONE };
    let turn = n.matrix_product(candidate.rotation, reference.rotation.transposed());
    let cosine = n.product(
        n.difference(n.trace(turn), one),
        Float32 { bits: F32_HALF },
    ).clamp(one.neg(), one);
    (
        n.norm(n.vector_difference(candidate.translation, reference.translation)),
        n.to_degrees(n.arc_cosine(cosine)),
    )
}

/// The factor and the summand by which a cost may grow in a step: rounding alone.
pub const COST_FACTOR: u32 = 0x3f80_0054;

pub const COST_MARGIN: u32 = 0x322b_cc77;

/// Whether the cost after a step is finite and no larger than before.
pub open spec fn cost_improved(g: Arithmetic, before: Float32, after: Float32) -> bool {
    after.is_finite_spec() && !(g.sum)(
        (g.product)(before, Float32 { bits: COST_FACTOR }),
        Float32 { bits: COST_MARGIN },
    ).lt_spec(after)
}

/// The matching of the next iteration.
pub open spec fn matching_of(settings: AlignmentSettings, state: AlignmentState) -> MatchingLimits {
    if state.use_recovery {
        settings.recovery_matching
    } else {
        settings.matching
    }
}

/// The rotation of a step, in degrees, and its length, in metres.
pub open spec fn step_size(g: Arithmetic, delta: Vector6) -> (Float32, Float32) {
    (
        (g.to_degrees)((g.norm)(Point3 { x: delta.e0, y: delta.e1, z: delta.e2 })),
        (g.norm)(Point3 { x: delta.e3, y: delta.e4, z: delta.e5 }),
    )
}

// ---------------------------------------------------------------------------
// An iteration
// ---------------------------------------------------------------------------

/// The state after a step to `pose` was accepted.
pub open spec fn accepted(
    g: Arithmetic,
    settings: AlignmentSettings,
    source_count: usize,
    state: AlignmentState,
    found: Seq<PointCorrespondence>,
    pose: Pose,
    delta: Vector6,
    rank: usize,
    eigenvalue_ratio: Float32,
) -> AlignmentState {
    let recovery = state.use_recovery;
    let rmse = rmse_spec(g, found, pose);
    let previous = if recovery { None } else { state.previous_rmse };
    let (turn, shift) = step_size(g, delta);
    let converged = match previous {
        None => false,
        Some(last) => (g.difference)(last, rmse).abs_spec().lt_spec(
            settings.rmse_change_threshold_m,
        ),
    };
    AlignmentState {
        pose,
        previous_rmse: Some(rmse),
        final_rmse: Some(rmse),
        correspondence_count: found.len() as usize,
        correspondence_ratio: ratio_spec(g, found.len() as int, source_count),
        observable_rank: rank,
        eigenvalue_ratio: Some(eigenvalue_ratio),
        icp_ok: true,
        recovery_attempted: state.recovery_attempted,
        use_recovery: false,
        recovery_pose: state.recovery_pose || recovery,
        running: recovery || !(converged && shift.lt_spec(settings.translation_delta_threshold_m)
            && turn.lt_spec(settings.rotation_delta_threshold_deg)),
    }
}

/// The state after an iteration in which the correspondences `found` were found.
pub open spec fn iteration(
    g: Arithmetic,
    settings: AlignmentSettings,
    predicted: Pose,
    source_count: usize,
    state: AlignmentState,
    found: Seq<PointCorrespondence>,
) -> AlignmentState {
    let recovery = state.use_recovery;
    let stopped = AlignmentState { running: false, ..state };
    let required = if recovery {
        settings.min_correspondences as int
    } else {
        required_correspondences(g, settings, source_count)
    };
    let system = system_of(g, found, state.pose, settings.huber_delta_m);
    if found.len() < required {
        if state.recovery_attempted {
            stopped
        } else {
            AlignmentState { recovery_attempted: true, use_recovery: true, ..state }
        }
    } else {
        match observable_step(
            g,
            system,
            settings.damping,
            settings.relative_eigenvalue_threshold,
        ) {
            None => stopped,
            Some(solved) => {
                let delta = if recovery { vertical_part(solved.delta) } else { solved.delta };
                let candidate = stepped(g, state.pose, delta);
                let (shift, turn) = correction_magnitudes(g, predicted, candidate);
                let max_shift = if recovery || state.recovery_pose {
                    settings.recovery_max_translation_correction_m
                } else {
                    settings.max_translation_correction_m
                };
                let cost = robust_cost_spec(g, found, candidate, settings.huber_delta_m);
                if solved.observable_rank < settings.min_observable_rank {
                    stopped
                } else if max_shift.lt_spec(shift)
                    || settings.max_rotation_correction_deg.lt_spec(turn) {
                    stopped
                } else if !cost_improved(g, system.cost, cost) {
                    stopped
                } else {
                    accepted(
                        g,
                        settings,
                        source_count,
                        state,
                        found,
                        candidate,
                        delta,
                        solved.observable_rank,
                        solved.min_observable_eigenvalue_ratio,
                    )
                }
            },
        }
    }
}

/// Takes one iteration with the correspondences that were found at the state's pose.
pub fn iterate<N: Numerics, C: StageClock>(
    n: &N,
    clock: &mut C,
    settings: &AlignmentSettings,
    predicted: Pose,
    source_count: usize,
    state: &AlignmentState,
    found: &[PointCorrespondence],
) -> (r: AlignmentState)
    ensures
        state.recovery_attempted ==> r.recovery_attempted,
        forall|g: Arithmetic| #[trigger]
            computes(*n, g) ==> r == iteration(
                g,
                *settings,
                predicted,
                source_count,
                *state,
                found@,
            ),
{
    let recovery = state.use_recovery;
    let mut stopped = *state;
    stopped.running = false;
    let required: usize = if recovery {
        settings.min_correspondences
    } else {
        min_correspondences(n, settings, source_count)
    };
    if found.len() < required {
        if state.recovery_attempted {
            return stopped;
        }
        let mut retried = *state;
        retried.recovery_attempted = true;
        retried.use_recovery = true;
        return retried;
    }
    let (r_mat, t_vec) = (state.pose.rotation, state.pose.translation);
    let system = build_robust_point_to_plane_system(
        n,
        found,
        r_mat,
        t_vec,
        settings.huber_delta_m,
    );
    clock.lap(TimingField::LinearSystem);
    let solution = solve_icp_delta_observable(
        n,
        &system,
        settings.damping,
        settings.relative_eigenvalue_threshold,
    );
    clock.lap(TimingField::Solver);
    let solved = match solution {
        None => {
            return stopped;
        },
        Some(solved) => solved,
    };
    if solved.observable_rank < settings.min_observable_rank {
        return stopped;
    }
    let delta = if recovery {
        retain_world_z_translation(&solved.delta)
    } else {
        solved.delta
    };
    let (candidate_r, candidate_t) = apply_delta(n, r_mat, t_vec, &delta);
    let candidate = Pose { rotation: candidate_r, translation: candidate_t };
    let (shift, turn) = pose_correction_magnitudes(n, predicted, candidate);
    let max_shift = if recovery || state.recovery_pose {
        settings.recovery_max_translation_correction_m
    } else {
        settings.max_translation_correction_m
    };
    if max_shift.lt(shift) || settings.max_rotation_correction_deg.lt(turn) {
        return stopped;
    }
    let cost = compute_robust_cost(
        n,
        found,
        candidate_r,
        candidate_t,
        settings.huber_delta_m,
    );
    let cost_limit = n.sum(
        n.product(system.cost, Float32 { bits: COST_FACTOR }),
        Float32 { bits: COST_MARGIN },
    );
    if !cost.is_finite() || cost_limit.lt(cost) {
        return stopped;
    }
    let rmse = compute_rmse(n, found, candidate_r, candidate_t);
    let delta_turn = n.to_degrees(
        n.norm(Point3 { x: delta.e0, y: delta.e1, z: delta.e2 }),
    );
    let delta_shift = n.norm(Point3 { x: delta.e3, y: delta.e4, z: delta.e5 });
    let previous = if recovery { None } else { state.previous_rmse };
    let converged = match previous {
        None => false,
        Some(last) => n.difference(last, rmse).abs().lt(settings.rmse_change_threshold_m),
    };
    AlignmentState {
        pose: candidate,
        previous_rmse: Some(rmse),
        final_rmse: Some(rmse),
        correspondence_count: found.len(),
        correspondence_ratio: correspondence_ratio(n, found.len(), source_count),
        observable_rank: solved.observable_rank,
        eigenvalue_ratio: Some(solved.min_observable_eigenvalue_ratio),
        icp_ok: true,
        recovery_attempted: state.recovery_attempted,
        use_recovery: false,
        recovery_pose: state.recovery_pose || recovery,
        running: recovery || !(converged && delta_shift.lt(
            settings.translation_delta_threshold_m,
        ) && delta_turn.lt(settings.rotation_delta_threshold_deg)),
    }
}

// ---------------------------------------------------------------------------
// The result
// ---------------------------------------------------------------------------

/// The pose of a frame, and how it was found.
#[derive(Clone, Copy, Debug)]
pub struct AlignmentOutcome {
    pub pose: Pose,
    /// Whether the pose is the aligned one. Else it is the predicted one.
    pub icp_ok: bool,
    pub final_rmse: Option<Float32>,
    pub correspondence_count: usize,
    pub correspondence_ratio: Float32,
    pub observable_rank: usize,
    pub eigenvalue_ratio: Option<Float32>,
}

/// What is reported of an alignment that ended in `state` without a valid result.
pub open spec fn failed(predicted: Pose, state: AlignmentState) -> AlignmentOutcome {
    AlignmentOutcome {
        pose: predicted,
        icp_ok: false,
        final_rmse: state.final_rmse,
        correspondence_count: state.correspondence_count,
        correspondence_ratio: state.correspondence_ratio,
        observable_rank: state.observable_rank,
        eigenvalue_ratio: state.eigenvalue_ratio,
    }
}

/// The result of an alignment that took a step, checked by the correspondences `found`
/// at its last pose.
pub open spec fn validated(
    g: Arithmetic,
    settings: AlignmentSettings,
    predicted: Pose,
    source_count: usize,
    state: AlignmentState,
    found: Seq<PointCorrespondence>,
) -> AlignmentOutcome {
    let rmse = rmse_spec(g, found, state.pose);
    let solved = observable_step(
        g,
        system_of(g, found, state.pose, settings.huber_delta_m),
        settings.damping,
        settings.relative_eigenvalue_threshold,
    );
    let rank = match solved {
        None => 0,
        Some(result) => result.observable_rank,
    };
    let ok = found.len() >= required_correspondences(g, settings, source_count) && rank
        >= settings.min_observable_rank && rmse.is_finite_spec() && rmse.le_spec(
        settings.max_final_rmse_m,
    );
    AlignmentOutcome {
        pose: if ok { state.pose } else { predicted },
        icp_ok: ok,
        final_rmse: Some(rmse),
        correspondence_count: found.len() as usize,
        correspondence_ratio: ratio_spec(g, found.len() as int, source_count),
        observable_rank: rank,
        eigenvalue_ratio: match solved {
            None => None,
            Some(result) => Some(result.min_observable_eigenvalue_ratio),
        },
    }
}

/// Checks the last pose of an alignment by the correspondences found there.
pub fn validate<N: Numerics, C: StageClock>(
    n: &N,
    clock: &mut C,
    settings: &AlignmentSettings,
    predicted: Pose,
    source_count: usize,
    state: &AlignmentState,
    found: &[PointCorrespondence],
) -> (r: AlignmentOutcome)
    ensures
        r.correspondence_count == found.len(),
        !r.icp_ok ==> r.pose == predicted,
        r.icp_ok ==> r.pose == state.pose && found.len() >= settings.min_correspondences
            && r.observable_rank >= settings.min_observable_rank && (r.final_rmse matches Some(rmse)
            && rmse.is_finite_spec() && rmse.le_spec(settings.max_final_rmse_m)),
        forall|g: Arithmetic| #[trigger]
            computes(*n, g) ==> r == validated(
                g,
                *settings,
                predicted,
                source_count,
                *state,
                found@,
            ),
{
    let (r_mat, t_vec) = (state.pose.rotation, state.pose.translation);
    let rmse = compute_rmse(n, found, r_mat, t_vec);
    clock.lap(TimingField::Other);
    let system = build_robust_point_to_plane_system(
        n,
        found,
        r_mat,
        t_vec,
        settings.huber_delta_m,
    );
    clock.lap(TimingField::LinearSystem);
    let solved = solve_icp_delta_observable(
        n,
        &system,
        settings.damping,
        settings.relative_eigenvalue_threshold,
    );
    clock.lap(TimingField::Solver);
    let (rank, eigenvalue_ratio) = match solved {
        None => (0usize, None),
        Some(result) => (
            result.observable_rank,
            Some(result.min_observable_eigenvalue_ratio),
        ),
    };
    let ok = found.len() >= min_correspondences(n, settings, source_count) && rank
        >= settings.min_observable_rank && rmse.is_finite() && rmse.le(settings.max_final_rmse_m);
    AlignmentOutcome {
        pose: if ok {
            state.pose
        } else {
            predicted
        },
        icp_ok: ok,
        final_rmse: Some(rmse),
        correspondence_count: found.len(),
        correspondence_ratio: correspondence_ratio(n, found.len(), source_count),
        observable_rank: rank,
        eigenvalue_ratio,
    }
}

// ---------------------------------------------------------------------------
// A whole alignment
// ---------------------------------------------------------------------------

/// The state after `k` iterations, in which the correspondences that `trace` lists were
/// found.
pub open spec fn state_after(
    g: Arithmetic,
    settings: AlignmentSettings,
    predicted: Pose,
    source_count: usize,
    trace: Seq<Seq<PointCorrespondence>>,
    k: int,
) -> AlignmentState
    decreases k,
{
    if k <= 0 {
        alignment_start(predicted)
    } else {
        iteration(
            g,
            settings,
            predicted,
            source_count,
            state_after(g, settings, predicted, source_count, trace, k - 1),
            trace[k - 1],
        )
    }
}

/// Whether iteration `k` of `trace` was called for, and its correspondences are those of
/// the pose at that time.
pub open spec fn follows(
    g: Arithmetic,
    settings: AlignmentSettings,
    predicted: Pose,
    sources: Map<VoxelKey, VoxelCell>,
    cells: Map<VoxelKey, VoxelCell>,
    trace: Seq<Seq<PointCorrespondence>>,
    k: int,
) -> bool {
    let state = state_after(g, settings, predicted, sources.len() as usize, trace, k);
    state.running && are_correspondences(
        g,
        sources,
        cells,
        matching_of(settings, state),
        state.pose,
        trace[k],
    )
}

/// Whether `trace` lists the correspondences of an alignment from its start to its end.
pub open spec fn is_trace(
    g: Arithmetic,
    settings: AlignmentSettings,
    predicted: Pose,
    sources: Map<VoxelKey, VoxelCell>,
    cells: Map<VoxelKey, VoxelCell>,
    trace: Seq<Seq<PointCorrespondence>>,
) -> bool {
    &&& trace.len() <= settings.iterations
    &&& trace.len() == settings.iterations || !state_after(
        g,
        settings,
        predicted,
        sources.len() as usize,
        trace,
        trace.len() as int,
    ).running
    &&& forall|k: int|
        0 <= k < trace.len() ==> #[trigger] follows(
            g,
            settings,
            predicted,
            sources,
            cells,
            trace,
            k,
        )
}

/// Whether `r` is what an alignment along `trace` comes to. `last` are the
/// correspondences at its last pose.
pub open spec fn ends_in(
    g: Arithmetic,
    settings: AlignmentSettings,
    predicted: Pose,
    sources: Map<VoxelKey, VoxelCell>,
    cells: Map<VoxelKey, VoxelCell>,
    trace: Seq<Seq<PointCorrespondence>>,
    last: Seq<PointCorrespondence>,
    r: AlignmentOutcome,
) -> bool {
    let count = sources.len() as usize;
    let end = state_after(g, settings, predicted, count, trace, trace.len() as int);
    &&& is_trace(g, settings, predicted, sources, cells, trace)
    &&& end.icp_ok ==> are_correspondences(
        g,
        sources,
        cells,
        settings.matching,
        end.pose,
        last,
    ) && r == validated(g, settings, predicted, count, end, last)
    &&& !end.icp_ok ==> r == failed(predicted, end)
}

/// Whether `r` is what an alignment along `trace` comes to, whatever the arithmetic is
/// that `n` computes.
pub open spec fn comes_to<N: Numerics>(
    n: N,
    settings: AlignmentSettings,
    predicted: Pose,
    sources: Map<VoxelKey, VoxelCell>,
    cells: Map<VoxelKey, VoxelCell>,
    trace: Seq<Seq<PointCorrespondence>>,
    last: Seq<PointCorrespondence>,
    r: AlignmentOutcome,
) -> bool {
    forall|g: Arithmetic| #[trigger]
        computes(n, g) ==> ends_in(g, settings, predicted, sources, cells, trace, last, r)
}

proof fn lemma_prefix(
    g: Arithmetic,
    settings: AlignmentSettings,
    predicted: Pose,
    source_count: usize,
    trace: Seq<Seq<PointCorrespondence>>,
    next: Seq<PointCorrespondence>,
    k: int,
)
    requires
        0 <= k <= trace.len(),
    ensures
        state_after(g, settings, predicted, source_count, trace.push(next), k) == state_after(
            g,
            settings,
            predicted,
            source_count,
            trace,
            k,
        ),
    decreases k,
{
    if k > 0 {
        lemma_prefix(g, settings, predicted, source_count, trace, next, k - 1);
    }
}

proof fn lemma_longer_trace(
    g: Arithmetic,
    settings: AlignmentSettings,
    predicted: Pose,
    sources: Map<VoxelKey, VoxelCell>,
    cells: Map<VoxelKey, VoxelCell>,
    trace: Seq<Seq<PointCorrespondence>>,
    next: Seq<PointCorrespondence>,
)
    requires
        forall|k: int|
            0 <= k < trace.len() ==> #[trigger] follows(
                g,
                settings,
                predicted,
                sources,
                cells,
                trace,
                k,
            ),
        ({
            let state = state_after(
                g,
                settings,
                predicted,
                sources.len() as usize,
                trace,
                trace.len() as int,
            );
            state.running && are_correspondences(
                g,
                sources,
                cells,
                matching_of(settings, state),
                state.pose,
                next,
            )
        }),
    ensures
        forall|k: int|
            0 <= k <= trace.len() ==> #[trigger] follows(
                g,
                settings,
                predicted,
                sources,
                cells,
                trace.push(next),
                k,
            ),
        state_after(
            g,
            settings,
            predicted,
            sources.len() as usize,
            trace.push(next),
            trace.len() as int + 1,
        ) == iteration(
            g,
            settings,
            predicted,
            sources.len() as usize,
            state_after(
                g,
                settings,
                predicted,
                sources.len() as usize,
                trace,
                trace.len() as int,
            ),
            next,
        ),
{
    let count = sources.len() as usize;
    lemma_prefix(g, settings, predicted, count, trace, next, trace.len() as int);
    assert forall|k: int| 0 <= k <= trace.len() implies #[trigger] follows(
        g,
        settings,
        predicted,
        sources,
        cells,
        trace.push(next),
        k,
    ) by {
        lemma_prefix(g, settings, predicted, count, trace, next, k);
        if k < trace.len() {
            assert(follows(g, settings, predicted, sources, cells, trace, k));
        }
    }
}

/// Aligns the points of `source_map` with `local_map`, from the predicted pose on.
///
/// Where the map is empty there is nothing to align with. Where the alignment fails, or
/// its result does not hold up at its own pose, the predicted pose stands.
pub fn align_frame<N: Numerics, C: StageClock>(
    n: &N,
    clock: &mut C,
    settings: &AlignmentSettings,
    predicted: Pose,
    source_map: &VoxelMap,
    local_map: &VoxelMap,
) -> (r: AlignmentOutcome)
    requires
        settings.matching.k > 0,
        settings.recovery_matching.k > 0,
    ensures
        !r.icp_ok ==> r.pose == predicted,
        r.icp_ok ==> r.correspondence_count >= settings.min_correspondences && r.observable_rank
            >= settings.min_observable_rank && (r.final_rmse matches Some(rmse)
            && rmse.is_finite_spec() && rmse.le_spec(settings.max_final_rmse_m)),
        local_map@.len() == 0 ==> r == failed(predicted, alignment_start(predicted)),
        local_map@.len() > 0 ==> exists|
            trace: Seq<Seq<PointCorrespondence>>,
            last: Seq<PointCorrespondence>,
        | #[trigger]
            comes_to(*n, *settings, predicted, source_map@, local_map@, trace, last, r),
{
    let mut state = start(predicted);
    if local_map.len() == 0 {
        return AlignmentOutcome {
            pose: predicted,
            icp_ok: false,
            final_rmse: state.final_rmse,
            correspondence_count: state.correspondence_count,
            correspondence_ratio: state.correspondence_ratio,
            observable_rank: state.observable_rank,
            eigenvalue_ratio: state.eigenvalue_ratio,
        };
    }
    let source_count: usize = source_map.len();
    let ghost mut trace: Seq<Seq<PointCorrespondence>> = Seq::empty();
    let mut k: usize = 0;
    while k < settings.iterations && state.running
        invariant
            k <= settings.iterations,
            trace.len() == k,
            source_count == source_map@.len(),
            settings.matching.k > 0,
            settings.recovery_matching.k > 0,
            forall|g: Arithmetic| #[trigger]
                computes(*n, g) ==> {
                    &&& state == state_after(
                        g,
                        *settings,
                        predicted,
                        source_count,
                        trace,
                        k as int,
                    )
                    &&& forall|i: int|
                        0 <= i < k ==> #[trigger] follows(
                            g,
                            *settings,
                            predicted,
                            source_map@,
                            local_map@,
                            trace,
                            i,
                        )
                },
        decreases settings.iterations - k,
    {
        let limits = if state.use_recovery {
            settings.recovery_matching
        } else {
            settings.matching
        };
        let found = pickup_valid_source_points(
            n,
            source_map,
            local_map,
            &limits,
            state.pose.rotation,
            state.pose.translation,
        );
        clock.lap(TimingField::CorrespondenceSearch);
        let ghost before = trace;
        proof {
            assert forall|g: Arithmetic| #[trigger] computes(*n, g) implies {
                &&& iteration(g, *settings, predicted, source_count, state, found@) == state_after(
                    g,
                    *settings,
                    predicted,
                    source_count,
                    before.push(found@),
                    k + 1,
                )
                &&& forall|i: int|
                    0 <= i <= k ==> #[trigger] follows(
                        g,
                        *settings,
                        predicted,
                        source_map@,
                        local_map@,
                        before.push(found@),
                        i,
                    )
            } by {
                lemma_longer_trace(
                    g,
                    *settings,
                    predicted,
                    source_map@,
                    local_map@,
                    before,
                    found@,
                );
            }
            trace = before.push(found@);
        }
        state = iterate(n, clock, settings, predicted, source_count, &state, &found);
        clock.lap(TimingField::Other);
        k += 1;
    }
    if !state.icp_ok {
        let r = AlignmentOutcome {
            pose: predicted,
            icp_ok: false,
            final_rmse: state.final_rmse,
            correspondence_count: state.correspondence_count,
            correspondence_ratio: state.correspondence_ratio,
            observable_rank: state.observable_rank,
            eigenvalue_ratio: state.eigenvalue_ratio,
        };
        assert(comes_to(
            *n,
            *settings,
            predicted,
            source_map@,
            local_map@,
            trace,
            Seq::empty(),
            r,
        ));
        return r;
    }
    let found = pickup_valid_source_points(
        n,
        source_map,
        local_map,
        &settings.matching,
        state.pose.rotation,
        state.pose.translation,
    );
    clock.lap(TimingField::CorrespondenceSearch);
    let r = validate(n, clock, settings, predicted, source_count, &state, &found);
    clock.lap(TimingField::Other);
    assert(comes_to(
        *n,
        *settings,
        predicted,
        source_map@,
        local_map@,
        trace,
        found@,
        r,
    ));
    r
}

// ---------------------------------------------------------------------------
// Laws
// ---------------------------------------------------------------------------

/// The wider matching is tried at most once: after it was, an iteration never asks for
/// it again.
pub proof fn recovery_is_tried_once(
    g: Arithmetic,
    settings: AlignmentSettings,
    predicted: Pose,
    source_count: usize,
    state: AlignmentState,
    found: Seq<PointCorrespondence>,
)
    requires
        state.recovery_attempted,
    ensures
        ({
            let next = iteration(g, settings, predicted, source_count, state, found);
            &&& next.recovery_attempted
            &&& next.use_recovery && next.running ==> state.use_recovery && state.running
                && next == state
        }),
{
}

/// A step after the wider matching turns nothing and moves nothing sideways.
pub proof fn recovery_moves_vertically(delta: Vector6)
    ensures
        vertical_part(delta).e0 == Float32::zero_spec(),
        vertical_part(delta).e1 == Float32::zero_spec(),
        vertical_part(delta).e2 == Float32::zero_spec(),
        vertical_part(delta).e3 == Float32::zero_spec(),
        vertical_part(delta).e4 == Float32::zero_spec(),
        vertical_part(delta).e5 == delta.e5,
{
}

proof fn lemma_steps_stay_near(
    g: Arithmetic,
    settings: AlignmentSettings,
    predicted: Pose,
    source_count: usize,
    trace: Seq<Seq<PointCorrespondence>>,
    k: int,
)
    requires
        0 <= k <= trace.len(),
    ensures
        ({
            let state = state_after(g, settings, predicted, source_count, trace, k);
            state.icp_ok ==> {
                let (shift, turn) = correction_magnitudes(g, predicted, state.pose);
                &&& !settings.max_rotation_correction_deg.lt_spec(turn)
                &&& !settings.max_translation_correction_m.lt_spec(shift)
                    || (state.recovery_pose
                    && !settings.recovery_max_translation_correction_m.lt_spec(shift))
            }
        }),
    decreases k,
{
    if k > 0 {
        lemma_steps_stay_near(g, settings, predicted, source_count, trace, k - 1);
    }
}

/// However an alignment goes, the pose that it comes to is either the predicted one or
/// within the allowed correction of it.
pub proof fn alignment_stays_near_the_prediction(
    g: Arithmetic,
    settings: AlignmentSettings,
    predicted: Pose,
    sources: Map<VoxelKey, VoxelCell>,
    cells: Map<VoxelKey, VoxelCell>,
    trace: Seq<Seq<PointCorrespondence>>,
    last: Seq<PointCorrespondence>,
    r: AlignmentOutcome,
)
    requires
        ends_in(g, settings, predicted, sources, cells, trace, last, r),
    ensures
        r.icp_ok || r.pose == predicted,
        r.icp_ok ==> {
            let (shift, turn) = correction_magnitudes(g, predicted, r.pose);
            &&& !settings.max_rotation_correction_deg.lt_spec(turn)
            &&& !settings.max_translation_correction_m.lt_spec(shift)
                || !settings.recovery_max_translation_correction_m.lt_spec(shift)
        },
{
    lemma_steps_stay_near(
        g,
        settings,
        predicted,
        sources.len() as usize,
        trace,
        trace.len() as int,
    );
}

// ---------------------------------------------------------------------------
// What iterations and outcomes are
// ---------------------------------------------------------------------------

/// A pose is no correction of itself: where the way from a place to itself has no length,
/// and a rotation times its transpose has the trace of no turn, both magnitudes are zero.
/// In general the shift is the length of the way between the two places, and the turn is
/// the angle whose cosine is half of the trace of the turn between them, less one.
pub proof fn corrections_measure_the_way_from_the_prediction(
    g: Arithmetic,
    reference: Pose,
    candidate: Pose,
)
    ensures
        ({
            let one = Float32 { bits: 0x3f80_0000 };
            let half = Float32 { bits: 0x3f00_0000 };
            let (shift, turn) = correction_magnitudes(g, reference, candidate);
            let between = (g.matrix_product)(
                candidate.rotation,
                reference.rotation.transposed_spec(),
            );
            let cosine = (g.product)((g.difference)((g.trace)(between), one), half);
            let zero = Float32::zero_spec();
            &&& shift == (g.norm)(
                (g.vector_difference)(candidate.translation, reference.translation),
            )
            &&& one.neg_spec().le_spec(cosine) && cosine.le_spec(one) ==> turn
                == (g.to_degrees)((g.arc_cosine)(cosine))
            &&& one.lt_spec(cosine) ==> turn == (g.to_degrees)((g.arc_cosine)(one))
            &&& cosine.lt_spec(one.neg_spec()) ==> turn == (g.to_degrees)(
                (g.arc_cosine)(one.neg_spec()),
            )
            &&& candidate == reference && (g.norm)(
                (g.vector_difference)(candidate.translation, candidate.translation),
            ) == zero && cosine == one && (g.to_degrees)((g.arc_cosine)(one)) == zero ==> (
                shift,
                turn,
            ) == (zero, zero)
        }),
{
}

/// At least the least number of correspondences is asked for, and at least the wanted
/// share of the points; no more than the larger of the two.
pub proof fn enough_is_the_larger_of_number_and_share(
    g: Arithmetic,
    settings: AlignmentSettings,
    source_count: usize,
)
    ensures
        ({
            let needed = required_correspondences(g, settings, source_count);
            let share = (g.ceil_u64)(
                (g.product)(
                    (g.from_count)(source_count as u64),
                    settings.min_correspondence_ratio,
                ),
            );
            &&& needed >= settings.min_correspondences
            &&& share <= usize::MAX ==> needed >= share
            &&& share <= usize::MAX ==> needed == share || needed == settings.min_correspondences
        }),
{
}

/// The share of correspondences, times the number of points, is their number, where a
/// quotient times its divisor is the dividend; it is zero without points.
pub proof fn shares_are_of_all_points(g: Arithmetic, found: int, source_count: usize)
    requires
        forall|a: Float32, b: Float32| #[trigger] (g.product)((g.quotient)(a, b), b) == a,
    ensures
        source_count > 0 ==> (g.product)(
            ratio_spec(g, found, source_count),
            (g.from_count)(source_count as u64),
        ) == (g.from_count)(found as u64),
        source_count == 0 ==> ratio_spec(g, found, source_count) == Float32::zero_spec(),
{
}

/// A cost that does not grow is an improvement, where the tolerance is one, and so is one
/// within the tolerance; a cost above it, or one that is not finite, is none.
pub proof fn costs_must_not_grow(g: Arithmetic, before: Float32, after: Float32)
    requires
        !before.is_nan_spec(),
        ({
            let most = (g.sum)(
                (g.product)(before, Float32 { bits: 0x3f80_0054 }),
                Float32 { bits: 0x322b_cc77 },
            );
            !most.is_nan_spec() && before.le_spec(most)
        }),
    ensures
        ({
            let most = (g.sum)(
                (g.product)(before, Float32 { bits: 0x3f80_0054 }),
                Float32 { bits: 0x322b_cc77 },
            );
            &&& after.is_finite_spec() && after.le_spec(before) ==> cost_improved(
                g,
                before,
                after,
            )
            &&& cost_improved(g, before, after) <==> after.is_finite_spec() && after.le_spec(most)
        }),
{
}

/// A step is as long as its shift, the last three entries, and turns by the length of its
/// first three, in degrees.
pub proof fn step_sizes_are_lengths(g: Arithmetic, delta: Vector6)
    ensures
        step_size(g, delta).0 == (g.to_degrees)(
            (g.norm)(Point3 { x: delta.e0, y: delta.e1, z: delta.e2 }),
        ),
        step_size(g, delta).1 == (g.norm)(
            Point3 { x: delta.e3, y: delta.e4, z: delta.e5 },
        ),
{
}

/// An iteration takes a step exactly where there are enough correspondences, the solution
/// has enough directions, the pose after it is near enough to the prediction, and the
/// cost does not grow. The step is the solved one, or its vertical part after the wider
/// matching. Too few correspondences start the wider matching, once. Anything else ends
/// the alignment where it is.
pub proof fn iterations_step_where_the_step_is_good(
    g: Arithmetic,
    settings: AlignmentSettings,
    predicted: Pose,
    source_count: usize,
    state: AlignmentState,
    found: Seq<PointCorrespondence>,
)
    ensures
        ({
            let next = iteration(g, settings, predicted, source_count, state, found);
            let enough = found.len() >= if state.use_recovery {
                settings.min_correspondences as int
            } else {
                required_correspondences(g, settings, source_count)
            };
            let system = system_of(g, found, state.pose, settings.huber_delta_m);
            let solved = observable_step(
                g,
                system,
                settings.damping,
                settings.relative_eigenvalue_threshold,
            );
            let full = solved->0.delta;
            let zero = Float32::zero_spec();
            let delta = if state.use_recovery {
                Vector6 { e0: zero, e1: zero, e2: zero, e3: zero, e4: zero, e5: full.e5 }
            } else {
                full
            };
            let pose = stepped(g, state.pose, delta);
            let (shift, turn) = correction_magnitudes(g, predicted, pose);
            let wide = state.use_recovery || state.recovery_pose;
            let good = enough && solved is Some && solved->0.observable_rank
                >= settings.min_observable_rank && (wide
                || !settings.max_translation_correction_m.lt_spec(shift)) && (!wide
                || !settings.recovery_max_translation_correction_m.lt_spec(shift))
                && !settings.max_rotation_correction_deg.lt_spec(turn) && cost_improved(
                g,
                system.cost,
                robust_cost_spec(g, found, pose, settings.huber_delta_m),
            );
            &&& good ==> {
                &&& next.icp_ok
                &&& next.pose == pose
                &&& next.final_rmse == Some(rmse_spec(g, found, pose))
                &&& next.previous_rmse == next.final_rmse
                &&& next.correspondence_count == found.len() as usize
                &&& next.observable_rank == solved->0.observable_rank
                &&& next.eigenvalue_ratio == Some(solved->0.min_observable_eigenvalue_ratio)
                &&& !next.use_recovery
                &&& next.recovery_attempted == state.recovery_attempted
                &&& next.recovery_pose <==> state.recovery_pose || state.use_recovery
            }
            &&& !good ==> next.pose == state.pose && next.icp_ok == state.icp_ok
                && next.final_rmse == state.final_rmse
            &&& !good && (enough || state.recovery_attempted) ==> !next.running
            &&& !enough && !state.recovery_attempted ==> next.use_recovery
                && next.recovery_attempted && next.running == state.running
        }),
{
    let solved = observable_step(
        g,
        system_of(g, found, state.pose, settings.huber_delta_m),
        settings.damping,
        settings.relative_eigenvalue_threshold,
    );
    let zero = Float32::zero_spec();
    assert(vertical_part(solved->0.delta) == (Vector6 {
        e0: zero,
        e1: zero,
        e2: zero,
        e3: zero,
        e4: zero,
        e5: solved->0.delta.e5,
    }));
}

/// After a step the alignment is at its end exactly where the error has hardly changed
/// since the last one and the step was short and turned little. It goes on after a step
/// of the wider matching and after the first one.
pub proof fn alignments_end_where_they_stand_still(
    g: Arithmetic,
    settings: AlignmentSettings,
    source_count: usize,
    state: AlignmentState,
    found: Seq<PointCorrespondence>,
    pose: Pose,
    delta: Vector6,
    rank: usize,
    ratio: Float32,
)
    ensures
        ({
            let next = accepted(
                g,
                settings,
                source_count,
                state,
                found,
                pose,
                delta,
                rank,
                ratio,
            );
            let rmse = rmse_spec(g, found, pose);
            let turn = (g.to_degrees)((g.norm)(Point3 { x: delta.e0, y: delta.e1, z: delta.e2 }));
            let shift = (g.norm)(Point3 { x: delta.e3, y: delta.e4, z: delta.e5 });
            &&& !next.running <==> !state.use_recovery && (state.previous_rmse matches Some(last)
                && (g.difference)(last, rmse).abs_spec().lt_spec(
                settings.rmse_change_threshold_m,
            )) && shift.lt_spec(settings.translation_delta_threshold_m) && turn.lt_spec(
                settings.rotation_delta_threshold_deg,
            )
            &&& next.pose == pose && next.observable_rank == rank
        }),
{
}

/// An aligned pose holds up exactly where, at this pose, there are enough correspondences,
/// enough directions are observable and the error is finite and small enough. Else the
/// prediction stands. What was found at the pose is reported either way.
pub proof fn poses_hold_up_at_their_own_place(
    g: Arithmetic,
    settings: AlignmentSettings,
    predicted: Pose,
    source_count: usize,
    state: AlignmentState,
    found: Seq<PointCorrespondence>,
)
    ensures
        ({
            let r = validated(g, settings, predicted, source_count, state, found);
            let rmse = rmse_spec(g, found, state.pose);
            let solved = observable_step(
                g,
                system_of(g, found, state.pose, settings.huber_delta_m),
                settings.damping,
                settings.relative_eigenvalue_threshold,
            );
            let enough_directions = settings.min_observable_rank == 0 || (
            solved matches Some(result) && result.observable_rank >= settings.min_observable_rank);
            &&& r.icp_ok <==> found.len() >= required_correspondences(g, settings, source_count)
                && enough_directions && rmse.is_finite_spec() && rmse.le_spec(
                settings.max_final_rmse_m,
            )
            &&& r.icp_ok ==> r.pose == state.pose
            &&& !r.icp_ok ==> r.pose == predicted
            &&& r.final_rmse == Some(rmse)
            &&& r.correspondence_count == found.len() as usize
            &&& r.correspondence_ratio == ratio_spec(g, found.len() as int, source_count)
        }),
{
}

/// A failed alignment stands at the prediction and reports what it came to.
pub proof fn failures_stand_at_the_prediction(predicted: Pose, state: AlignmentState)
    ensures
        ({
            let r = failed(predicted, state);
            &&& r.pose == predicted && !r.icp_ok
            &&& r.final_rmse == state.final_rmse
            &&& r.correspondence_count == state.correspondence_count
            &&& r.observable_rank == state.observable_rank
        }),
        ({
            let begin = alignment_start(predicted);
            &&& begin.pose == predicted && begin.running && !begin.icp_ok
            &&& !begin.use_recovery && !begin.recovery_attempted && !begin.recovery_pose
            &&& begin.final_rmse is None && begin.previous_rmse is None
            &&& begin.correspondence_count == 0 && begin.observable_rank == 0
        }),
{
}

/// Frames are matched by the normal limits, and by the wider ones only where the last
/// iteration asked for them.
pub proof fn wider_limits_are_for_recovery(settings: AlignmentSettings, state: AlignmentState)
    ensures
        !state.use_recovery ==> matching_of(settings, state) == settings.matching,
        state.use_recovery ==> matching_of(settings, state) == settings.recovery_matching,
{
}

/// Fitting the settings to a map changes the size of its voxels alone, in the normal and
/// in the wider matching.
pub proof fn settings_take_the_size_of_the_voxels(settings: AlignmentSettings, size: Float32)
    ensures
        ({
            let fitted = settings.over_voxels_spec(size);
            &&& fitted.matching.target_voxel_size == size
            &&& fitted.recovery_matching.target_voxel_size == size
            &&& fitted.matching == (MatchingLimits { target_voxel_size: size, ..settings.matching })
            &&& fitted.recovery_matching == (MatchingLimits {
                target_voxel_size: size,
                ..settings.recovery_matching
            })
            &&& fitted.iterations == settings.iterations
            &&& fitted.damping == settings.damping
            &&& fitted.min_correspondences == settings.min_correspondences
            &&& fitted.max_final_rmse_m == settings.max_final_rmse_m
        }),
{
}

/// By default the wider matching looks twice as far, accepts more distant and worse planes,
/// and may correct the pose by as much as a point may be away from its plane; both look
/// for as many neighbors in voxels of the same size. The default limits allow a solution.
pub proof fn recovery_is_wider_by_default()
    ensures
        ({
            let s = default_settings();
            let (normal, wide) = (s.matching, s.recovery_matching);
            let zero = Float32 { bits: 0 };
            &&& wide.search_range == 2 * normal.search_range
            &&& wide.max_dist_factor.bits == normal.max_dist_factor.bits + 0x80_0000
            &&& wide.source_plane_score_threshold.lt_spec(normal.source_plane_score_threshold)
            &&& normal.source_to_plane_max_distance matches Some(near)
                && wide.source_to_plane_max_distance matches Some(far) && near.lt_spec(far)
                && s.recovery_max_translation_correction_m == far
            &&& s.max_translation_correction_m.lt_spec(s.recovery_max_translation_correction_m)
            &&& wide.k == normal.k && wide.target_voxel_size == normal.target_voxel_size
            &&& wide.min_planarity == normal.min_planarity
            &&& wide.plane_point_distance_threshold == normal.plane_point_distance_threshold
            &&& zero.lt_spec(s.damping) && zero.lt_spec(s.relative_eigenvalue_threshold)
            &&& s.relative_eigenvalue_threshold.lt_spec(Float32 { bits: 0x3f80_0000 })
            &&& 1 <= s.min_observable_rank <= 6 && 6 <= s.min_correspondences
            &&& zero.lt_spec(s.huber_delta_m) && s.huber_delta_m.lt_spec(s.max_final_rmse_m)
            &&& s.translation_delta_threshold_m.lt_spec(s.max_translation_correction_m)
            &&& s.rotation_delta_threshold_deg.lt_spec(s.max_rotation_correction_deg)
        }),
{
}

} // verus!
