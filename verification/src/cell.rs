//! What is known of one voxel: the running mean and covariance of its
//! observations, and what was last decided about its surface.

use vstd::prelude::*;

use crate::float::{Float32, F32_HALF};
use crate::numerics::{computes, Arithmetic, Matrix3, Numerics, Point3};
use crate::voxel::{KeyMap, VoxelKey};

verus! {

/// What the points around a voxel look like.
#[derive(Clone, Copy, Debug, PartialEq, Eq, Structural)]
pub enum SurfaceStatus {
    Unknown,
    Planar,
    NonPlanar,
}

impl Default for SurfaceStatus {
    fn default() -> (r: SurfaceStatus)
        ensures
            r == SurfaceStatus::Unknown,
    {
        SurfaceStatus::Unknown
    }
}

/// The plane of a planar voxel: the points `p` with `normal . p + d == 0`.
#[derive(Clone, Copy, Debug, PartialEq, Eq, Structural)]
pub struct SurfacePlane {
    pub normal: Point3,
    pub d: Float32,
    pub rmse_m: Float32,
    pub neighbor_count: usize,
    pub inlier_count: usize,
}

/// A voxel.
#[derive(Clone, Copy, Debug)]
pub struct VoxelCell {
    /// The representative point, and the frame that it is from.
    pub point: (Point3, u64),
    pub is_point: bool,
    /// The mean of the observations.
    pub mean: Point3,
    /// The sum of squared offsets from the running mean, by Welford's method.
    pub m2: Matrix3,
    /// How many observations there were.
    pub sample_count: u64,
    /// How many different frames they came from.
    pub observed_frames: u64,
    pub last_observed_frame_id: Option<u64>,
    pub voxel_key: VoxelKey,
    pub covariance: Matrix3,
    pub covariance_valid: bool,
    pub surface_status: SurfaceStatus,
    pub surface_plane: Option<SurfacePlane>,
    /// The generation of the filter configuration that decided `surface_status`.
    pub surface_evaluation_epoch: u64,
    /// The last frame whose points that decision took into account.
    pub surface_evaluated_through_frame_id: Option<u64>,
}

/// A map from the keys of occupied voxels to their cells.
pub type VoxelMap = KeyMap<VoxelCell>;

/// The cell of a voxel that one point was seen in.
pub open spec fn first_observation(key: VoxelKey, point: Point3, frame_id: u64) -> VoxelCell {
    VoxelCell {
        point: (point, frame_id),
        is_point: true,
        mean: point,
        m2: Matrix3::zeros_spec(),
        sample_count: 1,
        observed_frames: 1,
        last_observed_frame_id: Some(frame_id),
        voxel_key: key,
        covariance: Matrix3::zeros_spec(),
        covariance_valid: false,
        surface_status: SurfaceStatus::Unknown,
        surface_plane: None,
        surface_evaluation_epoch: 0,
        surface_evaluated_through_frame_id: None,
    }
}

/// The mean after one more observation, by Welford's method.
pub open spec fn running_mean(g: Arithmetic, mean: Point3, point: Point3, count: u64) -> Point3 {
    (g.vector_sum)(
        mean,
        (g.vector_divided)((g.vector_difference)(point, mean), (g.from_count)(count)),
    )
}

/// The covariance of `count` observations whose squared offsets sum to `m2`, made
/// symmetric.
pub open spec fn covariance_of(g: Arithmetic, m2: Matrix3, count: u64) -> Matrix3 {
    let covariance = (g.matrix_divided)(m2, (g.from_count)((count - 1) as u64));
    (g.matrix_scaled)(
        (g.matrix_sum)(covariance, covariance.transposed_spec()),
        Float32 { bits: F32_HALF },
    )
}

/// `cell` after `point` was observed in frame `frame_id`. A point that is not
/// finite changes nothing.
pub open spec fn observed(
    g: Arithmetic,
    cell: VoxelCell,
    point: Point3,
    frame_id: u64,
    min_samples_for_covariance: usize,
) -> VoxelCell {
    if !point.is_finite_spec() {
        cell
    } else {
        let count = (cell.sample_count + 1) as u64;
        let mean = running_mean(g, cell.mean, point, count);
        let m2 = (g.matrix_sum)(
            cell.m2,
            (g.outer)(
                (g.vector_difference)(point, cell.mean),
                (g.vector_difference)(point, mean),
            ),
        );
        let enough = count >= min_samples_for_covariance && count >= 2;
        let covariance = if enough { covariance_of(g, m2, count) } else { cell.covariance };
        VoxelCell {
            point: (mean, frame_id),
            mean,
            m2,
            sample_count: count,
            observed_frames: if cell.last_observed_frame_id == Some(frame_id) {
                cell.observed_frames
            } else {
                (cell.observed_frames + 1) as u64
            },
            last_observed_frame_id: Some(frame_id),
            covariance,
            covariance_valid: enough && covariance.is_finite_spec(),
            ..cell
        }
    }
}

/// Whether `a` and `b` hold the same observations, whatever they say of the surface.
pub open spec fn same_observations(a: VoxelCell, b: VoxelCell) -> bool {
    a == VoxelCell {
        surface_status: a.surface_status,
        surface_plane: a.surface_plane,
        surface_evaluation_epoch: a.surface_evaluation_epoch,
        surface_evaluated_through_frame_id: a.surface_evaluated_through_frame_id,
        ..b
    }
}

impl VoxelCell {
    /// A cell without observations.
    pub fn new() -> (r: VoxelCell)
        ensures
            r.sample_count == 0,
            r.observed_frames == 0,
            r.last_observed_frame_id is None,
            r == (VoxelCell {
                sample_count: 0,
                observed_frames: 0,
                last_observed_frame_id: None,
                ..first_observation(
                    VoxelKey { ix: 0, iy: 0, iz: 0 },
                    Point3::origin_spec(),
                    0,
                )
            }),
    {
        VoxelCell {
            point: (Point3::origin(), 0),
            is_point: true,
            mean: Point3::origin(),
            m2: Matrix3::zeros(),
            sample_count: 0,
            observed_frames: 0,
            last_observed_frame_id: None,
            voxel_key: VoxelKey { ix: 0, iy: 0, iz: 0 },
            covariance: Matrix3::zeros(),
            covariance_valid: false,
            surface_status: SurfaceStatus::Unknown,
            surface_plane: None,
            surface_evaluation_epoch: 0,
            surface_evaluated_through_frame_id: None,
        }
    }

    /// The cell of the voxel `key` that `point` was seen in, in frame `frame_id`. It
    /// is the same for every voxel size.
    pub fn from_key(
        key: &VoxelKey,
        _voxel_size: Float32,
        point: Point3,
        frame_id: u64,
    ) -> (r: VoxelCell)
        ensures
            r == first_observation(*key, point, frame_id),
    {
        VoxelCell {
            point: (point, frame_id),
            is_point: true,
            mean: point,
            m2: Matrix3::zeros(),
            sample_count: 1,
            observed_frames: 1,
            last_observed_frame_id: Some(frame_id),
            voxel_key: *key,
            covariance: Matrix3::zeros(),
            covariance_valid: false,
            surface_status: SurfaceStatus::Unknown,
            surface_plane: None,
            surface_evaluation_epoch: 0,
            surface_evaluated_through_frame_id: None,
        }
    }

    /// Takes one more observation into account.
    pub fn update_statistics<N: Numerics>(
        &mut self,
        n: &N,
        point: Point3,
        frame_id: u64,
        min_samples_for_covariance: usize,
    )
        requires
            old(self).sample_count < u64::MAX,
            old(self).observed_frames < u64::MAX,
        ensures
            final(self).sample_count == old(self).sample_count + if point.is_finite_spec() {
                1int
            } else {
                0
            },
            final(self).observed_frames == old(self).observed_frames + if point.is_finite_spec()
                && old(self).last_observed_frame_id != Some(frame_id) {
                1int
            } else {
                0
            },
            final(self).surface_status == old(self).surface_status,
            final(self).surface_plane == old(self).surface_plane,
            final(self).surface_evaluation_epoch == old(self).surface_evaluation_epoch,
            forall|g: Arithmetic| #[trigger]
                computes(*n, g) ==> *final(self) == observed(
                    g,
                    *old(self),
                    point,
                    frame_id,
                    min_samples_for_covariance,
                ),
    {
        if !point.is_finite() {
            return;
        }
        let count: u64 = self.sample_count + 1;
        let offset = n.vector_difference(point, self.mean);
        let mean = n.vector_sum(self.mean, n.vector_divided(offset, n.from_count(count)));
        let offset_from_new = n.vector_difference(point, mean);
        self.m2 = n.matrix_sum(self.m2, n.outer(offset, offset_from_new));
        self.sample_count = count;
        self.mean = mean;
        let seen_in_frame = match self.last_observed_frame_id {
            Some(last) => last == frame_id,
            None => false,
        };
        if !seen_in_frame {
            self.observed_frames = self.observed_frames + 1;
            self.last_observed_frame_id = Some(frame_id);
        }
        self.point = (mean, frame_id);
        if count >= min_samples_for_covariance as u64 && count >= 2 {
            let covariance = n.matrix_divided(self.m2, n.from_count(count - 1));
            self.covariance = n.matrix_scaled(
                n.matrix_sum(covariance, covariance.transposed()),
                Float32 { bits: F32_HALF },
            );
            self.covariance_valid = self.covariance.is_finite();
        } else {
            self.covariance_valid = false;
        }
    }
}

/// One more observation moves the mean towards the point by its share: the way of the
/// mean, as often as there are samples, is the way from the mean to the point, where
/// differences undo sums and dividing a vector undoes scaling it.
pub proof fn means_move_by_their_share(g: Arithmetic, mean: Point3, point: Point3, count: u64)
    requires
        forall|a: Point3, b: Point3| #[trigger]
            (g.vector_difference)((g.vector_sum)(a, b), a) == b,
        forall|v: Point3, s: Float32| #[trigger]
            (g.vector_scaled)((g.vector_divided)(v, s), s) == v,
    ensures
        (g.vector_scaled)(
            (g.vector_difference)(running_mean(g, mean, point, count), mean),
            (g.from_count)(count),
        ) == (g.vector_difference)(point, mean),
{
}

/// A finite observation counts as one more sample, and as one more frame unless the frame
/// was counted already. It moves the mean as [`means_move_by_their_share`] says, is
/// represented by the new mean, and adds to the squares the offset from the old mean
/// times that from the new one. The covariance is valid from two samples and the wanted
/// number on, where it is finite. A point that is not finite changes nothing.
pub proof fn observations_are_counted(
    g: Arithmetic,
    cell: VoxelCell,
    point: Point3,
    frame_id: u64,
    min_samples: usize,
)
    requires
        cell.sample_count < u64::MAX,
        cell.observed_frames < u64::MAX,
    ensures
        ({
            let after = observed(g, cell, point, frame_id, min_samples);
            let finite = point.x.is_finite_spec() && point.y.is_finite_spec()
                && point.z.is_finite_spec();
            let old_offset = (g.vector_difference)(point, cell.mean);
            let new_offset = (g.vector_difference)(point, after.mean);
            &&& !finite ==> after == cell
            &&& finite ==> {
                &&& after.sample_count == cell.sample_count + 1
                &&& cell.last_observed_frame_id == Some(frame_id) ==> after.observed_frames
                    == cell.observed_frames
                &&& cell.last_observed_frame_id != Some(frame_id) ==> after.observed_frames
                    == cell.observed_frames + 1
                &&& after.last_observed_frame_id == Some(frame_id)
                &&& after.mean == running_mean(
                    g,
                    cell.mean,
                    point,
                    (cell.sample_count + 1) as u64,
                )
                &&& after.point == (after.mean, frame_id)
                &&& after.m2 == (g.matrix_sum)(cell.m2, (g.outer)(old_offset, new_offset))
                &&& after.covariance_valid ==> after.covariance.is_finite_spec()
                    && after.sample_count >= 2 && after.sample_count >= min_samples
                &&& after.sample_count >= 2 && after.sample_count >= min_samples
                    && after.covariance.is_finite_spec() ==> after.covariance_valid
                &&& after.voxel_key == cell.voxel_key
                &&& after.is_point == cell.is_point
                &&& after.surface_status == cell.surface_status
                &&& after.surface_plane == cell.surface_plane
            }
        }),
{
}

/// The covariance of symmetric squares, times one less than the number of samples, is
/// the squares, where dividing a matrix undoes scaling it, keeps it symmetric, and half
/// of a matrix added to itself is the matrix.
pub proof fn covariances_are_mean_squares(g: Arithmetic, m2: Matrix3, count: u64)
    requires
        count >= 2,
        ({
            let part = (g.matrix_divided)(m2, (g.from_count)((count - 1) as u64));
            &&& part.transposed_spec() == part
            &&& (g.matrix_scaled)((g.matrix_sum)(part, part), Float32 { bits: 0x3f00_0000 })
                == part
            &&& (g.matrix_scaled)(part, (g.from_count)((count - 1) as u64)) == m2
        }),
    ensures
        (g.matrix_scaled)(covariance_of(g, m2, count), (g.from_count)((count - 1) as u64)) == m2,
{
}

/// A cell begins with its first point as its mean, seen once in one frame, and not judged.
pub proof fn cells_begin_with_one_point(key: VoxelKey, point: Point3, frame_id: u64)
    ensures
        ({
            let cell = first_observation(key, point, frame_id);
            &&& cell.mean == point && cell.point == (point, frame_id) && cell.is_point
            &&& cell.sample_count == 1 && cell.observed_frames == 1
            &&& cell.last_observed_frame_id == Some(frame_id)
            &&& cell.voxel_key == key
            &&& !cell.covariance_valid
            &&& cell.surface_status is Unknown && cell.surface_plane is None
        }),
{
}

/// A covariance is symmetric, where sums can be exchanged and transposing goes through
/// sums and multiples.
pub proof fn covariances_are_symmetric(g: Arithmetic, m2: Matrix3, count: u64)
    requires
        forall|a: Matrix3, b: Matrix3| #[trigger] (g.matrix_sum)(a, b) == (g.matrix_sum)(b, a),
        forall|a: Matrix3, b: Matrix3|
            (#[trigger] (g.matrix_sum)(a, b)).transposed_spec() == (g.matrix_sum)(
                a.transposed_spec(),
                b.transposed_spec(),
            ),
        forall|a: Matrix3, s: Float32|
            (#[trigger] (g.matrix_scaled)(a, s)).transposed_spec() == (g.matrix_scaled)(
                a.transposed_spec(),
                s,
            ),
    ensures
        covariance_of(g, m2, count).transposed_spec() == covariance_of(g, m2, count),
{
    let part = (g.matrix_divided)(m2, (g.from_count)((count - 1) as u64));
    let other = part.transposed_spec();
    assert(other.transposed_spec() == part);
    let both = (g.matrix_sum)(part, other);
    assert(both.transposed_spec() == (g.matrix_sum)(other, part));
    assert((g.matrix_sum)(other, part) == both);
}

} // verus!
