//! A global map of plane nodes in large voxels.

use foldhash::{HashMap, HashMapExt};
use vstd::prelude::*;

use crate::float::Float32;
use crate::numerics::{
    computes, narrow_pose, narrow_pose_spec, world_point, world_point_spec, Arithmetic, Matrix3,
    Numerics, Point3, Pose64,
};
use crate::voxel::{voxel_key, voxel_key_spec, VoxelKey};

verus! {

#[verifier::external_type_specification]
#[verifier::external_body]
pub struct ExFoldRandomState(foldhash::fast::RandomState);

/// How far the plane of a node is known.
#[derive(Clone, Copy, Debug, PartialEq, Eq, Structural)]
pub enum PlaneState {
    Collecting,
    Stable,
    NoPlaneAtThisLevel,
}

/// An observed point.
#[derive(Clone, Copy, Debug, PartialEq, Eq, Structural)]
pub struct GlobalSample {
    pub position: Point3,
    pub frame_id: u64,
    pub weight: Float32,
}

/// The plane of a node.
#[derive(Clone, Copy, Debug, PartialEq, Eq, Structural)]
pub struct PlaneEstimate {
    /// The mean of the points on the plane.
    pub center: Point3,
    /// The unit normal.
    pub normal: Point3,
    /// The covariance of the points on the plane.
    pub covariance: Matrix3,
    /// In increasing order.
    pub eigenvalues: Point3,
    /// The variance of the points along the normal.
    pub residual_variance: Float32,
    pub support_count: u32,
    pub observed_frame_count: u32,
    pub effective_weight: Float32,
    pub first_frame_id: u64,
    pub last_frame_id: u64,
}

/// A node of the octree of planes.
#[derive(Debug)]
pub struct GlobalPlaneNode {
    pub voxel_center: Point3,
    pub voxel_size: Float32,
    pub depth: u8,
    pub plane_state: PlaneState,
    /// The points on the plane.
    pub support_samples: Vec<GlobalSample>,
    /// The points off the plane.
    pub outlier_samples: Vec<GlobalSample>,
    pub plane: Option<PlaneEstimate>,
    pub children: Option<Box<[GlobalPlaneNode; 8]>>,
}

/// A point of the final cloud.
#[derive(Clone, Copy, Debug, PartialEq, Eq, Structural)]
pub struct OutputPoint {
    pub position: Point3,
    pub frame_id: u64,
    pub plane_residual: Float32,
}

/// A voxel of the final cloud.
#[derive(Clone, Copy, Debug, PartialEq, Eq, Structural)]
pub struct OutputVoxel {
    pub representative: OutputPoint,
    pub observations: u32,
    pub first_frame_id: u64,
    pub last_frame_id: u64,
}

/// The settings of a global map.
#[derive(Clone, Copy, Debug, PartialEq, Eq, Structural)]
pub struct GlobalMapConfig {
    /// The side of a root voxel, in metres.
    pub root_voxel_size: Float32,
    /// How often a voxel is divided at most.
    pub max_depth: u8,
    /// The side of a voxel of the final cloud, in metres.
    pub output_voxel_size: Float32,
    pub max_support_samples_per_node: usize,
    pub max_outlier_samples_per_node: usize,
    pub max_samples_per_frame_per_node: usize,
    pub min_points_for_ransac: usize,
    pub min_observed_frames: u32,
    pub ransac_distance_threshold: Float32,
    pub stable_plane_distance_threshold: Float32,
    pub min_ransac_inliers: usize,
    pub min_ransac_inlier_ratio: Float32,
    /// The largest ratio of the smallest eigenvalue to the middle one.
    pub max_planarity_ratio: Float32,
    /// How many points off the plane ask for a new one.
    pub rebuild_outlier_count: usize,
    pub max_effective_weight: Float32,
}

/// The settings that a map starts from.
pub open spec fn default_global_map() -> GlobalMapConfig {
    GlobalMapConfig {
        root_voxel_size: Float32 { bits: 0x3ecc_cccd },
        max_depth: 2,
        output_voxel_size: Float32 { bits: 0x3dcc_cccd },
        max_support_samples_per_node: 24,
        max_outlier_samples_per_node: 24,
        max_samples_per_frame_per_node: 4,
        min_points_for_ransac: 16,
        min_observed_frames: 3,
        ransac_distance_threshold: Float32 { bits: 0x3cf5_c28f },
        stable_plane_distance_threshold: Float32 { bits: 0x3ca3_d70a },
        min_ransac_inliers: 10,
        min_ransac_inlier_ratio: Float32 { bits: 0x3f00_0000 },
        max_planarity_ratio: Float32 { bits: 0x3e19_999a },
        rebuild_outlier_count: 16,
        max_effective_weight: Float32 { bits: 0x4280_0000 },
    }
}

impl Default for GlobalMapConfig {
    fn default() -> (r: GlobalMapConfig)
        ensures
            r == default_global_map(),
    {
        GlobalMapConfig {
            root_voxel_size: Float32 { bits: 0x3ecc_cccd },
            max_depth: 2,
            output_voxel_size: Float32 { bits: 0x3dcc_cccd },
            max_support_samples_per_node: 24,
            max_outlier_samples_per_node: 24,
            max_samples_per_frame_per_node: 4,
            min_points_for_ransac: 16,
            min_observed_frames: 3,
            ransac_distance_threshold: Float32 { bits: 0x3cf5_c28f },
            stable_plane_distance_threshold: Float32 { bits: 0x3ca3_d70a },
            min_ransac_inliers: 10,
            min_ransac_inlier_ratio: Float32 { bits: 0x3f00_0000 },
            max_planarity_ratio: Float32 { bits: 0x3e19_999a },
            rebuild_outlier_count: 16,
            max_effective_weight: Float32 { bits: 0x4280_0000 },
        }
    }
}

/// Calls `new` of [`foldhash::HashMapExt`] on [`foldhash::HashMap`]: the map holds no key.
#[verifier::external_body]
fn fold_map<V>() -> (r: HashMap<VoxelKey, V>)
    ensures
        r@.dom() == Set::<VoxelKey>::empty(),
{
    HashMap::new()
}

/// The planes of the root voxels, and the voxels of the final cloud.
pub struct GlobalVoxelMap {
    pub map: HashMap<VoxelKey, GlobalPlaneNode>,
    pub output_voxel_map: HashMap<VoxelKey, OutputVoxel>,
    pub config: GlobalMapConfig,
}

/// The points, moved by the pose in single precision, each with the voxel it falls in.
pub open spec fn keyed_points(
    g: Arithmetic,
    points: Seq<Point3>,
    pose: Pose64,
    voxel_size: Float32,
) -> Seq<(VoxelKey, Point3)> {
    points.map_values(
        |p: Point3|
            {
                let world = world_point_spec(g, narrow_pose_spec(g, pose), p);
                (voxel_key_spec(g, world, voxel_size), world)
            },
    )
}

/// Moves points by a pose, and gives each the voxel it falls in.
pub fn keyed_world_points<N: Numerics>(
    n: &N,
    points: &[Point3],
    global_pose: &Pose64,
    voxel_size: Float32,
) -> (r: Vec<(VoxelKey, Point3)>)
    ensures
        r.len() == points.len(),
        forall|g: Arithmetic| #[trigger]
            computes(*n, g) ==> r@ == keyed_points(g, points@, *global_pose, voxel_size),
{
    let pose = narrow_pose(n, global_pose);
    let mut r: Vec<(VoxelKey, Point3)> = Vec::new();
    let mut k: usize = 0;
    while k < points.len()
        invariant
            k <= points.len(),
            r.len() == k,
            forall|g: Arithmetic| #[trigger]
                computes(*n, g) ==> pose == narrow_pose_spec(g, *global_pose),
            forall|g: Arithmetic| #[trigger]
                computes(*n, g) ==> r@ == keyed_points(
                    g,
                    points@,
                    *global_pose,
                    voxel_size,
                ).take(k as int),
        decreases points.len() - k,
    {
        let world = world_point(n, pose, points[k]);
        r.push((voxel_key(n, world, voxel_size), world));
        proof {
            assert forall|g: Arithmetic| #[trigger] computes(*n, g) implies r@ == keyed_points(
                g,
                points@,
                *global_pose,
                voxel_size,
            ).take(k + 1) by {
                assert(r@ =~= keyed_points(g, points@, *global_pose, voxel_size).take(k + 1));
            }
        }
        k += 1;
    }
    proof {
        assert forall|g: Arithmetic| #[trigger] computes(*n, g) implies r@ == keyed_points(
            g,
            points@,
            *global_pose,
            voxel_size,
        ) by {
            assert(r@ =~= keyed_points(g, points@, *global_pose, voxel_size));
        }
    }
    r
}

impl GlobalVoxelMap {
    /// An empty map.
    pub fn new(config: GlobalMapConfig) -> (r: GlobalVoxelMap)
        ensures
            r.map@ == Map::<VoxelKey, GlobalPlaneNode>::empty(),
            r.output_voxel_map@ == Map::<VoxelKey, OutputVoxel>::empty(),
            r.config == config,
    {
        let r = GlobalVoxelMap { map: fold_map(), output_voxel_map: fold_map(), config };
        assert(r.map@ =~= Map::<VoxelKey, GlobalPlaneNode>::empty());
        assert(r.output_voxel_map@ =~= Map::<VoxelKey, OutputVoxel>::empty());
        r
    }

    /// Finds the root voxels of points. The map does not take the points up yet.
    pub fn inserts_points<N: Numerics>(&mut self, n: &N, points: &[Point3], global_pose: &Pose64)
        ensures
            *final(self) == *old(self),
    {
        let _keyed = keyed_world_points(n, points, global_pose, self.config.root_voxel_size);
    }
}

/// Each point is keyed by the root voxel in which it lies in the world, where the pose
/// turns and shifts it.
pub proof fn points_are_keyed_where_they_lie_in_the_world(
    g: Arithmetic,
    points: Seq<Point3>,
    pose: Pose64,
    voxel_size: Float32,
    i: int,
)
    requires
        0 <= i < points.len(),
    ensures
        ({
            let (key, world) = keyed_points(g, points, pose, voxel_size)[i];
            let narrow = narrow_pose_spec(g, pose);
            &&& keyed_points(g, points, pose, voxel_size).len() == points.len()
            &&& world == world_point_spec(g, narrow, points[i])
            &&& key.ix == (g.floor_i32)((g.quotient)(world.x, voxel_size))
            &&& key.iy == (g.floor_i32)((g.quotient)(world.y, voxel_size))
            &&& key.iz == (g.floor_i32)((g.quotient)(world.z, voxel_size))
        }),
{
}

/// By default the voxels of the final cloud are as small as the root voxels that were
/// halved as often as they may be, and no more inliers are asked for than points.
pub proof fn output_voxels_are_the_smallest_by_default()
    ensures
        ({
            let c = default_global_map();
            &&& c.root_voxel_size.bits == c.output_voxel_size.bits + c.max_depth * 0x80_0000
            &&& c.min_ransac_inliers <= c.min_points_for_ransac <= c.max_support_samples_per_node
            &&& c.rebuild_outlier_count <= c.max_outlier_samples_per_node
            &&& c.max_samples_per_frame_per_node < c.max_support_samples_per_node
            &&& c.stable_plane_distance_threshold.lt_spec(c.ransac_distance_threshold)
            &&& c.ransac_distance_threshold.lt_spec(c.output_voxel_size)
            &&& c.min_ransac_inlier_ratio.lt_spec(Float32 { bits: 0x3f80_0000 })
        }),
{
}

} // verus!
