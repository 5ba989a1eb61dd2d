//! What the library computes, over the arithmetic of the machine.

use nalgebra::{Rotation3, Unit, UnitQuaternion, Vector3};
use re_lidar_slam::cell::{SurfacePlane, SurfaceStatus, VoxelCell, VoxelMap};
use re_lidar_slam::charts::{
    bar_label, bars, bars_top, frame_range, line_range, lines_top, series, trajectory, Metric,
};
use re_lidar_slam::covariance::build_voxel_map;
use re_lidar_slam::filter_config::FilterConfig;
use re_lidar_slam::find_nearest_points::{
    check_points_on_plane, check_source_on_plane, find_k_nearest_target_voxels,
    pickup_valid_source_points, MatchingLimits, PointCorrespondence,
};
use re_lidar_slam::float::{Float32, Float64};
use re_lidar_slam::frame::{advance, exported_points, motion};
use re_lidar_slam::frame_matching::{
    match_frames, representative_timestamp, sort_frames, FrameMetadata,
};
use re_lidar_slam::global_voxel_map::{keyed_world_points, GlobalMapConfig, GlobalVoxelMap};
use re_lidar_slam::icp::{
    apply_delta, build_robust_point_to_plane_system, compute_rmse, compute_robust_cost,
    huber_loss, huber_weight_and_loss, solve_icp_delta, solve_icp_delta_observable,
    IcpLinearSystem,
};
use re_lidar_slam::layer_plane::{
    find_dominant_residual_layer, fit_plane_pca, fit_plane_ransac, PlaneModel,
};
use re_lidar_slam::lidar::{
    make_airy96_from_mid70_extrinsic, make_imu_to_airy96_rotation, make_imu_to_avia_rotation,
    make_imu_to_mid70_rotation, LidarModel,
};
use re_lidar_slam::matrix6::{Eigen6, Matrix6, Vector6};
use re_lidar_slam::numerics::{
    Eigen3, Matrix3, Matrix3d, Numerics, Point3, Point3d, Pose, Pose64, Quaternion,
};
use re_lidar_slam::plane::{fit_plane, plane_rmse};
use re_lidar_slam::plane_filter::{
    build_voxel_grid, classify_voxel_two_pass, collect_neighborhood_indices, filter_cloud,
    filter_points, planes_are_compatible, PlaneCell, PointDecision,
};
use re_lidar_slam::predict_pose_by_imu::{
    align_imu_timestamps, build_rotation_trajectory, count_imu_samples_in_time_range,
    get_imu_range, predict_pose_by_constant_velocity, predict_pose_by_imu,
};
use re_lidar_slam::ransac::{
    adaptive_ransac_iteration_limit, ransac_plane_inliers, ransac_seed,
    sample_three_distinct_indices, should_sample_surface_timing,
};
use re_lidar_slam::slam::{process_frame, FrameInput, SlamSettings};
use re_lidar_slam::surface::SurfaceFilterConfig;
use re_lidar_slam::timing::{
    has_timing, icp_stages, mean_and_percentile, share, stages, timing_stats, timing_summary,
    StageClock, TimingField,
};
use re_lidar_slam::tracking::{
    align_frame, min_correspondences, pose_correction_magnitudes, retain_world_z_translation,
    AlignmentOutcome, AlignmentSettings,
};
use re_lidar_slam::types::{
    CurrentFrameInfo, FrameLog, FrameTiming, LoadIMU, PointXYZ, PointXYZIT, SLAMMap, IMU,
};
use re_lidar_slam::voxel::{voxel_key, KeyMap, VoxelKey};
use re_lidar_slam::voxel_map::{LOCALMap, LocalMapConfig};
use re_lidar_slam::voxelization::{
    morton_extent_exceeded, voxel_downsample_points, voxel_downsample_points_and_maps_dual,
    voxel_downsample_points_dual,
};
use re_lidar_slam::world_update::{WorldMapUpdateFilterConfig, WorldPointUpdateDecision};

fn f(x: Float32) -> f32 {
    f32::from_bits(x.bits)
}

fn single(x: f32) -> Float32 {
    Float32 { bits: x.to_bits() }
}

fn d(x: Float64) -> f64 {
    f64::from_bits(x.bits)
}

fn double(x: f64) -> Float64 {
    Float64 { bits: x.to_bits() }
}

fn vector(p: Point3) -> Vector3<f32> {
    Vector3::new(f(p.x), f(p.y), f(p.z))
}

fn point(v: Vector3<f32>) -> Point3 {
    Point3 { x: single(v.x), y: single(v.y), z: single(v.z) }
}

fn matrix(m: Matrix3) -> nalgebra::Matrix3<f32> {
    nalgebra::Matrix3::from_columns(&[vector(m.c0), vector(m.c1), vector(m.c2)])
}

fn columns(m: nalgebra::Matrix3<f32>) -> Matrix3 {
    Matrix3 {
        c0: point(m.column(0).into_owned()),
        c1: point(m.column(1).into_owned()),
        c2: point(m.column(2).into_owned()),
    }
}

fn vector64(p: Point3d) -> Vector3<f64> {
    Vector3::new(d(p.x), d(p.y), d(p.z))
}

fn point64(v: Vector3<f64>) -> Point3d {
    Point3d { x: double(v.x), y: double(v.y), z: double(v.z) }
}

fn matrix64(m: Matrix3d) -> nalgebra::Matrix3<f64> {
    nalgebra::Matrix3::from_columns(&[vector64(m.c0), vector64(m.c1), vector64(m.c2)])
}

fn columns64(m: nalgebra::Matrix3<f64>) -> Matrix3d {
    Matrix3d {
        c0: point64(m.column(0).into_owned()),
        c1: point64(m.column(1).into_owned()),
        c2: point64(m.column(2).into_owned()),
    }
}

fn rotation(q: Quaternion) -> UnitQuaternion<f64> {
    UnitQuaternion::new_unchecked(nalgebra::Quaternion::new(d(q.w), d(q.x), d(q.y), d(q.z)))
}

fn quaternion(q: UnitQuaternion<f64>) -> Quaternion {
    Quaternion { w: double(q.w), x: double(q.i), y: double(q.j), z: double(q.k) }
}

fn vector6(v: Vector6) -> nalgebra::Vector6<f32> {
    nalgebra::Vector6::new(f(v.e0), f(v.e1), f(v.e2), f(v.e3), f(v.e4), f(v.e5))
}

fn entries6(v: nalgebra::Vector6<f32>) -> Vector6 {
    Vector6 {
        e0: single(v[0]),
        e1: single(v[1]),
        e2: single(v[2]),
        e3: single(v[3]),
        e4: single(v[4]),
        e5: single(v[5]),
    }
}

fn matrix6(m: Matrix6) -> nalgebra::Matrix6<f32> {
    nalgebra::Matrix6::from_rows(&[
        vector6(m.r0).transpose(),
        vector6(m.r1).transpose(),
        vector6(m.r2).transpose(),
        vector6(m.r3).transpose(),
        vector6(m.r4).transpose(),
        vector6(m.r5).transpose(),
    ])
}

fn rows6(m: nalgebra::Matrix6<f32>) -> Matrix6 {
    Matrix6 {
        r0: entries6(m.row(0).transpose()),
        r1: entries6(m.row(1).transpose()),
        r2: entries6(m.row(2).transpose()),
        r3: entries6(m.row(3).transpose()),
        r4: entries6(m.row(4).transpose()),
        r5: entries6(m.row(5).transpose()),
    }
}

struct Native;

impl Numerics for Native {
    fn sum(&self, a: Float32, b: Float32) -> Float32 {
        single(f(a) + f(b))
    }

    fn difference(&self, a: Float32, b: Float32) -> Float32 {
        single(f(a) - f(b))
    }

    fn product(&self, a: Float32, b: Float32) -> Float32 {
        single(f(a) * f(b))
    }

    fn quotient(&self, a: Float32, b: Float32) -> Float32 {
        single(f(a) / f(b))
    }

    fn square_root(&self, a: Float32) -> Float32 {
        single(f(a).sqrt())
    }

    fn from_count(&self, count: u64) -> Float32 {
        single(count as f32)
    }

    fn floor_i32(&self, a: Float32) -> i32 {
        f(a).floor() as i32
    }

    fn floor_u64(&self, a: Float32) -> u64 {
        f(a).floor() as u64
    }

    fn ceil_u64(&self, a: Float32) -> u64 {
        f(a).ceil() as u64
    }

    fn vector_sum(&self, a: Point3, b: Point3) -> Point3 {
        point(vector(a) + vector(b))
    }

    fn vector_difference(&self, a: Point3, b: Point3) -> Point3 {
        point(vector(a) - vector(b))
    }

    fn vector_scaled(&self, a: Point3, s: Float32) -> Point3 {
        point(vector(a) * f(s))
    }

    fn vector_divided(&self, a: Point3, s: Float32) -> Point3 {
        point(vector(a) / f(s))
    }

    fn dot(&self, a: Point3, b: Point3) -> Float32 {
        single(vector(a).dot(&vector(b)))
    }

    fn cross(&self, a: Point3, b: Point3) -> Point3 {
        point(vector(a).cross(&vector(b)))
    }

    fn norm(&self, a: Point3) -> Float32 {
        single(vector(a).norm())
    }

    fn norm_squared(&self, a: Point3) -> Float32 {
        single(vector(a).norm_squared())
    }

    fn transformed(&self, m: Matrix3, a: Point3) -> Point3 {
        point(matrix(m) * vector(a))
    }

    fn outer(&self, a: Point3, b: Point3) -> Matrix3 {
        columns(vector(a) * vector(b).transpose())
    }

    fn matrix_sum(&self, a: Matrix3, b: Matrix3) -> Matrix3 {
        columns(matrix(a) + matrix(b))
    }

    fn matrix_scaled(&self, a: Matrix3, s: Float32) -> Matrix3 {
        columns(matrix(a) * f(s))
    }

    fn matrix_divided(&self, a: Matrix3, s: Float32) -> Matrix3 {
        columns(matrix(a) / f(s))
    }

    fn symmetric_eigen(&self, m: Matrix3) -> Eigen3 {
        let eigen = matrix(m).symmetric_eigen();
        Eigen3 { values: point(eigen.eigenvalues), vectors: columns(eigen.eigenvectors) }
    }

    fn sum64(&self, a: Float64, b: Float64) -> Float64 {
        double(d(a) + d(b))
    }

    fn difference64(&self, a: Float64, b: Float64) -> Float64 {
        double(d(a) - d(b))
    }

    fn product64(&self, a: Float64, b: Float64) -> Float64 {
        double(d(a) * d(b))
    }

    fn quotient64(&self, a: Float64, b: Float64) -> Float64 {
        double(d(a) / d(b))
    }

    fn from_count64(&self, count: u64) -> Float64 {
        double(count as f64)
    }

    fn ln64(&self, a: Float64) -> Float64 {
        double(d(a).ln())
    }

    fn ln_1p64(&self, a: Float64) -> Float64 {
        double(d(a).ln_1p())
    }

    fn ceil64(&self, a: Float64) -> Float64 {
        double(d(a).ceil())
    }

    fn narrow(&self, a: Float64) -> Float32 {
        single(d(a) as f32)
    }

    fn widen(&self, a: Float32) -> Float64 {
        double(f(a) as f64)
    }

    fn to_degrees(&self, a: Float32) -> Float32 {
        single(f(a).to_degrees())
    }

    fn to_radians(&self, a: Float32) -> Float32 {
        single(f(a).to_radians())
    }

    fn cosine(&self, a: Float32) -> Float32 {
        single(f(a).cos())
    }

    fn arc_cosine(&self, a: Float32) -> Float32 {
        single(f(a).acos())
    }

    fn floor_u32(&self, a: Float32) -> u32 {
        f(a).floor() as u32
    }

    fn matrix_product(&self, a: Matrix3, b: Matrix3) -> Matrix3 {
        columns(matrix(a) * matrix(b))
    }

    fn trace(&self, m: Matrix3) -> Float32 {
        single(matrix(m).trace())
    }

    fn scaled_axis_rotation(&self, a: Point3) -> Matrix3 {
        columns(UnitQuaternion::from_scaled_axis(vector(a)).to_rotation_matrix().into_inner())
    }

    fn symmetric_eigen6(&self, m: Matrix6) -> Eigen6 {
        let eigen = matrix6(m).symmetric_eigen();
        Eigen6 { values: entries6(eigen.eigenvalues), vectors: rows6(eigen.eigenvectors) }
    }

    fn dot6(&self, a: Vector6, b: Vector6) -> Float32 {
        single(vector6(a).dot(&vector6(b)))
    }

    fn vector_sum64(&self, a: Point3d, b: Point3d) -> Point3d {
        point64(vector64(a) + vector64(b))
    }

    fn vector_difference64(&self, a: Point3d, b: Point3d) -> Point3d {
        point64(vector64(a) - vector64(b))
    }

    fn vector_scaled64(&self, a: Point3d, s: Float64) -> Point3d {
        point64(vector64(a) * d(s))
    }

    fn vector_divided64(&self, a: Point3d, s: Float64) -> Point3d {
        point64(vector64(a) / d(s))
    }

    fn norm64(&self, a: Point3d) -> Float64 {
        double(vector64(a).norm())
    }

    fn normalized64(&self, a: Point3d) -> Point3d {
        point64(vector64(a).normalize())
    }

    fn matrix_product64(&self, a: Matrix3d, b: Matrix3d) -> Matrix3d {
        columns64(matrix64(a) * matrix64(b))
    }

    fn trace64(&self, m: Matrix3d) -> Float64 {
        double(matrix64(m).trace())
    }

    fn arc_cosine64(&self, a: Float64) -> Float64 {
        double(d(a).acos())
    }

    fn to_degrees64(&self, a: Float64) -> Float64 {
        double(d(a).to_degrees())
    }

    fn rotated(&self, q: Quaternion, a: Point3d) -> Point3d {
        point64(rotation(q) * vector64(a))
    }

    fn composed(&self, a: Quaternion, b: Quaternion) -> Quaternion {
        quaternion(rotation(a) * rotation(b))
    }

    fn renormalized(&self, q: Quaternion) -> Quaternion {
        quaternion(UnitQuaternion::from_quaternion(nalgebra::Quaternion::new(
            d(q.w),
            d(q.x),
            d(q.y),
            d(q.z),
        )))
    }

    fn inverted(&self, q: Quaternion) -> Quaternion {
        quaternion(rotation(q).inverse())
    }

    fn axis_angle(&self, axis: Point3d, angle: Float64) -> Quaternion {
        let axis = Unit::new_unchecked(vector64(axis));
        quaternion(UnitQuaternion::from_axis_angle(&axis, d(angle)))
    }

    fn scaled_axis(&self, a: Point3d) -> Quaternion {
        quaternion(UnitQuaternion::from_scaled_axis(vector64(a)))
    }

    fn quaternion_of(&self, m: Matrix3d) -> Quaternion {
        quaternion(UnitQuaternion::from_matrix(&matrix64(m)))
    }

    fn matrix_of(&self, q: Quaternion) -> Matrix3d {
        columns64(rotation(q).to_rotation_matrix().into_inner())
    }

    fn to_u64(&self, a: Float64) -> u64 {
        d(a) as u64
    }
}

fn at(x: f32, y: f32, z: f32) -> Point3 {
    Point3 { x: single(x), y: single(y), z: single(z) }
}

fn at64(x: f64, y: f64, z: f64) -> Point3d {
    Point3d { x: double(x), y: double(y), z: double(z) }
}

fn key(ix: i32, iy: i32, iz: i32) -> VoxelKey {
    VoxelKey { ix, iy, iz }
}

fn identity_matrix() -> Matrix3 {
    columns(nalgebra::Matrix3::identity())
}

fn identity_pose() -> Pose64 {
    Pose64 {
        rotation: columns64(nalgebra::Matrix3::identity()),
        translation: at64(0.0, 0.0, 0.0),
    }
}

fn still_pose() -> Pose {
    Pose { rotation: identity_matrix(), translation: at(0.0, 0.0, 0.0) }
}

// ---------------------------------------------------------------------------
// Matching of recordings
// ---------------------------------------------------------------------------

fn frame(number: u32, timestamp: f64) -> FrameMetadata {
    FrameMetadata {
        source_path: format!("cloud_{number}.pcd"),
        source_number: number,
        timestamp: double(timestamp),
    }
}

fn timed_point(timestamp: f64) -> PointXYZIT {
    PointXYZIT {
        x: single(0.0),
        y: single(0.0),
        z: single(0.0),
        intensity: single(0.0),
        timestamp: double(timestamp),
    }
}

#[test]
fn representative_timestamp_uses_finite_range_midpoint() {
    let points =
        vec![timed_point(f64::NAN), timed_point(10.0), timed_point(10.2), timed_point(10.1)];
    assert!((d(representative_timestamp(&Native, &points).unwrap()) - 10.1).abs() < 1e-12);
}

#[test]
fn representative_timestamp_rejects_empty_or_non_finite_points() {
    assert!(representative_timestamp(&Native, &[]).is_none());
    assert!(representative_timestamp(&Native, &[timed_point(f64::NAN)]).is_none());
}

#[test]
fn matching_skips_leading_and_missing_frames_without_losing_alignment() {
    let airy =
        vec![frame(0, 0.0), frame(1, 0.1), frame(2, 0.2), frame(3, 0.3), frame(4, 0.4)];
    let mid70 = vec![frame(10, 0.201), frame(12, 0.399)];

    let pairs = match_frames(&Native, &airy, &mid70, double(0.05));
    let matched: Vec<(u32, u32)> = pairs
        .iter()
        .map(|pair| {
            (airy[pair.airy_index].source_number, mid70[pair.mid70_index].source_number)
        })
        .collect();

    assert_eq!(matched, vec![(2, 10), (4, 12)]);
}

#[test]
fn matching_rejects_out_of_tolerance_and_never_reuses_a_frame() {
    let airy = vec![frame(0, 1.0), frame(1, 1.01), frame(2, 2.0)];
    let mid70 = vec![frame(10, 1.005), frame(11, 2.051)];

    let pairs = match_frames(&Native, &airy, &mid70, double(0.05));

    assert_eq!(pairs.len(), 1);
    assert_eq!(pairs[0].airy_index, 0);
    assert_eq!(pairs[0].mid70_index, 0);
}

/// The most pairs within the tolerance, in any order, that use no frame twice.
fn most_pairs(airy: &[f64], mid70: &[f64], used: u32, tolerance: f64) -> usize {
    match airy.split_first() {
        None => 0,
        Some((time, rest)) => {
            let mut most = most_pairs(rest, mid70, used, tolerance);
            for (j, other) in mid70.iter().enumerate() {
                if used & (1 << j) == 0 && (time - other).abs() <= tolerance {
                    most = most.max(1 + most_pairs(rest, mid70, used | (1 << j), tolerance));
                }
            }
            most
        }
    }
}

#[test]
fn no_pairing_in_any_order_has_more_pairs() {
    let cases: [(&[f64], &[f64], usize); 4] = [
        (&[1.0, 1.03], &[1.01, 1.04], 2),
        (&[0.0, 0.02, 0.04, 0.3], &[0.03, 0.05, 0.06, 0.08], 3),
        (&[0.1, 0.2, 0.3], &[0.14, 0.15, 0.16, 0.34], 3),
        (&[1.0], &[2.0, 3.0], 0),
    ];
    for (airy, mid70, expected) in cases {
        let frames = |times: &[f64]| -> Vec<FrameMetadata> {
            times.iter().enumerate().map(|(i, time)| frame(i as u32, *time)).collect()
        };
        let pairs = match_frames(&Native, &frames(airy), &frames(mid70), double(0.05));
        assert_eq!(pairs.len(), expected);
        assert_eq!(most_pairs(airy, mid70, 0, 0.05), expected);
    }
}

#[test]
fn sorted_frames_have_as_many_pairs_as_can_be() {
    let airy = [0.3, 0.1, 0.2];
    let mid70 = [0.34, 0.16, 0.14, 0.15];
    let sorted = |times: &[f64]| {
        let frames: Vec<FrameMetadata> =
            times.iter().enumerate().map(|(i, time)| frame(i as u32, *time)).collect();
        sort_frames(&frames)
    };
    let (first, second) = (sorted(&airy), sorted(&mid70));
    assert_eq!(first.iter().map(|f| f.source_number).collect::<Vec<_>>(), vec![1, 2, 0]);
    let pairs = match_frames(&Native, &first, &second, double(0.05));
    assert_eq!(pairs.len(), 3);
    assert_eq!(most_pairs(&airy, &mid70, 0, 0.05), 3);
}

// ---------------------------------------------------------------------------
// Alignment
// ---------------------------------------------------------------------------

fn diagonal_system(diagonal: [f32; 6], b: [f32; 6]) -> IcpLinearSystem {
    let mut h = nalgebra::Matrix6::<f32>::zeros();
    for (index, value) in diagonal.into_iter().enumerate() {
        h[(index, index)] = value;
    }
    IcpLinearSystem {
        h: rows6(h),
        b: entries6(nalgebra::Vector6::from_row_slice(&b)),
        cost: single(0.0),
        used_count: 100,
    }
}

fn system_from_jacobians(
    jacobians: &[nalgebra::Vector6<f32>],
    desired_delta: nalgebra::Vector6<f32>,
) -> IcpLinearSystem {
    let h = jacobians
        .iter()
        .fold(nalgebra::Matrix6::<f32>::zeros(), |sum, j| sum + j * j.transpose());
    IcpLinearSystem {
        h: rows6(h),
        b: entries6(h * desired_delta),
        cost: single(0.0),
        used_count: jacobians.len().max(6),
    }
}

#[test]
fn observable_solver_keeps_only_wall_normal_translation() {
    let system = diagonal_system(
        [0.0, 0.0, 0.0, 100.0, 1e-4, 1e-4],
        [0.0, 0.0, 0.0, 10.0, 1.0, -1.0],
    );
    let result =
        solve_icp_delta_observable(&Native, &system, single(1e-6), single(0.01)).unwrap();
    let delta = vector6(result.delta);

    assert_eq!(result.observable_rank, 1);
    assert!((delta[3] - 0.1).abs() < 1e-5);
    assert_eq!(delta[4], 0.0);
    assert_eq!(delta[5], 0.0);
}

#[test]
fn observable_solver_keeps_three_independent_translation_directions() {
    let system = diagonal_system(
        [0.0, 0.0, 0.0, 10.0, 10.0, 10.0],
        [0.0, 0.0, 0.0, 1.0, 2.0, 3.0],
    );
    let result =
        solve_icp_delta_observable(&Native, &system, single(1e-6), single(0.01)).unwrap();
    let delta = vector6(result.delta);

    assert_eq!(result.observable_rank, 3);
    assert!((delta[3] - 0.1).abs() < 1e-5);
    assert!((delta[4] - 0.2).abs() < 1e-5);
    assert!((delta[5] - 0.3).abs() < 1e-5);
}

#[test]
fn floor_geometry_preserves_unobservable_xy_and_yaw_prediction() {
    let normal = Vector3::<f32>::z();
    let jacobians: Vec<_> = (-2..=2)
        .flat_map(|x| {
            (-2..=2).map(move |y| {
                let point = Vector3::new(x as f32, y as f32, 0.0);
                let rotation = point.cross(&normal);
                nalgebra::Vector6::new(rotation.x, rotation.y, rotation.z, 0.0, 0.0, 1.0)
            })
        })
        .collect();
    let desired = nalgebra::Vector6::new(0.01, -0.02, 0.5, 1.0, -1.0, 0.1);
    let result = solve_icp_delta_observable(
        &Native,
        &system_from_jacobians(&jacobians, desired),
        single(1e-6),
        single(0.01),
    )
    .unwrap();
    let delta = vector6(result.delta);

    assert_eq!(result.observable_rank, 3);
    assert!(delta[2].abs() < 1e-6);
    assert!(delta[3].abs() < 1e-6);
    assert!(delta[4].abs() < 1e-6);
    assert!((delta[5] - 0.1).abs() < 1e-5);
}

#[test]
fn wall_geometry_preserves_tangent_translation_prediction() {
    let normal = Vector3::<f32>::x();
    let jacobians: Vec<_> = (-2..=2)
        .flat_map(|y| {
            (-2..=2).map(move |z| {
                let point = Vector3::new(0.0, y as f32, z as f32);
                let rotation = point.cross(&normal);
                nalgebra::Vector6::new(rotation.x, rotation.y, rotation.z, 1.0, 0.0, 0.0)
            })
        })
        .collect();
    let desired = nalgebra::Vector6::new(0.5, 0.01, -0.02, 0.1, 1.0, -1.0);
    let result = solve_icp_delta_observable(
        &Native,
        &system_from_jacobians(&jacobians, desired),
        single(1e-6),
        single(0.01),
    )
    .unwrap();
    let delta = vector6(result.delta);

    assert_eq!(result.observable_rank, 3);
    assert!(delta[0].abs() < 1e-6);
    assert!((delta[3] - 0.1).abs() < 1e-5);
    assert!(delta[4].abs() < 1e-6);
    assert!(delta[5].abs() < 1e-6);
}

#[test]
fn huber_weight_limits_large_outliers() {
    let weight =
        |residual: f32| f(huber_weight_and_loss(&Native, single(residual), single(0.1)).0);
    assert_eq!(weight(0.05), 1.0);
    assert!((weight(1.0) - 0.1).abs() < 1e-6);
    assert!(f(huber_loss(&Native, single(1.0), single(0.1))) < 0.5);
}

fn correspondence(src: Vector3<f32>, normal: Vector3<f32>, plane_d: f32) -> PointCorrespondence {
    PointCorrespondence {
        src_key: key(0, 0, 0),
        src_point: point(src),
        target_cell: VoxelCell::new(),
        plane_normal: point(normal),
        plane_d: single(plane_d),
    }
}

fn close(actual: f32, expected: f32) {
    let tolerance = 2e-5 * expected.abs().max(1.0);
    assert!(
        (actual - expected).abs() <= tolerance,
        "actual={actual}, expected={expected}, tolerance={tolerance}",
    );
}

#[test]
fn triangular_accumulation_matches_full_outer_product() {
    let correspondences: Vec<_> = (0..257)
        .map(|index| {
            let phase = index as f32 * 0.037;
            let raw_normal = Vector3::new(
                0.3 + phase.sin().abs(),
                0.4 + (phase * 1.7).cos().abs(),
                0.5 + (phase * 0.7).sin().abs(),
            );
            correspondence(
                Vector3::new(phase.sin() * 8.0, phase.cos() * 5.0, phase * 0.2 - 1.0),
                raw_normal.normalize(),
                (phase * 0.3).sin() * 0.2,
            )
        })
        .collect();
    let r_mat = UnitQuaternion::<f32>::from_euler_angles(0.08, -0.04, 0.12)
        .to_rotation_matrix()
        .into_inner();
    let t_vec = Vector3::<f32>::new(0.13, -0.07, 0.04);

    let actual = build_robust_point_to_plane_system(
        &Native,
        &correspondences,
        columns(r_mat),
        point(t_vec),
        single(0.08),
    );

    let mut expected_h = nalgebra::Matrix6::<f32>::zeros();
    let mut expected_b = nalgebra::Vector6::<f32>::zeros();
    let mut expected_cost = 0.0f32;
    let mut expected_count = 0usize;
    for corr in &correspondences {
        let normal = vector(corr.plane_normal);
        let rp = r_mat * vector(corr.src_point);
        let residual = normal.dot(&(rp + t_vec)) + f(corr.plane_d);
        let (weight, loss) = huber_weight_and_loss(&Native, single(residual), single(0.08));
        let j_rot = rp.cross(&normal);
        let j =
            nalgebra::Vector6::new(j_rot.x, j_rot.y, j_rot.z, normal.x, normal.y, normal.z);
        expected_h += f(weight) * (j * j.transpose());
        expected_b -= f(weight) * j * residual;
        expected_cost += f(loss);
        expected_count += 1;
    }

    assert_eq!(actual.used_count, expected_count);
    close(f(actual.cost), expected_cost);
    for (actual, expected) in matrix6(actual.h).iter().zip(expected_h.iter()) {
        close(*actual, *expected);
    }
    for (actual, expected) in vector6(actual.b).iter().zip(expected_b.iter()) {
        close(*actual, *expected);
    }
}

#[test]
fn vertical_recovery_discards_rotation_and_xy_translation() {
    let delta = entries6(nalgebra::Vector6::new(1.0, 2.0, 3.0, 4.0, 5.0, -0.45));

    assert_eq!(
        vector6(retain_world_z_translation(&delta)),
        nalgebra::Vector6::new(0.0, 0.0, 0.0, 0.0, 0.0, -0.45)
    );
}

// ---------------------------------------------------------------------------
// Inertial sensor and mounting
// ---------------------------------------------------------------------------

fn imu_sample(timestamp: f64) -> IMU {
    IMU {
        timestamp: double(timestamp),
        angular_velocity: [single(0.0); 3],
        linear_acceleration: [single(0.0); 3],
    }
}

#[test]
fn counts_imu_samples_inside_inclusive_point_cloud_interval() {
    let imu_data = [
        imu_sample(0.9),
        imu_sample(1.0),
        imu_sample(1.5),
        imu_sample(2.0),
        imu_sample(2.1),
    ];
    let count = |start: f64, end: f64| {
        count_imu_samples_in_time_range(&imu_data, double(start), double(end))
    };

    assert_eq!(count(1.0, 2.0), 3);
    assert_eq!(count(3.0, 4.0), 0);
    assert_eq!(count(2.0, 1.0), 0);
}

#[test]
fn mid70_extrinsic_maps_axes_into_airy96_coordinates() {
    let airy96_from_mid70 = make_airy96_from_mid70_extrinsic();
    let mid70_x = Vector3::new(1.0, 0.0, 0.0);
    let airy96_point = matrix64(airy96_from_mid70.rotation) * mid70_x
        + vector64(airy96_from_mid70.translation);

    assert!((airy96_point.x - 0.0).abs() < 1e-12);
    assert!((airy96_point.y + 1.0).abs() < 1e-12);
    assert!((airy96_point.z - -0.06).abs() < 1e-12);
}

#[test]
fn imu_to_mid70_rotation_composes_back_to_airy96_rotation() {
    let imu_vector = Vector3::new(0.3, -0.4, 0.5);
    let imu_to_mid70 = rotation(make_imu_to_mid70_rotation(&Native));
    let airy96_from_mid70_rotation = matrix64(make_airy96_from_mid70_extrinsic().rotation);

    let via_mid70 = airy96_from_mid70_rotation * (imu_to_mid70 * imu_vector);
    let imu_to_airy96 = rotation(make_imu_to_airy96_rotation(&Native));
    let direct = imu_to_airy96 * imu_vector;

    assert!((via_mid70 - direct).norm() < 1e-12);
}

#[test]
fn both_ways_to_the_airy96_agree_on_every_axis() {
    let mounting = matrix64(make_airy96_from_mid70_extrinsic().rotation);
    let imu_to_mid70 = rotation(make_imu_to_mid70_rotation(&Native));
    let imu_to_airy96 = rotation(make_imu_to_airy96_rotation(&Native));
    let turn = UnitQuaternion::from_matrix(&mounting);
    assert!((turn * imu_to_mid70).angle_to(&imu_to_airy96) < 1e-7);
    for v in [Vector3::x(), Vector3::y(), Vector3::z(), Vector3::new(-0.5, 0.5, 0.7)] {
        assert!((mounting * (imu_to_mid70 * v) - imu_to_airy96 * v).norm() < 1e-12);
    }
    // The mounting is a turn, so the way to the Mid-70 is another one.
    assert!((imu_to_mid70 * Vector3::x() - imu_to_airy96 * Vector3::x()).norm() > 0.5);
}

#[test]
fn imu_to_avia_rotation_preserves_axes() {
    let imu_vector = Vector3::new(0.3, -0.4, 0.5);
    assert!((rotation(make_imu_to_avia_rotation()) * imu_vector - imu_vector).norm() < 1e-12);
}

#[test]
fn calibrated_rotation_has_the_calibrated_quaternion() {
    let expected = UnitQuaternion::new_normalize(nalgebra::Quaternion::new(
        0.00097028,
        -0.705437,
        0.708767,
        -0.00246579,
    ));
    let actual = rotation(make_imu_to_airy96_rotation(&Native));
    assert!(actual.angle_to(&expected) < 1e-12);
    assert!((actual.w - expected.w).abs() < 1e-15);
    assert!((actual.i - expected.i).abs() < 1e-15);
    assert!((actual.j - expected.j).abs() < 1e-15);
    assert!((actual.k - expected.k).abs() < 1e-15);
}

#[test]
fn every_model_has_its_own_rotation() {
    let of = |model: LidarModel| rotation(model.imu_to_lidar_rotation(&Native));
    assert_eq!(
        of(LidarModel::Airy96),
        rotation(make_imu_to_airy96_rotation(&Native))
    );
    assert_eq!(
        of(LidarModel::Mid70),
        rotation(make_imu_to_mid70_rotation(&Native))
    );
    assert_eq!(of(LidarModel::Avia), UnitQuaternion::identity());
}

#[test]
fn constant_velocity_prediction_advances_translation_and_preserves_rotation() {
    let turned = Rotation3::from_euler_angles(0.1, -0.2, 0.3);
    let pose = Pose64 {
        rotation: columns64(turned.into_inner()),
        translation: at64(1.0, 2.0, 3.0),
    };

    let predicted = predict_pose_by_constant_velocity(
        &Native,
        &pose,
        &at64(2.0, -1.0, 0.5),
        double(0.1),
    );

    assert_eq!(predicted.rotation, pose.rotation);
    assert!((d(predicted.translation.x) - 1.2).abs() < 1e-12);
    assert!((d(predicted.translation.y) - 1.9).abs() < 1e-12);
    assert!((d(predicted.translation.z) - 3.05).abs() < 1e-12);
}

#[test]
fn constant_velocity_prediction_ignores_invalid_delta_time() {
    let mut pose = identity_pose();
    pose.translation = at64(1.0, 0.0, 0.0);
    let velocity = at64(2.0, 0.0, 0.0);

    assert_eq!(
        predict_pose_by_constant_velocity(&Native, &pose, &velocity, double(-0.1)),
        pose
    );
    assert_eq!(
        predict_pose_by_constant_velocity(&Native, &pose, &velocity, double(f64::NAN)),
        pose
    );
}

#[test]
fn a_resting_sensor_stays_where_it_is() {
    let mut samples = Vec::new();
    for i in 0..=10 {
        let mut sample = imu_sample(i as f64 * 0.01);
        sample.linear_acceleration = [single(0.0), single(0.0), single(1.0)];
        samples.push(sample);
    }
    let (pose, velocity) = predict_pose_by_imu(
        &Native,
        &samples,
        &make_imu_to_avia_rotation(),
        &identity_pose(),
        &at64(0.0, 0.0, 0.0),
        double(0.0),
        double(0.1),
    );
    assert!(vector64(pose.translation).norm() < 1e-9);
    assert!(vector64(velocity).norm() < 1e-9);
    assert!((matrix64(pose.rotation) - nalgebra::Matrix3::identity()).norm() < 1e-12);
}

#[test]
fn a_turning_sensor_turns_by_its_rate() {
    let mut samples = Vec::new();
    for i in 0..=10 {
        let mut sample = imu_sample(i as f64 * 0.1);
        sample.angular_velocity = [single(0.0), single(0.0), single(0.5)];
        sample.linear_acceleration = [single(0.0), single(0.0), single(1.0)];
        samples.push(sample);
    }
    let (pose, _) = predict_pose_by_imu(
        &Native,
        &samples,
        &make_imu_to_avia_rotation(),
        &identity_pose(),
        &at64(0.0, 0.0, 0.0),
        double(0.0),
        double(1.0),
    );
    let expected = Rotation3::from_axis_angle(&Vector3::z_axis(), 0.5);
    assert!((matrix64(pose.rotation) - expected.into_inner()).norm() < 1e-9);

    let path = build_rotation_trajectory(
        &Native,
        &samples,
        double(0.0),
        double(1.0),
        &make_imu_to_avia_rotation(),
    );
    // The sample at the end of the range is not part of it.
    let (time, last) = path[path.len() - 1];
    assert!((d(time) - 0.9).abs() < 1e-12);
    assert!((rotation(last).angle() - 0.45).abs() < 1e-9);
}

#[test]
fn imu_times_become_seconds() {
    let loaded = vec![
        LoadIMU {
            timestamp: 5_000_000_000,
            angular_velocity: [single(0.1), single(0.2), single(0.3)],
            linear_acceleration: [single(0.0); 3],
        },
        LoadIMU {
            timestamp: 5_250_000_000,
            angular_velocity: [single(0.0); 3],
            linear_acceleration: [single(0.0); 3],
        },
    ];
    let aligned = align_imu_timestamps(&Native, &loaded);
    assert_eq!(aligned.len(), 2);
    assert!((d(aligned[1].timestamp) - d(aligned[0].timestamp) - 0.25).abs() < 1e-9);
    assert_eq!(f(aligned[0].angular_velocity[2]), 0.3);
}

#[test]
fn imu_range_is_where_the_times_are() {
    let samples = vec![imu_sample(0.0), imu_sample(1.0), imu_sample(2.0), imu_sample(3.0)];
    let range = |start: f64, end: f64| get_imu_range(&samples, (double(start), double(end)));
    assert_eq!(range(0.5, 2.5), (1, 3));
    assert_eq!(range(1.0, 2.0), (1, 2));
    assert_eq!(range(9.0, 9.5), (0, 3));
}

// ---------------------------------------------------------------------------
// Surfaces
// ---------------------------------------------------------------------------

fn map_config() -> LocalMapConfig {
    LocalMapConfig {
        index_voxel_size: single(0.05),
        max_points_per_voxel: 20,
        min_points_per_voxel: 2,
        min_observed_frames_per_voxel: 2,
        max_frames: 50,
        max_distance: single(150.0),
    }
}

fn surface_filter_config() -> SurfaceFilterConfig {
    SurfaceFilterConfig {
        neighbor_radius_voxels: 2,
        min_neighbors: 10,
        min_ransac_inliers: 8,
        min_center_observed_frames: 2,
        ransac_iterations: 64,
        ransac_confidence: double(0.999),
        ransac_min_iterations: 8,
        ransac_inlier_distance_m: single(0.025),
        min_inlier_ratio: single(0.50),
        min_planarity: single(0.20),
        max_surface_variation: single(0.04),
        max_pca_rmse_m: single(0.025),
        max_center_distance_m: single(0.025),
    }
}

fn world_update_filter_config() -> WorldMapUpdateFilterConfig {
    WorldMapUpdateFilterConfig {
        mature_plane_search_radius_voxels: 2,
        min_mature_observed_frames: 3,
        accept_distance_m: single(0.02),
        pending_distance_m: single(0.10),
        project_accepted_points: true,
        pending_max_age_frames: 2,
    }
}

fn insert_test_cell(map: &mut LOCALMap, key: VoxelKey, point: Point3) {
    let mut cell = VoxelCell::from_key(&key, map.config.index_voxel_size, point, 1);
    cell.sample_count = 2;
    cell.observed_frames = 2;
    map.voxel_map.insert(key, cell);
}

fn insert_xy_plane(map: &mut LOCALMap, center_is_outlier: bool) {
    for iy in -2..=2 {
        for ix in -2..=2 {
            let is_center = ix == 0 && iy == 0;
            let is_other_outlier = ix == 2 && iy == 2;
            let z = if (center_is_outlier && is_center)
                || (!center_is_outlier && is_other_outlier)
            {
                0.15
            } else {
                0.0
            };
            insert_test_cell(
                map,
                key(ix, iy, 0),
                at(ix as f32 * 0.05, iy as f32 * 0.05, z),
            );
        }
    }
}

fn insert_mature_yz_plane_cell(map: &mut LOCALMap) {
    let origin = key(0, 0, 0);
    let mut cell =
        VoxelCell::from_key(&origin, map.config.index_voxel_size, at(0.0, 0.0, 0.0), 0);
    cell.sample_count = 5;
    cell.observed_frames = 5;
    cell.surface_status = SurfaceStatus::Planar;
    cell.surface_plane = Some(SurfacePlane {
        normal: at(1.0, 0.0, 0.0),
        d: single(0.0),
        rmse_m: single(0.005),
        neighbor_count: 20,
        inlier_count: 18,
    });
    map.voxel_map.insert(origin, cell);
}

#[test]
fn ransac_then_single_pca_keeps_center_on_dominant_plane() {
    let mut map = LOCALMap::new(map_config());
    insert_xy_plane(&mut map, false);

    map.classify_all_surface_voxels(&Native, &surface_filter_config());

    let center = map.voxel_map.get(key(0, 0, 0)).unwrap();
    assert_eq!(center.surface_status, SurfaceStatus::Planar);
    assert_eq!(center.surface_plane.unwrap().inlier_count, 24);
}

#[test]
fn ransac_then_single_pca_rejects_center_away_from_dominant_plane() {
    let mut map = LOCALMap::new(map_config());
    insert_xy_plane(&mut map, true);

    map.classify_all_surface_voxels(&Native, &surface_filter_config());

    let center = map.voxel_map.get(key(0, 0, 0)).unwrap();
    assert_eq!(center.surface_status, SurfaceStatus::NonPlanar);
    assert!(center.surface_plane.is_none());
}

#[test]
fn ransac_removes_parallel_noise_before_pca() {
    let mut points = Vec::new();
    for iy in -2..=2 {
        for ix in -2..=2 {
            points.push(at(ix as f32 * 0.05, iy as f32 * 0.05, 0.0));
        }
    }
    for ix in -2..=2 {
        points.push(at(ix as f32 * 0.05, 0.0, 0.06));
        points.push(at(ix as f32 * 0.05, 0.0, -0.06));
    }

    let center_key = key(0, 0, 0);
    let run = |inliers: &mut Vec<Point3>| {
        ransac_plane_inliers(
            &Native,
            &points,
            center_key,
            64,
            8,
            double(0.999),
            single(0.025),
            inliers,
        )
    };
    let mut first = Vec::new();
    let mut second = Vec::new();
    assert!(run(&mut first).found);
    assert!(run(&mut second).found);

    assert_eq!(first, second);
    assert_eq!(first.len(), 25);
    assert!(first.iter().all(|point| f(point.z) == 0.0));
}

#[test]
fn surface_timing_sampling_is_deterministic_and_sparse() {
    let keys: Vec<VoxelKey> = (0..4096)
        .map(|ix: i32| VoxelKey { ix, iy: ix.wrapping_mul(17), iz: ix.wrapping_mul(-31) })
        .collect();
    let first: Vec<bool> = keys.iter().map(|key| should_sample_surface_timing(*key)).collect();
    let second: Vec<bool> = keys.iter().map(|key| should_sample_surface_timing(*key)).collect();
    let sampled = first.iter().filter(|sampled| **sampled).count();

    assert_eq!(first, second);
    assert!((32..=96).contains(&sampled), "sampled={sampled}");
}

#[test]
fn adaptive_ransac_limit_uses_best_inlier_ratio() {
    let limit = |inliers: usize| {
        adaptive_ransac_iteration_limit(&Native, inliers, 100, double(0.999), 8, 48)
    };
    assert_eq!(limit(50), 48);
    assert_eq!(limit(60), 29);
    assert_eq!(limit(70), 17);
    assert_eq!(limit(80), 10);
    assert_eq!(limit(90), 8);
}

#[test]
fn ransac_prunes_losing_hypotheses() {
    let points = [
        at(0.0, 0.0, 0.0),
        at(1.0, 0.0, 0.0),
        at(0.0, 1.0, 0.0),
        at(0.0, 0.0, 1.0),
        at(1.0, 1.0, 1.0),
    ];
    let mut inliers = Vec::new();

    let outcome = ransac_plane_inliers(
        &Native,
        &points,
        key(7, -3, 11),
        64,
        8,
        double(0.999),
        single(0.01),
        &mut inliers,
    );

    assert!(outcome.found);
    assert!(outcome.pruned_hypotheses > 0);
    assert!(outcome.point_tests > 0);
    assert!(outcome.point_tests_skipped > 0);
    assert!(outcome.adaptive_stopped);
    assert!(outcome.iterations_saved > 0);
}

#[test]
fn no_drawn_plane_has_more_inliers_than_are_returned() {
    let mut points = Vec::new();
    for i in 0..40 {
        let (u, v) = ((i % 8) as f32 * 0.1, (i / 8) as f32 * 0.1);
        let z = if i % 3 == 0 { 0.3 + 0.07 * u * v } else { 0.002 * (i % 5) as f32 };
        points.push(at(u, v, z));
    }
    let center = key(3, -4, 5);
    let threshold = 0.01f32;
    let mut inliers = Vec::new();
    let outcome = ransac_plane_inliers(
        &Native,
        &points,
        center,
        64,
        8,
        double(0.999),
        single(threshold),
        &mut inliers,
    );
    assert!(outcome.found);
    assert!(inliers.len() < points.len());
    let mut state = ransac_seed(center);
    let mut most = 0;
    for _ in 0..outcome.draws {
        let (a, b, c) = sample_three_distinct_indices(&mut state, points.len());
        let origin = vector(points[a]);
        let cross = (vector(points[b]) - origin).cross(&(vector(points[c]) - origin));
        if cross.norm() > 1e-6 {
            let normal = cross / cross.norm();
            let offset = -normal.dot(&origin);
            let near = |p: &&Point3| {
                let distance = normal.dot(&vector(**p)) + offset;
                distance * distance <= threshold * threshold
            };
            most = most.max(points.iter().filter(near).count());
        }
    }
    assert_eq!(inliers.len(), most);
}

#[test]
fn surface_filter_accepts_eight_planar_inliers_in_sparse_neighborhood() {
    let mut map = LOCALMap::new(map_config());
    for iy in -1..=1 {
        for ix in -1..=1 {
            if ix == 1 && iy == 1 {
                continue;
            }
            insert_test_cell(
                &mut map,
                key(ix, iy, 0),
                at(ix as f32 * 0.05, iy as f32 * 0.05, 0.0),
            );
        }
    }
    insert_test_cell(&mut map, key(2, 2, 1), at(0.10, 0.10, 0.08));
    insert_test_cell(&mut map, key(-2, -2, -1), at(-0.10, -0.10, -0.08));

    map.classify_all_surface_voxels(&Native, &surface_filter_config());

    let center = map.voxel_map.get(key(0, 0, 0)).unwrap();
    assert_eq!(center.surface_status, SurfaceStatus::Planar);
    assert!(center.surface_plane.unwrap().inlier_count >= 8);
}

#[test]
fn delayed_classification_releases_frame_after_requested_age() {
    let mut map = LOCALMap::new(map_config());
    let pose = identity_pose();
    let points = [at(0.01, 0.01, 0.01)];
    let filter_config = surface_filter_config();

    map.update_world_map(&Native, &points, &pose);
    assert_eq!(
        map.classify_delayed_surface_voxels(&Native, 2, &filter_config).evaluated,
        0
    );
    assert_eq!(map.frame_index.len(), 1);

    map.update_world_map(&Native, &points, &pose);
    assert_eq!(
        map.classify_delayed_surface_voxels(&Native, 2, &filter_config).evaluated,
        0
    );
    assert_eq!(map.frame_index.len(), 2);

    map.update_world_map(&Native, &points, &pose);
    assert_eq!(
        map.classify_delayed_surface_voxels(&Native, 2, &filter_config).evaluated,
        1
    );
    assert_eq!(map.frame_index.len(), 2);
    assert_eq!(map.frame_index.front().unwrap().frame_id, 1);

    // The voxel was judged with all the frames up to 2, so the frames 1 and 2 that are
    // released later do not have it judged again.
    map.update_world_map(&Native, &points, &pose);
    let stats = map.classify_delayed_surface_voxels(&Native, 2, &filter_config);
    assert_eq!(stats.evaluated, 0);
    assert_eq!(stats.skipped_unchanged_probes, 1);

    map.update_world_map(&Native, &points, &pose);
    let stats = map.classify_delayed_surface_voxels(&Native, 2, &filter_config);
    assert_eq!(stats.evaluated, 0);
    assert_eq!(stats.skipped_unchanged_probes, 1);

    // Frame 3 is newer than the last judgement.
    map.update_world_map(&Native, &points, &pose);
    let stats = map.classify_delayed_surface_voxels(&Native, 2, &filter_config);
    assert_eq!(stats.evaluated, 1);
    assert_eq!(stats.skipped_unchanged_probes, 0);
}

#[test]
fn delayed_classification_re_evaluates_after_filter_config_change() {
    let mut map = LOCALMap::new(map_config());
    let pose = identity_pose();
    let points = [at(0.01, 0.01, 0.01)];
    let filter_config = surface_filter_config();

    for _ in 0..3 {
        map.update_world_map(&Native, &points, &pose);
    }
    assert_eq!(
        map.classify_delayed_surface_voxels(&Native, 2, &filter_config).evaluated,
        1
    );

    map.update_world_map(&Native, &points, &pose);
    let mut changed_config = filter_config;
    changed_config.min_neighbors += 1;
    let stats = map.classify_delayed_surface_voxels(&Native, 2, &changed_config);
    assert_eq!(stats.evaluated, 1);
    assert_eq!(stats.skipped_unchanged_probes, 0);
}

#[test]
fn delayed_classification_handles_immature_center_without_parallel_evaluation() {
    let mut map = LOCALMap::new(map_config());
    let pose = identity_pose();
    let filter_config = surface_filter_config();

    // The frames lie outside each other's neighbourhoods, so that the voxel of frame 0 is
    // judged after one observation.
    map.update_world_map(&Native, &[at(0.01, 0.01, 0.01)], &pose);
    map.update_world_map(&Native, &[at(1.01, 0.01, 0.01)], &pose);
    map.update_world_map(&Native, &[at(2.01, 0.01, 0.01)], &pose);

    let stats = map.classify_delayed_surface_voxels(&Native, 2, &filter_config);
    assert_eq!(stats.evaluated, 1);
    assert_eq!(stats.unknown, 1);
    assert_eq!(stats.immature_fast_path, 1);

    let cell = map.voxel_map.get(key(0, 0, 0)).unwrap();
    assert_eq!(cell.surface_status, SurfaceStatus::Unknown);
    assert_eq!(cell.surface_evaluated_through_frame_id, Some(2));
}

#[test]
fn filtered_world_update_projects_observation_onto_mature_plane() {
    let mut map = LOCALMap::new(map_config());
    insert_mature_yz_plane_cell(&mut map);

    let stats = map.update_world_map_filtered(
        &Native,
        &[at(0.015, 0.01, 0.01)],
        &identity_pose(),
        &world_update_filter_config(),
    );

    assert_eq!(stats.projected_to_mature_plane, 1);
    assert_eq!(stats.held_pending, 0);
    let updated = map.voxel_map.get(key(0, 0, 0)).unwrap();
    assert!(f(updated.mean.x).abs() < 1e-6);
}

#[test]
fn filtered_world_update_holds_seven_centimeter_parallel_layer() {
    let mut map = LOCALMap::new(map_config());
    insert_mature_yz_plane_cell(&mut map);
    let original_voxel_count = map.voxel_map.len();

    let stats = map.update_world_map_filtered(
        &Native,
        &[at(0.07, 0.01, 0.01)],
        &identity_pose(),
        &world_update_filter_config(),
    );

    assert_eq!(stats.held_pending, 1);
    assert_eq!(stats.projected_to_mature_plane, 0);
    assert_eq!(stats.pending_voxels, 1);
    assert_eq!(map.voxel_map.len(), original_voxel_count);
    assert!(!map.voxel_map.contains_key(key(1, 0, 0)));
}

#[test]
fn filtered_world_update_keeps_new_structure_without_nearby_mature_plane() {
    let mut map = LOCALMap::new(map_config());

    let stats = map.update_world_map_filtered(
        &Native,
        &[at(1.0, 0.0, 0.0)],
        &identity_pose(),
        &world_update_filter_config(),
    );

    assert_eq!(stats.inserted_provisional, 1);
    assert_eq!(stats.held_pending, 0);
    assert_eq!(map.voxel_map.len(), 1);
}

#[test]
fn old_pending_voxels_are_dropped() {
    let mut map = LOCALMap::new(map_config());
    insert_mature_yz_plane_cell(&mut map);
    let config = world_update_filter_config();
    map.update_world_map_filtered(&Native, &[at(0.07, 0.01, 0.01)], &identity_pose(), &config);
    assert_eq!(map.pending_voxel_count(), 1);
    for _ in 0..4 {
        map.update_world_map_filtered(&Native, &[at(5.0, 0.0, 0.0)], &identity_pose(), &config);
    }
    assert_eq!(map.pending_voxel_count(), 0);
}

#[test]
fn non_finite_points_are_rejected() {
    let mut map = LOCALMap::new(map_config());
    let config = world_update_filter_config();
    let stats = map.update_world_map_filtered(
        &Native,
        &[at(f32::INFINITY, 0.0, 0.0), at(1.0, 1.0, 1.0)],
        &identity_pose(),
        &config,
    );
    assert_eq!(stats.input_points, 2);
    assert_eq!(stats.rejected_non_finite, 1);
    assert_eq!(stats.inserted_provisional, 1);
}

#[test]
fn points_are_taken_up_by_their_distance_from_a_mature_plane() {
    let mut map = LOCALMap::new(map_config());
    insert_mature_yz_plane_cell(&mut map);
    let mut config = world_update_filter_config();
    let decide = |map: &LOCALMap, config: &WorldMapUpdateFilterConfig, x: f32| {
        map.classify_world_point_update(&Native, at(x, 0.01, 0.01), config)
    };
    assert_eq!(
        decide(&map, &config, 0.015),
        WorldPointUpdateDecision::InsertOnMaturePlane {
            original: at(0.015, 0.01, 0.01),
            insertion: at(0.0, 0.01, 0.01),
        }
    );
    assert_eq!(
        decide(&map, &config, 0.07),
        WorldPointUpdateDecision::HoldPending { point: at(0.07, 0.01, 0.01) }
    );
    assert_eq!(
        decide(&map, &config, 0.5),
        WorldPointUpdateDecision::InsertProvisional { point: at(0.5, 0.01, 0.01) }
    );
    config.project_accepted_points = false;
    assert_eq!(
        decide(&map, &config, 0.015),
        WorldPointUpdateDecision::InsertOnMaturePlane {
            original: at(0.015, 0.01, 0.01),
            insertion: at(0.015, 0.01, 0.01),
        }
    );
}

#[test]
fn a_local_map_forgets_what_is_far() {
    let mut map = LOCALMap::new(map_config());
    map.update_with_new_frame(&Native, &[at(1.0, 0.0, 0.0)], &identity_pose());
    assert_eq!(map.voxel_map.len(), 1);
    let mut far = identity_pose();
    far.translation = at64(1000.0, 0.0, 0.0);
    map.update_with_new_frame(&Native, &[at(1.0, 0.0, 0.0)], &far);
    assert_eq!(map.voxel_map.len(), 1);
    assert!(!map.voxel_map.contains_key(voxel_key(
        &Native,
        at(1.0, 0.0, 0.0),
        single(0.05)
    )));
    assert!(map.voxel_map.contains_key(voxel_key(
        &Native,
        at(1001.0, 0.0, 0.0),
        single(0.05)
    )));
}

#[test]
fn a_local_map_forgets_what_is_at_its_limit() {
    let mut map = LOCALMap::new(map_config());
    map.update_with_new_frame(&Native, &[at(150.0, 0.0, 0.0)], &identity_pose());
    assert_eq!(map.voxel_map.len(), 0);
    map.update_with_new_frame(&Native, &[at(149.99, 0.0, 0.0)], &identity_pose());
    assert_eq!(map.voxel_map.len(), 1);
}

#[test]
fn only_planar_voxels_are_exported_on_request() {
    let mut map = LOCALMap::new(map_config());
    insert_mature_yz_plane_cell(&mut map);
    insert_test_cell(&mut map, key(9, 9, 9), at(0.46, 0.46, 0.46));
    assert_eq!(exported_points(&map, true), vec![at(0.0, 0.0, 0.0)]);
    assert!(exported_points(&map, false).len() >= 1);
}

// ---------------------------------------------------------------------------
// Downsampling
// ---------------------------------------------------------------------------

fn sort_points(points: &mut [Point3]) {
    points.sort_unstable_by(|left, right| {
        f(left.x)
            .total_cmp(&f(right.x))
            .then_with(|| f(left.y).total_cmp(&f(right.y)))
            .then_with(|| f(left.z).total_cmp(&f(right.z)))
    });
}

fn assert_same_points(mut actual: Vec<Point3>, mut expected: Vec<Point3>) {
    sort_points(&mut actual);
    sort_points(&mut expected);
    assert_eq!(actual.len(), expected.len());

    for (actual, expected) in actual.iter().zip(expected.iter()) {
        assert!((f(actual.x) - f(expected.x)).abs() <= 1.0e-6);
        assert!((f(actual.y) - f(expected.y)).abs() <= 1.0e-6);
        assert!((f(actual.z) - f(expected.z)).abs() <= 1.0e-6);
    }
}

fn wavy_points() -> Vec<Point3> {
    (0..10_000)
        .map(|index| {
            let index = index as f32;
            at(
                (index * 0.137).sin() * 40.0,
                (index * 0.071).cos() * 25.0,
                (index % 97.0) * 0.031 - 1.5,
            )
        })
        .collect()
}

#[test]
fn dual_downsample_matches_independent_downsamples() {
    let points = wavy_points();

    let expected_first = voxel_downsample_points(&Native, &points, single(0.25));
    let expected_second = voxel_downsample_points(&Native, &points, single(0.05));
    let (actual_first, actual_second) =
        voxel_downsample_points_dual(&Native, &points, single(0.25), single(0.05));

    assert_same_points(actual_first, expected_first);
    assert_same_points(actual_second, expected_second);
}

#[test]
fn dual_downsample_handles_empty_input() {
    let (first, second) =
        voxel_downsample_points_dual(&Native, &[], single(0.25), single(0.05));
    assert!(first.is_empty());
    assert!(second.is_empty());
}

fn assert_same_cells(actual: &VoxelMap, expected: &VoxelMap) {
    assert_eq!(actual.len(), expected.len());
    for key in expected.keys() {
        let (actual, expected) = (actual.get(key).unwrap(), expected.get(key).unwrap());
        assert_eq!(actual.point.0, expected.point.0);
        assert_eq!(actual.mean, expected.mean);
    }
}

#[test]
fn dual_downsample_maps_match_separate_map_builds() {
    let points = wavy_points();

    let (first, second) =
        voxel_downsample_points_and_maps_dual(&Native, &points, single(0.25), single(0.05));
    let expected_first_map = build_voxel_map(&Native, &first.points, single(0.25), 0, false);
    let expected_second_map = build_voxel_map(&Native, &second.points, single(0.05), 0, false);

    assert_same_cells(&first.voxel_map, &expected_first_map);
    assert_same_cells(&second.voxel_map, &expected_second_map);
}

#[test]
fn dual_downsample_maps_handle_empty_input() {
    let (first, second) =
        voxel_downsample_points_and_maps_dual(&Native, &[], single(0.25), single(0.05));
    assert!(first.points.is_empty());
    assert_eq!(first.voxel_map.len(), 0);
    assert!(second.points.is_empty());
    assert_eq!(second.voxel_map.len(), 0);
}

#[test]
fn points_of_one_voxel_become_their_mean() {
    let points = [at(0.1, 0.1, 0.1), at(0.3, 0.1, 0.1), at(5.0, 5.0, 5.0)];
    let mut down = voxel_downsample_points(&Native, &points, single(1.0));
    sort_points(&mut down);
    assert_eq!(down.len(), 2);
    assert!((f(down[0].x) - 0.2).abs() < 1e-6);
    assert_eq!(down[1], at(5.0, 5.0, 5.0));
}

#[test]
fn a_wide_cloud_exceeds_the_codes() {
    let points = [at(0.0, 0.0, 0.0), at(3_000_000.0, 0.0, 0.0)];
    assert!(morton_extent_exceeded(&Native, &points, single(1.0)));
    assert!(!morton_extent_exceeded(&Native, &points, single(10.0)));
}

// ---------------------------------------------------------------------------
// Planes and matching
// ---------------------------------------------------------------------------

fn floor_points(spacing: f32, height: f32) -> Vec<Point3> {
    let mut points = Vec::new();
    for y in -3..=3 {
        for x in -3..=3 {
            points.push(at(x as f32 * spacing, y as f32 * spacing, height));
        }
    }
    points
}

#[test]
fn a_floor_has_an_upright_normal() {
    let plane = fit_plane(&Native, &floor_points(0.5, 2.0)).unwrap();
    assert!((f(plane.normal.z).abs() - 1.0).abs() < 1e-5);
    assert!((f(plane.d).abs() - 2.0).abs() < 1e-4);
    assert!(f(plane.planarity(&Native)) > 0.9);
    assert!(f(plane.surface_variation(&Native)).abs() < 1e-5);
    assert!(f(plane_rmse(&Native, plane.equation(), &floor_points(0.5, 2.0))) < 1e-4);
    assert!(fit_plane(&Native, &floor_points(0.5, 2.0)[..2]).is_none());
}

#[test]
fn points_off_a_plane_are_noticed() {
    let up = at(0.0, 0.0, 1.0);
    let near = [at(0.0, 0.0, 0.05), at(1.0, 0.0, -0.05), at(0.0, 1.0, 0.0)];
    let far = [at(0.0, 0.0, 0.05), at(1.0, 0.0, -0.5), at(0.0, 1.0, 0.0)];
    assert!(!check_points_on_plane(&Native, up, single(0.0), &near[..2], single(0.1)));
    assert!(!check_points_on_plane(&Native, up, single(0.0), &near, single(0.0)));
    assert!(check_points_on_plane(&Native, up, single(0.0), &near, single(0.1)));
    assert!(!check_points_on_plane(&Native, up, single(0.0), &far, single(0.1)));
    let on = |z: f32| {
        check_source_on_plane(
            &Native,
            up,
            single(0.0),
            at(0.0, 0.0, z),
            single(4.0),
            single(0.9),
        )
    };
    // The score is 1 - 0.9 * 0.2 / 2 = 0.91 in the first case, and 0.82 in the second.
    assert!(on(0.2));
    assert!(!on(0.4));
}

fn matching() -> MatchingLimits {
    AlignmentSettings::default().matching
}

#[test]
fn the_nearest_voxels_come_first() {
    let map = build_voxel_map(&Native, &floor_points(0.25, 0.1), single(0.25), 0, true);
    let found = find_k_nearest_target_voxels(
        &Native,
        at(0.02, 0.01, 0.1),
        &map,
        single(0.25),
        2,
        single(1.0),
        5,
    );
    assert_eq!(found.len(), 5);
    for pair in found.windows(2) {
        assert!(f(pair[0].1) <= f(pair[1].1));
    }
    assert_eq!(map.get(found[0].0).unwrap().mean, at(0.0, 0.0, 0.1));
}

#[test]
fn correspondences_have_the_plane_of_the_target() {
    let target = build_voxel_map(&Native, &floor_points(0.25, 0.1), single(0.25), 0, true);
    let source = build_voxel_map(&Native, &[at(0.05, 0.05, 0.12)], single(0.25), 0, false);
    let found = pickup_valid_source_points(
        &Native,
        &source,
        &target,
        &matching(),
        identity_matrix(),
        at(0.0, 0.0, 0.0),
    );
    assert_eq!(found.len(), 1);
    assert!((f(found[0].plane_normal.z).abs() - 1.0).abs() < 1e-5);
    let rmse = compute_rmse(&Native, &found, identity_matrix(), at(0.0, 0.0, 0.0));
    assert!((f(rmse) - 0.02).abs() < 1e-4);

    let mut strict = matching();
    strict.source_to_plane_max_distance = Some(single(0.01));
    let found = pickup_valid_source_points(
        &Native,
        &source,
        &target,
        &strict,
        identity_matrix(),
        at(0.0, 0.0, 0.0),
    );
    assert!(found.is_empty());
}

#[test]
fn the_farthest_neighbor_may_be_at_the_limit() {
    let mut target = VoxelMap::new();
    for (k, p) in [
        (key(0, 0, 0), at(0.5, 0.0, 0.0)),
        (key(0, 1, 0), at(0.0, 0.75, 0.0)),
        (key(-1, 0, 0), at(-1.0, 0.0, 0.0)),
    ] {
        target.insert(k, VoxelCell::from_key(&k, single(1.0), p, 0));
    }
    let source = build_voxel_map(&Native, &[at(4.0, 0.0, 0.0)], single(1.0), 0, false);
    let found = |factor: f32| {
        let limits = MatchingLimits {
            target_voxel_size: single(1.0),
            search_range: 1,
            k: 3,
            max_dist_factor: single(factor),
            plane_point_distance_threshold: single(0.1),
            source_plane_score_threshold: single(0.9),
            source_to_plane_max_distance: None,
            min_planarity: None,
        };
        pickup_valid_source_points(
            &Native,
            &source,
            &target,
            &limits,
            identity_matrix(),
            at(-4.0, 0.0, 0.0),
        )
        .len()
    };
    assert_eq!(found(1.0), 1);
    assert_eq!(found(0.999), 0);
}

#[test]
fn no_correspondence_has_no_error() {
    let nothing: [PointCorrespondence; 0] = [];
    let rmse = compute_rmse(&Native, &nothing, identity_matrix(), at(0.0, 0.0, 0.0));
    assert_eq!(f(rmse), f32::INFINITY);
}

#[test]
fn the_robust_cost_is_that_of_the_system() {
    let found = [
        correspondence(Vector3::new(1.0, 0.0, 0.5), Vector3::z(), -0.45),
        correspondence(Vector3::new(0.0, 2.0, 0.0), Vector3::y(), 0.0),
    ];
    let system = build_robust_point_to_plane_system(
        &Native,
        &found,
        identity_matrix(),
        at(0.0, 0.0, 0.0),
        single(0.1),
    );
    let cost = compute_robust_cost(
        &Native,
        &found,
        identity_matrix(),
        at(0.0, 0.0, 0.0),
        single(0.1),
    );
    assert!((f(system.cost) - f(cost)).abs() < 1e-6);
    let each = |r: f32| f(huber_loss(&Native, single(r), single(0.1)));
    assert!((f(cost) - each(0.05) - each(2.0)).abs() < 1e-5);
    let h = matrix6(system.h);
    assert_eq!(h, h.transpose());
}

#[test]
fn a_step_moves_the_pose() {
    let delta = entries6(nalgebra::Vector6::new(0.0, 0.0, 0.1, 1.0, 2.0, 3.0));
    let (r, t) = apply_delta(&Native, identity_matrix(), at(0.0, 0.0, 0.0), &delta);
    let turned = Rotation3::from_axis_angle(&Vector3::z_axis(), 0.1f32);
    assert!((matrix(r) - turned.into_inner()).norm() < 1e-6);
    assert_eq!(t, at(1.0, 2.0, 3.0));
    let system = diagonal_system([10.0; 6], [1.0, 2.0, 3.0, 4.0, 5.0, 6.0]);
    let solved = vector6(solve_icp_delta(&Native, &system, single(1e-6)).unwrap());
    for (i, value) in solved.iter().enumerate() {
        assert!((value - (i as f32 + 1.0) * 0.1).abs() < 1e-4);
    }
}

#[test]
fn corrections_are_measured_from_the_prediction() {
    let moved = Pose {
        rotation: columns(
            Rotation3::from_axis_angle(&Vector3::x_axis(), 10f32.to_radians()).into_inner(),
        ),
        translation: at(3.0, 4.0, 0.0),
    };
    let (distance, angle) = pose_correction_magnitudes(&Native, still_pose(), moved);
    assert!((f(distance) - 5.0).abs() < 1e-6);
    assert!((f(angle) - 10.0).abs() < 1e-3);
}

#[test]
fn enough_correspondences_are_a_share_of_the_points() {
    let settings = AlignmentSettings::default();
    assert_eq!(min_correspondences(&Native, &settings, 10), 100);
    assert_eq!(min_correspondences(&Native, &settings, 10_000), 500);
}

// ---------------------------------------------------------------------------
// Whole frames
// ---------------------------------------------------------------------------

struct NoClock;

impl StageClock for NoClock {
    fn lap(&mut self, _field: TimingField) {}
}

#[derive(Default)]
struct LapCounter {
    laps: Vec<TimingField>,
}

impl StageClock for LapCounter {
    fn lap(&mut self, field: TimingField) {
        self.laps.push(field);
    }
}

fn room() -> Vec<Point3> {
    let mut points = Vec::new();
    for a in -12..=12 {
        for b in -12..=12 {
            let (u, v) = (a as f32 * 0.3 + 0.05, b as f32 * 0.3 + 0.05);
            points.push(at(u, v, -2.0));
            points.push(at(u, 4.0, v * 0.5));
            points.push(at(4.0, u, v * 0.5));
        }
    }
    points
}

#[test]
fn a_frame_is_aligned_to_the_map() {
    let target = build_voxel_map(&Native, &room(), single(0.25), 0, true);
    let source = build_voxel_map(&Native, &room(), single(0.25), 0, false);
    let predicted = Pose { rotation: identity_matrix(), translation: at(0.03, -0.02, 0.02) };
    let outcome = align_frame(
        &Native,
        &mut NoClock,
        &AlignmentSettings::default(),
        predicted,
        &source,
        &target,
    );
    assert!(outcome.icp_ok);
    assert!(outcome.correspondence_count >= 100);
    assert!(vector(outcome.pose.translation).norm() < 0.02);
}

#[test]
fn a_frame_without_matches_keeps_the_prediction() {
    let target = build_voxel_map(&Native, &[at(90.0, 90.0, 90.0)], single(0.25), 0, true);
    let source = build_voxel_map(&Native, &room(), single(0.25), 0, false);
    let predicted = Pose { rotation: identity_matrix(), translation: at(0.03, -0.02, 0.02) };
    let outcome = align_frame(
        &Native,
        &mut NoClock,
        &AlignmentSettings::default(),
        predicted,
        &source,
        &target,
    );
    assert!(!outcome.icp_ok);
    assert_eq!(outcome.pose, predicted);
}

fn slam_settings() -> SlamSettings {
    let mut global_matching = matching();
    global_matching.plane_point_distance_threshold = single(0.20);
    global_matching.source_plane_score_threshold = single(0.75);
    global_matching.source_to_plane_max_distance = Some(single(0.08));
    SlamSettings {
        alignment: AlignmentSettings::default(),
        global_matching,
        world_update: world_update_filter_config(),
        surface: surface_filter_config(),
        surface_delay_frames: 5,
    }
}

fn room_input(time: f64) -> FrameInput {
    let (local_source, global_source) =
        voxel_downsample_points_and_maps_dual(&Native, &room(), single(0.25), single(0.05));
    FrameInput {
        local_source,
        global_source,
        predicted_pose: identity_pose(),
        predicted_velocity: at64(0.0, 0.0, 0.0),
        previous_time: double(time),
        current_time: double(time + 0.1),
    }
}

#[test]
fn the_first_frame_fills_the_maps_and_the_next_is_aligned() {
    let mut local_config = map_config();
    local_config.index_voxel_size = single(0.25);
    let mut maps = SLAMMap {
        global_voxel_map: LOCALMap::new(map_config()),
        local_voxel_map: LOCALMap::new(local_config),
    };
    let mut info = CurrentFrameInfo {
        current_global_pose: identity_pose(),
        current_velocity: at64(0.0, 0.0, 0.0),
    };
    let settings = slam_settings();
    let mut clock = LapCounter::default();
    let first =
        process_frame(&Native, &mut clock, &settings, &mut maps, &mut info, &room_input(0.0));
    assert_eq!(
        clock.laps,
        vec![
            TimingField::PoseUpdate,
            TimingField::GlobalFilter,
            TimingField::GlobalMapUpdate,
            TimingField::DelayedSurface,
            TimingField::LocalMapUpdate,
        ]
    );
    assert!(first.map_updated);
    assert!(!first.outcome.icp_ok);
    assert_eq!(first.outcome.pose, first.predicted);
    assert_eq!(first.outcome.correspondence_count, 0);
    assert!(first.outcome.final_rmse.is_none());
    assert!(maps.local_voxel_map.voxel_map.len() > 100);
    assert_eq!(maps.local_voxel_map.next_frame_id, 1);
    assert_eq!(maps.global_voxel_map.next_frame_id, 1);

    let second =
        process_frame(&Native, &mut NoClock, &settings, &mut maps, &mut info, &room_input(0.1));
    assert!(second.outcome.icp_ok);
    assert!(second.map_updated);
    assert!(vector64(info.current_global_pose.translation).norm() < 0.01);
    assert_eq!(maps.global_voxel_map.next_frame_id, 2);
}

#[test]
fn frames_are_matched_with_the_voxels_of_the_map() {
    let mut local_config = map_config();
    local_config.index_voxel_size = single(0.25);
    let run = |settings: &SlamSettings| {
        let mut maps = SLAMMap {
            global_voxel_map: LOCALMap::new(map_config()),
            local_voxel_map: LOCALMap::new(local_config),
        };
        let mut info = CurrentFrameInfo {
            current_global_pose: identity_pose(),
            current_velocity: at64(0.0, 0.0, 0.0),
        };
        process_frame(&Native, &mut NoClock, settings, &mut maps, &mut info, &room_input(0.0));
        let mut next = room_input(0.1);
        next.predicted_pose.translation = at64(0.03, -0.02, 0.02);
        process_frame(&Native, &mut NoClock, settings, &mut maps, &mut info, &next)
    };
    let mut settings = slam_settings();
    let expected = run(&settings);
    settings.alignment = settings.alignment.over_voxels(single(0.001));
    settings.global_matching = settings.global_matching.over_voxels(single(0.001));
    let actual = run(&settings);
    assert!(actual.outcome.icp_ok);
    assert_eq!(
        actual.outcome.correspondence_count,
        expected.outcome.correspondence_count
    );
    assert!(
        (vector(actual.outcome.pose.translation) - vector(expected.outcome.pose.translation))
            .norm()
            < 1e-4
    );
    assert!(actual.world_stats.input_points > 0);
    assert_eq!(actual.world_stats.input_points, expected.world_stats.input_points);
}

#[test]
fn limits_over_other_voxels_differ_in_the_size_alone() {
    let limits = matching().over_voxels(single(0.5));
    assert_eq!(limits.target_voxel_size, single(0.5));
    assert_eq!(limits.search_range, matching().search_range);
    assert_eq!(limits.k, matching().k);
    let settings = AlignmentSettings::default().over_voxels(single(0.5));
    assert_eq!(settings.matching.target_voxel_size, single(0.5));
    assert_eq!(settings.recovery_matching.target_voxel_size, single(0.5));
    assert_eq!(settings.iterations, AlignmentSettings::default().iterations);
    assert_eq!(settings.recovery_matching.search_range, 6);
}

#[test]
fn the_first_frame_stands_where_it_was_predicted() {
    let mut maps = SLAMMap {
        global_voxel_map: LOCALMap::new(map_config()),
        local_voxel_map: LOCALMap::new(map_config()),
    };
    let mut info = CurrentFrameInfo {
        current_global_pose: identity_pose(),
        current_velocity: at64(0.0, 0.0, 0.0),
    };
    let mut input = room_input(0.0);
    input.predicted_pose.translation = at64(2.0, -1.0, 0.5);
    input.predicted_velocity = at64(3.0, 0.0, 0.0);
    let r =
        process_frame(&Native, &mut NoClock, &slam_settings(), &mut maps, &mut info, &input);
    assert_eq!(r.outcome.pose.translation, at(2.0, -1.0, 0.5));
    assert_eq!(info.current_global_pose.translation, at64(2.0, -1.0, 0.5));
    assert_eq!(info.current_velocity, at64(3.0, 0.0, 0.0));
    let point = input.local_source.points[0];
    let moved = point_of_frame(point);
    assert!(maps
        .local_voxel_map
        .voxel_map
        .contains_key(voxel_key(&Native, moved, single(0.05))));
}

fn point_of_frame(p: Point3) -> Point3 {
    point(vector(p) + Vector3::new(2.0, -1.0, 0.5))
}

#[test]
fn velocity_is_the_way_over_the_time() {
    let info = CurrentFrameInfo {
        current_global_pose: identity_pose(),
        current_velocity: at64(0.0, 0.0, 0.0),
    };
    let outcome = AlignmentOutcome {
        pose: Pose { rotation: identity_matrix(), translation: at(0.5, 0.0, 0.0) },
        icp_ok: true,
        final_rmse: None,
        correspondence_count: 0,
        correspondence_ratio: single(0.0),
        observable_rank: 6,
        eigenvalue_ratio: None,
    };
    let next = advance(
        &Native,
        &info,
        &outcome,
        at64(9.0, 9.0, 9.0),
        double(1.0),
        double(1.5),
    );
    assert!((d(next.current_velocity.x) - 1.0).abs() < 1e-9);
    assert_eq!(d(next.current_global_pose.translation.x), 0.5);
    let (way, turn) = motion(&Native, &info.current_global_pose, &next.current_global_pose);
    assert!((d(way) - 0.5).abs() < 1e-12);
    assert!(d(turn).abs() < 1e-6);

    let failed = AlignmentOutcome { icp_ok: false, ..outcome };
    let next = advance(
        &Native,
        &info,
        &failed,
        at64(9.0, 8.0, 7.0),
        double(1.0),
        double(1.5),
    );
    assert_eq!(next.current_velocity, at64(9.0, 8.0, 7.0));
}

// ---------------------------------------------------------------------------
// The plane filter
// ---------------------------------------------------------------------------

fn model(normal: Vector3<f32>, center: Vector3<f32>) -> PlaneModel {
    PlaneModel {
        center: point(center),
        normal: point(normal),
        lambda_min: single(0.0),
        lambda_mid: single(1.0),
        lambda_max: single(1.0),
        inlier_count: 10,
        inlier_ratio: single(1.0),
    }
}

#[test]
fn parallel_planes_must_be_close() {
    let config = FilterConfig::default();
    let floor = model(Vector3::z(), Vector3::zeros());
    let near = model(Vector3::z(), Vector3::new(1.0, 0.0, 0.03));
    let far = model(-Vector3::z(), Vector3::new(0.0, 0.0, 0.05));
    let wall = model(Vector3::x(), Vector3::new(5.0, 0.0, 9.0));
    assert!(planes_are_compatible(&Native, &floor, &near, &config));
    assert!(!planes_are_compatible(&Native, &floor, &far, &config));
    assert!(planes_are_compatible(&Native, &floor, &wall, &config));
    assert!((f(floor.distance(&Native, at(3.0, 4.0, -0.5))) - 0.5).abs() < 1e-6);
}

#[test]
fn principal_components_give_the_plane() {
    let points = floor_points(0.05, 0.3);
    let all: Vec<usize> = (0..points.len()).collect();
    let plane = fit_plane_pca(&Native, &points, &all).unwrap();
    assert!((f(plane.normal.z).abs() - 1.0).abs() < 1e-5);
    assert!((f(plane.center.z) - 0.3).abs() < 1e-5);
    assert!((f(plane.lambda_mid) - 0.01).abs() < 1e-4);
    assert_eq!(plane.inlier_count, points.len());
    assert!(fit_plane_pca(&Native, &points, &all[..2]).is_none());
}

#[test]
fn the_densest_layer_is_found() {
    let mut points = floor_points(0.05, 0.0);
    for i in 0..10 {
        points.push(at(i as f32 * 0.02, 0.0, 0.04));
    }
    let all: Vec<usize> = (0..points.len()).collect();
    let layer = find_dominant_residual_layer(
        &Native,
        &points,
        &all,
        at(0.0, 0.0, 0.02),
        at(0.0, 0.0, 1.0),
        &FilterConfig::default(),
    )
    .unwrap();
    assert!(f(layer.z).abs() < 1e-5);
    let none = find_dominant_residual_layer(
        &Native,
        &points,
        &all,
        at(0.0, 0.0, 5.0),
        at(0.0, 0.0, 1.0),
        &FilterConfig::default(),
    );
    assert!(none.is_none());
}

#[test]
fn of_equally_dense_layers_the_nearer_one_is_taken() {
    let mut points = Vec::new();
    for i in 0..10 {
        points.push(at(i as f32 * 0.02, 0.0, 0.005));
        points.push(at(i as f32 * 0.02, 0.1, 0.045));
        points.push(at(i as f32 * 0.02, 0.2, -0.035));
    }
    let all: Vec<usize> = (0..points.len()).collect();
    let layer = find_dominant_residual_layer(
        &Native,
        &points,
        &all,
        at(0.0, 0.0, 0.0),
        at(0.0, 0.0, 1.0),
        &FilterConfig::default(),
    )
    .unwrap();
    assert!((f(layer.z) - 0.005).abs() < 1e-6);
}

#[test]
fn a_thick_wall_is_fitted_at_its_densest_layer() {
    let mut points = floor_points(0.05, 0.0);
    for i in 0..12 {
        points.push(at((i % 4) as f32 * 0.05, (i / 4) as f32 * 0.05, 0.045));
    }
    let all: Vec<usize> = (0..points.len()).collect();
    let plane =
        fit_plane_ransac(&Native, &points, &all, &FilterConfig::default(), 17).unwrap();
    assert!((f(plane.normal.z).abs() - 1.0).abs() < 1e-3);
    assert!(f(plane.center.z).abs() < 1e-3);
    assert_eq!(plane.inlier_count, 49);
    let again =
        fit_plane_ransac(&Native, &points, &all, &FilterConfig::default(), 17).unwrap();
    assert_eq!(plane, again);
    assert!(
        fit_plane_ransac(&Native, &points, &all[..2], &FilterConfig::default(), 17).is_none()
    );
}

#[test]
fn the_grid_has_every_point_once() {
    let points = floor_points(0.15, 0.1);
    let grid = build_voxel_grid(&Native, &points, single(0.2));
    let mut seen: Vec<usize> =
        grid.keys().into_iter().flat_map(|k| grid.get(k).unwrap().clone()).collect();
    seen.sort();
    assert_eq!(seen, (0..points.len()).collect::<Vec<_>>());
    for k in grid.keys() {
        for i in grid.get(k).unwrap() {
            assert_eq!(voxel_key(&Native, points[*i], single(0.2)), k);
        }
    }
    let mut around = collect_neighborhood_indices(&grid, key(0, 0, 0), 100);
    around.sort();
    assert_eq!(around, seen);
}

#[test]
fn noise_above_a_floor_is_removed() {
    let mut cloud: Vec<PointXYZ> = Vec::new();
    for p in floor_points(0.05, 0.105) {
        cloud.push(PointXYZ { x: p.x, y: p.y, z: p.z });
    }
    let noise = PointXYZ { x: single(0.01), y: single(0.01), z: single(0.145) };
    cloud.push(noise);
    cloud.push(PointXYZ { x: single(f32::NAN), y: single(0.0), z: single(0.0) });
    let filtered = filter_cloud(&Native, &cloud, &FilterConfig::default()).unwrap();
    assert_eq!(filtered.stats.input_points, 50);
    assert_eq!(filtered.kept.len() + filtered.removed.len(), 50);
    assert_eq!(filtered.stats.kept_total(), filtered.kept.len());
    assert_eq!(filtered.stats.removed_total(), filtered.removed.len());
    assert_eq!(filtered.kept.len(), 49);
    assert_eq!(filtered.removed[0].z, noise.z);
    assert!(filtered.stats.local_planes > 0);
}

#[test]
fn a_cloud_without_finite_points_is_not_filtered() {
    let nothing = PointXYZ { x: single(f32::NAN), y: single(0.0), z: single(0.0) };
    assert!(filter_cloud(&Native, &[nothing], &FilterConfig::default()).is_none());
    assert!(filter_cloud(&Native, &[], &FilterConfig::default()).is_none());
}

#[test]
fn sparse_points_stay() {
    let points = [at(0.0, 0.0, 0.0), at(0.05, 0.0, 0.0), at(3.0, 3.0, 3.0)];
    let grid = build_voxel_grid(&Native, &points, single(0.2));
    let (decisions, stats) = filter_points(&Native, &points, &grid, &FilterConfig::default());
    assert_eq!(decisions, vec![PointDecision::KeepSparse; 3]);
    assert_eq!(stats.kept_sparse, 3);
    assert_eq!(stats.local_planes, 0);
}

#[test]
fn regions_without_a_plane_stay_or_go_as_is_wanted() {
    let points = [at(0.1, 0.1, 0.1)];
    let grid = build_voxel_grid(&Native, &points, single(0.2));
    let mut planes: KeyMap<PlaneCell> = KeyMap::new();
    planes.insert(key(0, 0, 0), PlaneCell { neighborhood_point_count: 40, primary_plane: None });
    let mut config = FilterConfig::default();
    let decide = |config: &FilterConfig| {
        classify_voxel_two_pass(&Native, key(0, 0, 0), &points, &grid, &planes, config).decisions
    };
    assert_eq!(decide(&config), vec![(0, PointDecision::KeepNonPlanar)]);
    config.keep_nonplanar_regions = false;
    assert_eq!(decide(&config), vec![(0, PointDecision::RemoveNonPlanar)]);
    let elsewhere =
        classify_voxel_two_pass(&Native, key(9, 9, 9), &points, &grid, &planes, &config);
    assert!(elsewhere.decisions.is_empty());
}

#[test]
fn a_cell_is_rescued_only_where_no_point_is_on_a_plane() {
    let mut planes: KeyMap<PlaneCell> = KeyMap::new();
    let floor = model(Vector3::z(), Vector3::new(0.0, 0.0, 0.1));
    planes.insert(
        key(0, 0, 0),
        PlaneCell { neighborhood_point_count: 40, primary_plane: Some(floor) },
    );
    let config = FilterConfig { min_output_points_per_voxel: 2, ..FilterConfig::default() };
    let decide = |heights: [f32; 3]| -> Vec<PointDecision> {
        let points: Vec<Point3> = heights.iter().map(|z| at(0.1, 0.1, *z)).collect();
        let grid = build_voxel_grid(&Native, &points, single(0.2));
        classify_voxel_two_pass(&Native, key(0, 0, 0), &points, &grid, &planes, &config)
            .decisions
            .iter()
            .map(|(_, decision)| *decision)
            .collect()
    };
    let (on, off, rescued) = (
        PointDecision::KeepPlaneInlier,
        PointDecision::RemovePlaneOutlier,
        PointDecision::KeepFallback,
    );
    assert_eq!(decide([0.1, 0.13, 0.14]), vec![on, off, off]);
    assert_eq!(decide([0.14, 0.13, 0.12]), vec![off, rescued, rescued]);
    assert_eq!(decide([0.18, 0.13, 0.01]), vec![off, rescued, off]);
}

// ---------------------------------------------------------------------------
// The global map
// ---------------------------------------------------------------------------

#[test]
fn a_global_map_starts_empty() {
    let mut map = GlobalVoxelMap::new(GlobalMapConfig::default());
    assert!(map.map.is_empty());
    assert!(map.output_voxel_map.is_empty());
    assert_eq!(map.config.root_voxel_size, single(0.4));
    assert_eq!(map.config.output_voxel_size, single(0.1));
    assert_eq!(map.config.ransac_distance_threshold, single(0.03));
    assert_eq!(map.config.stable_plane_distance_threshold, single(0.02));
    assert_eq!(map.config.max_planarity_ratio, single(0.15));
    assert_eq!(map.config.max_effective_weight, single(64.0));
    map.inserts_points(&Native, &[at(1.0, 2.0, 3.0)], &identity_pose());
    assert!(map.map.is_empty());
    let mut pose = identity_pose();
    pose.translation = at64(1.0, 0.0, 0.0);
    assert_eq!(
        keyed_world_points(&Native, &[at(0.5, -0.5, 0.0)], &pose, single(1.0)),
        vec![(key(1, -1, 0), at(1.5, -0.5, 0.0))]
    );
}

// ---------------------------------------------------------------------------
// Times and charts
// ---------------------------------------------------------------------------

fn log(index: usize, icp_ms: f64, total_ms: f64) -> FrameLog {
    let mut timing = FrameTiming::default();
    timing.icp_ms = double(icp_ms);
    timing.deskew_ms = double(1.0);
    timing.processing_total_ms = double(total_ms);
    timing.total_with_file_io_ms = double(total_ms);
    FrameLog {
        frame_index: index,
        timestamp: double(index as f64),
        icp_ok: true,
        rmse: if index == 0 { None } else { Some(single(0.1 * index as f32)) },
        correspondence_count: 0,
        correspondence_ratio: single(0.0),
        observable_rank: 6,
        min_observable_eigenvalue_ratio: None,
        icp_translation_correction_m: single(0.0),
        icp_rotation_correction_deg: single(0.0),
        map_updated: true,
        translation_m: double(0.5),
        rotation_deg: double(0.0),
        velocity_m_s: double(2.0),
        pose_x: double(index as f64 * 10.0),
        pose_y: double(-5.0),
        pose_z: double(0.0),
        timing,
    }
}

fn twenty_logs() -> Vec<FrameLog> {
    (0..20).map(|i| log(i, (20 - i) as f64, 30.0)).collect()
}

#[test]
fn times_are_summarised() {
    let stats = timing_stats(&Native, &twenty_logs(), TimingField::Icp);
    assert_eq!(d(stats.mean_ms), 10.5);
    assert_eq!(d(stats.p95_ms), 19.0);
    assert_eq!(d(stats.max_ms), 20.0);
    let (mean, median) =
        mean_and_percentile(&Native, &twenty_logs(), TimingField::Icp, double(0.5));
    assert_eq!((d(mean), d(median)), (10.5, 10.0));
    let (mean, p95) = mean_and_percentile(&Native, &[], TimingField::Icp, double(0.95));
    assert_eq!((d(mean), d(p95)), (0.0, 0.0));
    assert_eq!(d(timing_stats(&Native, &[], TimingField::Icp).max_ms), 0.0);
    let with_nan = [log(0, f64::NAN, 1.0), log(1, 4.0, 1.0)];
    assert_eq!(d(timing_stats(&Native, &with_nan, TimingField::Icp).mean_ms), 4.0);
}

#[test]
fn the_slowest_stage_comes_first() {
    let summary = timing_summary(&Native, &twenty_logs()).unwrap();
    assert_eq!(summary.frames, 20);
    assert_eq!(summary.stages.len(), 13);
    assert_eq!(summary.icp_stages.len(), 4);
    assert_eq!(summary.stages[0].field, TimingField::Icp);
    assert_eq!(summary.stages[1].field, TimingField::Deskew);
    assert_eq!(summary.stages[2].field, TimingField::LoadPcd);
    assert_eq!(d(summary.wall.mean_ms), 30.0);
    assert_eq!(d(share(&Native, summary.icp.mean_ms, summary.wall.mean_ms)), 35.0);
    assert_eq!(d(share(&Native, double(1.0), double(0.0))), 0.0);
    assert!(timing_summary(&Native, &[]).is_none());
    assert!(has_timing(&twenty_logs()));
    assert!(!has_timing(&[log(0, 1.0, 0.0)]));
    assert_eq!(TimingField::Icp.name(), "icp");
    assert_eq!(TimingField::RotationTrajectory.label(), "rotation traj.");
}

#[test]
fn charts_have_room_around_their_lines() {
    let logs = twenty_logs();
    let rmse = series(&Native, &logs, Metric::Rmse);
    assert_eq!(rmse.len(), 19);
    assert_eq!(rmse[0], (single(1.0), single(0.1)));
    let (low, high) = line_range(&Native, &rmse).unwrap();
    assert_eq!(f(low), 0.0);
    assert!((f(high) - (1.9 + 1.8 * 0.05)).abs() < 1e-5);
    assert!(line_range(&Native, &Vec::new()).is_none());
    let speed = series(&Native, &logs, Metric::Velocity);
    assert_eq!(speed[3], (single(3.0), single(2.0)));
    let times = series(&Native, &logs, Metric::Time(TimingField::ProcessingTotal));
    assert!((f(lines_top(&Native, &times, &speed)) - 32.4).abs() < 1e-4);
    assert_eq!(frame_range(&Native, &logs), (single(0.0), single(19.0)));
    assert_eq!(frame_range(&Native, &logs[..1]), (single(0.0), single(1.0)));
    assert_eq!(frame_range(&Native, &[]), (single(0.0), single(1.0)));
}

#[test]
fn bars_have_their_labels() {
    let logs = twenty_logs();
    let drawn = bars(&Native, &logs, &stages());
    assert_eq!(drawn.len(), 13);
    assert_eq!((d(drawn[7].0), d(drawn[7].1)), (10.5, 19.0));
    assert!((f(bars_top(&Native, &drawn)) - 19.0 * 1.12).abs() < 1e-4);
    assert!((f(bars_top(&Native, &Vec::new())) - 1.12).abs() < 1e-6);
    assert_eq!(bar_label(&stages(), 7), "ICP");
    assert_eq!(bar_label(&stages(), -1), "");
    assert_eq!(bar_label(&icp_stages(), 4), "");
}

#[test]
fn a_trajectory_is_drawn_with_room() {
    let path = trajectory(&Native, &twenty_logs());
    assert_eq!(path.points[2], (single(20.0), single(-5.0)));
    assert_eq!(path.x_range, (single(-9.5), single(199.5)));
    assert_eq!(path.y_range, (single(-14.5), single(4.5)));
    let one = trajectory(&Native, &twenty_logs()[..1]);
    assert_eq!(one.x_range, (single(-1.0), single(1.0)));
}
