//! Records that go in and out of the program.

use vstd::prelude::*;

use crate::float::{Float32, Float64};
use crate::numerics::{Point3, Point3d, Pose64};
use crate::voxel_map::LOCALMap;

verus! {

/// A sample of the inertial sensor, with its time in nanoseconds.
#[derive(Clone, Copy, Debug)]
pub struct LoadIMU {
    pub timestamp: u64,
    pub angular_velocity: [Float32; 3],
    pub linear_acceleration: [Float32; 3],
}

/// A sample of the inertial sensor, with its time in seconds.
#[derive(Clone, Copy, Debug)]
pub struct IMU {
    pub timestamp: Float64,
    pub angular_velocity: [Float32; 3],
    pub linear_acceleration: [Float32; 3],
}

#[derive(Clone, Copy, Debug)]
pub struct PointXYZ {
    pub x: Float32,
    pub y: Float32,
    pub z: Float32,
}

#[derive(Clone, Copy, Debug)]
pub struct PointXYZIT {
    pub x: Float32,
    pub y: Float32,
    pub z: Float32,
    pub intensity: Float32,
    pub timestamp: Float64,
}

#[derive(Clone, Copy, Debug)]
pub struct PointXYZCov {
    pub x: Float32,
    pub y: Float32,
    pub z: Float32,
    pub cov_xx: Float32,
    pub cov_xy: Float32,
    pub cov_xz: Float32,
    pub cov_yy: Float32,
    pub cov_yz: Float32,
    pub cov_zz: Float32,
}

#[derive(Clone, Debug)]
pub struct FrameData {
    pub points: Vec<Point3>,
    pub covariances: Vec<[[Float32; 3]; 3]>,
}

#[derive(Clone, Copy, Debug)]
pub struct PointXYZNormal {
    pub x: Float32,
    pub y: Float32,
    pub z: Float32,
    pub normal_x: Float32,
    pub normal_y: Float32,
    pub normal_z: Float32,
}

/// Where the sensor is, and how fast it moves.
#[derive(Clone, Copy, Debug)]
pub struct CurrentFrameInfo {
    pub current_global_pose: Pose64,
    pub current_velocity: Point3d,
}

/// The map of the world, and the map around the sensor.
pub struct SLAMMap {
    pub global_voxel_map: LOCALMap,
    pub local_voxel_map: LOCALMap,
}

#[derive(Clone, Copy, Debug)]
pub struct ProcessTimes {
    pub total: Float64,
    pub find_nearest_points: Float64,
    pub icp: Float64,
    pub update_map: Float64,
}

/// How long the stages of a frame took, in milliseconds.
///
/// The stages up to `local_map_update_ms` do not overlap. The `icp_` details are parts
/// of `icp_ms`.
#[derive(Clone, Copy, Debug)]
pub struct FrameTiming {
    pub load_pcd_ms: Float64,
    pub timestamps_ms: Float64,
    pub imu_predict_ms: Float64,
    pub rotation_trajectory_ms: Float64,
    pub deskew_ms: Float64,
    pub downsample_ms: Float64,
    pub build_source_maps_ms: Float64,
    pub icp_ms: Float64,
    pub pose_update_ms: Float64,
    pub global_filter_ms: Float64,
    pub global_map_update_ms: Float64,
    pub delayed_surface_ms: Float64,
    pub local_map_update_ms: Float64,
    /// Without reading the file.
    pub processing_total_ms: Float64,
    /// With reading the file.
    pub total_with_file_io_ms: Float64,
    pub icp_correspondence_search_ms: Float64,
    pub icp_linear_system_ms: Float64,
    pub icp_solver_ms: Float64,
    pub icp_other_ms: Float64,
}

impl Default for FrameTiming {
    fn default() -> (r: FrameTiming)
        ensures
            r.load_pcd_ms == Float64::zero_spec(),
            r.timestamps_ms == Float64::zero_spec(),
            r.imu_predict_ms == Float64::zero_spec(),
            r.rotation_trajectory_ms == Float64::zero_spec(),
            r.deskew_ms == Float64::zero_spec(),
            r.downsample_ms == Float64::zero_spec(),
            r.build_source_maps_ms == Float64::zero_spec(),
            r.icp_ms == Float64::zero_spec(),
            r.pose_update_ms == Float64::zero_spec(),
            r.global_filter_ms == Float64::zero_spec(),
            r.global_map_update_ms == Float64::zero_spec(),
            r.delayed_surface_ms == Float64::zero_spec(),
            r.local_map_update_ms == Float64::zero_spec(),
            r.processing_total_ms == Float64::zero_spec(),
            r.total_with_file_io_ms == Float64::zero_spec(),
            r.icp_correspondence_search_ms == Float64::zero_spec(),
            r.icp_linear_system_ms == Float64::zero_spec(),
            r.icp_solver_ms == Float64::zero_spec(),
            r.icp_other_ms == Float64::zero_spec(),
    {
        let zero = Float64::zero();
        FrameTiming {
            load_pcd_ms: zero,
            timestamps_ms: zero,
            imu_predict_ms: zero,
            rotation_trajectory_ms: zero,
            deskew_ms: zero,
            downsample_ms: zero,
            build_source_maps_ms: zero,
            icp_ms: zero,
            pose_update_ms: zero,
            global_filter_ms: zero,
            global_map_update_ms: zero,
            delayed_surface_ms: zero,
            local_map_update_ms: zero,
            processing_total_ms: zero,
            total_with_file_io_ms: zero,
            icp_correspondence_search_ms: zero,
            icp_linear_system_ms: zero,
            icp_solver_ms: zero,
            icp_other_ms: zero,
        }
    }
}

/// What is recorded of a frame.
#[derive(Clone, Copy, Debug)]
pub struct FrameLog {
    pub frame_index: usize,
    pub timestamp: Float64,
    pub icp_ok: bool,
    /// The last error of the alignment, where it found correspondences.
    pub rmse: Option<Float32>,
    pub correspondence_count: usize,
    pub correspondence_ratio: Float32,
    pub observable_rank: usize,
    pub min_observable_eigenvalue_ratio: Option<Float32>,
    pub icp_translation_correction_m: Float32,
    pub icp_rotation_correction_deg: Float32,
    pub map_updated: bool,
    /// How far the sensor moved since the last frame.
    pub translation_m: Float64,
    pub rotation_deg: Float64,
    pub velocity_m_s: Float64,
    pub pose_x: Float64,
    pub pose_y: Float64,
    pub pose_z: Float64,
    pub timing: FrameTiming,
}

} // verus!
