pub mod cell;
pub mod charts;
pub mod classification;
pub mod command_line;
pub mod covariance;
pub mod filter_config;
pub mod find_nearest_points;
pub mod float;
pub mod frame;
pub mod frame_matching;
pub mod global_voxel_map;
pub mod icp;
pub mod layer_plane;
pub mod lidar;
pub mod matrix6;
pub mod numerics;
pub mod plane;
pub mod plane_filter;
pub mod predict_pose_by_imu;
pub mod random;
pub mod ransac;
pub mod slam;
pub mod sorting;
pub mod surface;
pub mod text;
pub mod timing;
pub mod tracking;
pub mod types;
pub mod voxel;
pub mod voxel_map;
pub mod voxelization;
pub mod world_update;
