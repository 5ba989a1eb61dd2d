//! Names, numbers and command lines.

use re_lidar_slam::command_line::{parse_command_line, CommandLineAction, CommandLineError};
use re_lidar_slam::filter_config::{
    parse_args, parse_option, validate_config, ArgumentError, ConfigError, FilterAction,
    FilterConfig, FilterOption,
};
use re_lidar_slam::float::{Float32, Float64};
use re_lidar_slam::frame_matching::{
    chronological_order, largest_difference, output_filename, parse_cloud_number,
    preflight_outputs, sort_frames, CloudNumberError, FrameMetadata, FramePair, PreflightError,
};
use re_lidar_slam::lidar::LidarModel;
use re_lidar_slam::plane_filter::{decide, split_points, PointDecision};
use re_lidar_slam::random::{sample_three_unique, seed_from_key, XorShift64};
use re_lidar_slam::ransac::{ransac_seed, sample_three_distinct_indices};
use re_lidar_slam::sorting::sort_positions;
use re_lidar_slam::text::{decimal_text, is_name, parse_count, parse_i32};
use re_lidar_slam::types::PointXYZ;
use re_lidar_slam::voxel::{KeyMap, VoxelKey};
use re_lidar_slam::voxelization::morton3d;

fn single(x: f32) -> Float32 {
    Float32 { bits: x.to_bits() }
}

fn double(x: f64) -> Float64 {
    Float64 { bits: x.to_bits() }
}

fn key(ix: i32, iy: i32, iz: i32) -> VoxelKey {
    VoxelKey { ix, iy, iz }
}

// ---------------------------------------------------------------------------
// The program's command line
// ---------------------------------------------------------------------------

fn command_line(args: &[&str]) -> Result<CommandLineAction, CommandLineError> {
    let args: Vec<Option<String>> = args.iter().map(|arg| Some(arg.to_string())).collect();
    parse_command_line(&args)
}

#[test]
fn command_line_defaults_to_mid70() {
    let CommandLineAction::Run(model) = command_line(&[]).unwrap() else {
        panic!("expected run action");
    };
    assert_eq!(model, LidarModel::Mid70);
}

#[test]
fn command_line_selects_airy96() {
    let CommandLineAction::Run(model) = command_line(&["--lidar", "airy96"]).unwrap() else {
        panic!("expected run action");
    };
    assert_eq!(model, LidarModel::Airy96);

    let CommandLineAction::Run(model) = command_line(&["--lidar=airy"]).unwrap() else {
        panic!("expected run action");
    };
    assert_eq!(model, LidarModel::Airy96);
}

#[test]
fn command_line_selects_avia() {
    let CommandLineAction::Run(model) = command_line(&["--lidar", "avia"]).unwrap() else {
        panic!("expected run action");
    };
    assert_eq!(model, LidarModel::Avia);
    assert_eq!(model.input_subdir(), "avia");
    assert_eq!(model.name(), "avia");

    let CommandLineAction::Run(model) = command_line(&["--lidar=livox-avia"]).unwrap() else {
        panic!("expected run action");
    };
    assert_eq!(model, LidarModel::Avia);
}

#[test]
fn command_line_rejects_unknown_lidar() {
    let error = match command_line(&["--lidar", "unknown"]) {
        Ok(_) => panic!("unknown LiDAR model must fail"),
        Err(error) => error,
    };
    assert!(error.message().contains("expected 'mid70', 'airy96', or 'avia'"));
}

#[test]
fn command_line_errors_have_their_messages() {
    assert_eq!(
        command_line(&["--lidar"]).unwrap_err().message(),
        "--lidar requires 'mid70', 'airy96', or 'avia'"
    );
    assert_eq!(
        command_line(&["--fast"]).unwrap_err().message(),
        "unknown argument '--fast'; use --help for usage"
    );
    assert_eq!(
        command_line(&["--lidar=x"]).unwrap_err().message(),
        "unsupported LiDAR model 'x'; expected 'mid70', 'airy96', or 'avia'"
    );
    assert_eq!(
        parse_command_line(&[None]).unwrap_err().message(),
        "command-line arguments must be valid UTF-8"
    );
    assert_eq!(
        parse_command_line(&[Some("--lidar".to_string()), None]).unwrap_err().message(),
        "LiDAR model must be valid UTF-8"
    );
}

#[test]
fn help_ends_the_command_line_and_the_last_model_counts() {
    assert_eq!(command_line(&["-h", "--fast"]).unwrap(), CommandLineAction::Help);
    assert_eq!(command_line(&["--help"]).unwrap(), CommandLineAction::Help);
    assert_eq!(
        command_line(&["--lidar", "avia", "--lidar=Mid-70"]).unwrap(),
        CommandLineAction::Run(LidarModel::Mid70)
    );
}

#[test]
fn every_model_is_named_by_its_name() {
    for model in [LidarModel::Mid70, LidarModel::Airy96, LidarModel::Avia] {
        assert_eq!(LidarModel::parse(model.name()).unwrap(), model);
    }
    assert_eq!(LidarModel::Mid70.input_subdir(), "mid-70");
    assert_eq!(LidarModel::Airy96.input_subdir(), "");
}

// ---------------------------------------------------------------------------
// Recordings
// ---------------------------------------------------------------------------

#[test]
fn parses_cloud_number_and_rejects_invalid_name() {
    assert_eq!(parse_cloud_number("cloud_23.pcd").unwrap(), 23);
    assert!(parse_cloud_number("frame_23.pcd").is_err());
}

#[test]
fn cloud_numbers_and_file_names_belong_together() {
    for number in [0u32, 7, 10, 4_294_967_295] {
        let name = output_filename(number);
        assert_eq!(name, format!("cloud_{number}.pcd"));
        assert_eq!(parse_cloud_number(&name).unwrap(), number);
    }
    assert_eq!(parse_cloud_number("a/b/cloud_5.pcd").unwrap(), 5);
}

#[test]
fn cloud_number_errors_tell_what_is_wrong() {
    assert_eq!(parse_cloud_number("").unwrap_err(), CloudNumberError::InvalidFilename);
    assert_eq!(parse_cloud_number("x_1.pcd").unwrap_err(), CloudNumberError::MissingPrefix);
    assert_eq!(
        parse_cloud_number("cloud_one.pcd").unwrap_err(),
        CloudNumberError::InvalidNumber
    );
    assert_eq!(
        parse_cloud_number("cloud_4294967296.pcd").unwrap_err(),
        CloudNumberError::InvalidNumber
    );
}

fn recording(number: u32, timestamp: f64) -> FrameMetadata {
    FrameMetadata {
        source_path: format!("cloud_{number}.pcd"),
        source_number: number,
        timestamp: double(timestamp),
    }
}

#[test]
fn recordings_are_sorted_by_time() {
    let frames = vec![recording(2, 3.0), recording(0, 1.0), recording(1, 2.0)];
    assert_eq!(chronological_order(&frames), vec![1, 2, 0]);
    let sorted = sort_frames(&frames);
    assert_eq!(
        sorted.iter().map(|f| f.source_number).collect::<Vec<_>>(),
        vec![0, 1, 2]
    );
    assert_eq!(sorted[0].source_path, "cloud_0.pcd");
}

#[test]
fn the_largest_difference_is_found() {
    let pair = |difference: f64| FramePair {
        airy_index: 0,
        mid70_index: 0,
        difference_seconds: double(difference),
    };
    assert_eq!(largest_difference(&[pair(0.01), pair(0.03), pair(0.02)]), double(0.03));
}

#[test]
fn existing_outputs_are_refused() {
    assert!(preflight_outputs(false, &[false, false], &[false, false]).is_ok());
    assert_eq!(
        preflight_outputs(true, &[false], &[false]).unwrap_err(),
        PreflightError::ReportExists
    );
    assert_eq!(
        preflight_outputs(false, &[false, true], &[false, false]).unwrap_err(),
        PreflightError::OutputExists { position: 1, airy: true }
    );
    assert_eq!(
        preflight_outputs(false, &[false, false], &[true, false]).unwrap_err(),
        PreflightError::OutputExists { position: 0, airy: false }
    );
}

// ---------------------------------------------------------------------------
// The filter's command line
// ---------------------------------------------------------------------------

fn filter_line(args: &[&str]) -> Result<FilterAction, ArgumentError> {
    let args: Vec<String> = args.iter().map(|arg| arg.to_string()).collect();
    let reals: Vec<Option<Float32>> =
        args.iter().map(|arg| arg.parse::<f32>().ok().map(single)).collect();
    parse_args(&args, &reals)
}

#[test]
fn filter_line_sets_what_its_options_name() {
    let action = filter_line(&[
        "filter",
        "in.pcd",
        "out.pcd",
        "--voxel-size",
        "0.3",
        "--neighbor-range",
        "-2",
        "--iterations",
        "+99",
        "--distance-threshold",
        "0.04",
        "--keep-distance-threshold",
        "0.02",
        "--removed-output",
        "gone.pcd",
        "--max-planes",
        "1",
        "--remove-nonplanar",
    ]);
    let Ok(FilterAction::Run(cli)) = action else {
        panic!("expected a run");
    };
    assert_eq!(cli.input_path, "in.pcd");
    assert_eq!(cli.output_path, "out.pcd");
    assert_eq!(cli.removed_output_path, Some("gone.pcd".to_string()));
    assert_eq!(cli.config.voxel_size, single(0.3));
    assert_eq!(cli.config.neighbor_range, -2);
    assert_eq!(cli.config.max_iterations, 99);
    assert_eq!(cli.config.fit_distance_threshold, single(0.04));
    assert_eq!(cli.config.refit_distance_threshold, single(0.04));
    assert_eq!(cli.config.keep_distance_threshold, single(0.02));
    assert!(!cli.config.keep_nonplanar_regions);
    assert_eq!(cli.config.min_inliers, 8);
}

#[test]
fn the_recommended_filter_line_is_valid() {
    let action = filter_line(&[
        "filter_world_map_ransac_v3",
        "voxel-0.1_world_map.pcd",
        "voxel-0.1_world_map_ransac_v3.pcd",
        "--removed-output",
        "voxel-0.1_world_map_removed_v3.pcd",
        "--voxel-size",
        "0.15",
        "--neighbor-range",
        "1",
        "--fit-distance-threshold",
        "0.060",
        "--refit-distance-threshold",
        "0.025",
        "--keep-distance-threshold",
        "0.015",
        "--residual-bin-size",
        "0.010",
        "--plane-vote-range",
        "1",
        "--parallel-plane-tolerance",
        "0.035",
        "--parallel-normal-angle",
        "15",
        "--min-output-points",
        "1",
        "--fallback-keep-distance",
        "0.050",
        "--iterations",
        "96",
        "--min-neighbors",
        "16",
        "--min-inliers",
        "8",
        "--min-inlier-ratio",
        "0.20",
        "--max-planarity-ratio",
        "0.30",
        "--min-planar-spread",
        "0.04",
        "--max-planes",
        "1",
    ]);
    let Ok(FilterAction::Run(cli)) = action else {
        panic!("expected a run");
    };
    assert!(validate_config(&cli.config).is_ok());
    let expected = FilterConfig {
        voxel_size: single(0.15),
        max_iterations: 96,
        min_neighbor_points: 16,
        min_inlier_ratio: single(0.20),
        max_planarity_ratio: single(0.30),
        min_planar_spread: single(0.04),
        ..FilterConfig::default()
    };
    assert_eq!(cli.config, expected);
}

#[test]
fn filter_line_errors_have_their_messages() {
    let message = |args: &[&str]| filter_line(args).unwrap_err().message();
    assert_eq!(message(&["filter", "in.pcd"]), "Input and output PCD paths are required");
    assert_eq!(
        message(&["filter", "a", "b", "--iterations"]),
        "Missing value after --iterations"
    );
    assert_eq!(
        message(&["filter", "a", "b", "--iterations", "-1"]),
        "Invalid value for --iterations: '-1'"
    );
    assert_eq!(
        message(&["filter", "a", "b", "--voxel-size", "wide"]),
        "Invalid value for --voxel-size: 'wide'"
    );
    assert_eq!(
        message(&["filter", "a", "b", "--neighbor-range", "2147483648"]),
        "Invalid value for --neighbor-range: '2147483648'"
    );
    assert_eq!(
        message(&["filter", "a", "b", "--max-planes", "2"]),
        "v3 stores one dominant plane per filter cell; --max-planes must be 1"
    );
    assert_eq!(message(&["filter", "a", "b", "--what"]), "Unknown argument: --what");
}

#[test]
fn filter_line_gives_help() {
    assert!(matches!(filter_line(&["filter", "-h"]), Ok(FilterAction::Help)));
    assert!(matches!(filter_line(&["filter", "a", "b", "--help"]), Ok(FilterAction::Help)));
    assert_eq!(parse_option("-h"), Some(FilterOption::Help));
    assert_eq!(parse_option("--nothing"), None);
}

fn fault(change: fn(&mut FilterConfig)) -> Option<ConfigError> {
    let mut config = FilterConfig::default();
    change(&mut config);
    validate_config(&config).err()
}

#[test]
fn every_fault_of_the_settings_is_found() {
    assert_eq!(fault(|_| ()), None);
    assert_eq!(fault(|c| c.voxel_size = single(0.0)), Some(ConfigError::VoxelSize));
    assert_eq!(fault(|c| c.voxel_size = single(f32::NAN)), Some(ConfigError::VoxelSize));
    assert_eq!(fault(|c| c.neighbor_range = -1), Some(ConfigError::NeighborRange));
    assert_eq!(
        fault(|c| c.fit_distance_threshold = single(f32::INFINITY)),
        Some(ConfigError::FitDistance)
    );
    assert_eq!(
        fault(|c| c.keep_distance_threshold = single(-0.1)),
        Some(ConfigError::KeepDistance)
    );
    assert_eq!(
        fault(|c| c.keep_distance_threshold = single(0.1)),
        Some(ConfigError::KeepAboveFit)
    );
    assert_eq!(
        fault(|c| c.refit_distance_threshold = single(0.0)),
        Some(ConfigError::RefitDistance)
    );
    assert_eq!(
        fault(|c| c.refit_distance_threshold = single(0.1)),
        Some(ConfigError::RefitAboveFit)
    );
    assert_eq!(
        fault(|c| c.refit_distance_threshold = single(0.01)),
        Some(ConfigError::KeepAboveRefit)
    );
    assert_eq!(
        fault(|c| c.residual_bin_size = single(0.0)),
        Some(ConfigError::ResidualBinSize)
    );
    assert_eq!(fault(|c| c.plane_vote_range = -1), Some(ConfigError::PlaneVoteRange));
    assert_eq!(
        fault(|c| c.parallel_plane_tolerance = single(-1.0)),
        Some(ConfigError::ParallelPlaneTolerance)
    );
    assert_eq!(
        fault(|c| c.parallel_normal_angle_deg = single(90.5)),
        Some(ConfigError::ParallelNormalAngle)
    );
    assert_eq!(
        fault(|c| c.fallback_keep_distance = single(0.001)),
        Some(ConfigError::FallbackKeepDistance)
    );
    assert_eq!(fault(|c| c.max_iterations = 0), Some(ConfigError::MaxIterations));
    assert_eq!(fault(|c| c.min_neighbor_points = 2), Some(ConfigError::MinNeighborPoints));
    assert_eq!(fault(|c| c.min_inliers = 2), Some(ConfigError::MinInliers));
    assert_eq!(fault(|c| c.min_inliers = 13), Some(ConfigError::InliersAboveNeighbors));
    assert_eq!(
        fault(|c| c.min_inlier_ratio = single(1.5)),
        Some(ConfigError::MinInlierRatio)
    );
    assert_eq!(
        fault(|c| c.max_planarity_ratio = single(-0.5)),
        Some(ConfigError::MaxPlanarityRatio)
    );
    assert_eq!(
        fault(|c| c.min_planar_spread = single(f32::NAN)),
        Some(ConfigError::MinPlanarSpread)
    );
    assert_eq!(
        ConfigError::ParallelNormalAngle.message(),
        "parallel_normal_angle_deg must be in [0, 90]"
    );
}

#[test]
fn the_settings_start_from_their_defaults() {
    let config = FilterConfig::default();
    assert_eq!(config.voxel_size, single(0.20));
    assert_eq!(config.fit_distance_threshold, single(0.060));
    assert_eq!(config.keep_distance_threshold, single(0.015));
    assert_eq!(config.refit_distance_threshold, single(0.025));
    assert_eq!(config.residual_bin_size, single(0.010));
    assert_eq!(config.parallel_plane_tolerance, single(0.035));
    assert_eq!(config.parallel_normal_angle_deg, single(15.0));
    assert_eq!(config.fallback_keep_distance, single(0.050));
    assert_eq!(config.min_inlier_ratio, single(0.45));
    assert_eq!(config.max_planarity_ratio, single(0.15));
    assert_eq!(config.min_planar_spread, single(0.03));
    assert_eq!(config.max_iterations, 64);
    assert_eq!(config.min_neighbor_points, 12);
}

// ---------------------------------------------------------------------------
// Decisions
// ---------------------------------------------------------------------------

#[test]
fn a_cell_without_points_on_a_plane_keeps_its_nearest() {
    let distances: Vec<Float32> = [0.04f32, 0.03, 0.2].iter().map(|x| single(*x)).collect();
    let decisions = decide(&vec![7, 8, 9], &distances, &FilterConfig::default());
    assert_eq!(
        decisions,
        vec![
            (7, PointDecision::RemovePlaneOutlier),
            (8, PointDecision::KeepFallback),
            (9, PointDecision::RemovePlaneOutlier),
        ]
    );
}

#[test]
fn a_cell_with_points_on_a_plane_keeps_those() {
    let distances: Vec<Float32> = [0.01f32, 0.03, 0.015].iter().map(|x| single(*x)).collect();
    let decisions = decide(&vec![0, 1, 2], &distances, &FilterConfig::default());
    assert_eq!(
        decisions,
        vec![
            (0, PointDecision::KeepPlaneInlier),
            (1, PointDecision::RemovePlaneOutlier),
            (2, PointDecision::KeepPlaneInlier),
        ]
    );
}

#[test]
fn no_point_is_rescued_where_one_is_on_a_plane() {
    let config = FilterConfig { min_output_points_per_voxel: 3, ..FilterConfig::default() };
    let distances: Vec<Float32> = [0.03f32, 0.01, 0.02].iter().map(|x| single(*x)).collect();
    assert_eq!(
        decide(&vec![4, 5, 6], &distances, &config),
        vec![
            (4, PointDecision::RemovePlaneOutlier),
            (5, PointDecision::KeepPlaneInlier),
            (6, PointDecision::RemovePlaneOutlier),
        ]
    );
    let distances: Vec<Float32> = [0.03f32, 0.2, 0.02].iter().map(|x| single(*x)).collect();
    assert_eq!(
        decide(&vec![4, 5, 6], &distances, &config),
        vec![
            (4, PointDecision::KeepFallback),
            (5, PointDecision::RemovePlaneOutlier),
            (6, PointDecision::KeepFallback),
        ]
    );
}

#[test]
fn equally_near_points_are_kept_in_their_order() {
    let config = FilterConfig { min_output_points_per_voxel: 2, ..FilterConfig::default() };
    let distances: Vec<Float32> = [0.03f32, 0.03, 0.03].iter().map(|x| single(*x)).collect();
    let kept: Vec<usize> = decide(&vec![4, 5, 6], &distances, &config)
        .into_iter()
        .filter(|(_, decision)| decision.keep())
        .map(|(index, _)| index)
        .collect();
    assert_eq!(kept, vec![4, 5]);
}

#[test]
fn kept_and_removed_points_are_told_apart() {
    let p = |x: f32| PointXYZ { x: single(x), y: single(0.0), z: single(0.0) };
    let (kept, removed) = split_points(
        &vec![p(1.0), p(2.0), p(3.0)],
        &vec![
            PointDecision::KeepSparse,
            PointDecision::RemoveNonPlanar,
            PointDecision::KeepNonPlanar,
        ],
    );
    assert_eq!(kept.iter().map(|p| p.x).collect::<Vec<_>>(), vec![single(1.0), single(3.0)]);
    assert_eq!(removed.iter().map(|p| p.x).collect::<Vec<_>>(), vec![single(2.0)]);
}

// ---------------------------------------------------------------------------
// Numbers
// ---------------------------------------------------------------------------

#[test]
fn comparisons_are_those_of_numbers() {
    let values =
        [f32::NEG_INFINITY, -1.5, -0.0, 0.0, 1e-40, 1.0, f32::MAX, f32::INFINITY, f32::NAN];
    for a in values {
        assert_eq!(single(a).abs(), single(a.abs()));
        assert_eq!(single(a).neg(), single(-a));
        assert_eq!(single(a).is_finite(), a.is_finite());
        for b in values {
            assert_eq!(single(a).lt(single(b)), a < b);
            assert_eq!(single(a).le(single(b)), a <= b);
            assert_eq!(single(a).equals(single(b)), a == b);
            assert_eq!(
                single(a).total_le(single(b)),
                a.total_cmp(&b) != std::cmp::Ordering::Greater
            );
            let (low, high) = (single(a).min(single(b)), single(a).max(single(b)));
            assert!(f32::from_bits(low.bits) == a.min(b) || a.min(b).is_nan());
            assert!(f32::from_bits(high.bits) == a.max(b) || a.max(b).is_nan());
        }
    }
    for a in [f64::NEG_INFINITY, -2.0, -0.0, 0.0, 3.0, f64::NAN] {
        for b in [f64::NEG_INFINITY, -2.0, -0.0, 0.0, 3.0, f64::NAN] {
            assert_eq!(double(a).lt(double(b)), a < b);
            assert_eq!(double(a).le(double(b)), a <= b);
        }
    }
}

#[test]
fn integers_are_read_as_written() {
    assert_eq!(parse_i32("-2147483648"), Some(i32::MIN));
    assert_eq!(parse_i32("-2147483649"), None);
    assert_eq!(parse_i32("+7"), Some(7));
    for text in ["", "+", "-", "1a", " 1", "--1", "-+1"] {
        assert_eq!(parse_i32(text), text.parse::<i32>().ok());
        assert_eq!(parse_count(text), text.parse::<usize>().ok());
    }
    assert_eq!(parse_count("-0"), "-0".parse::<usize>().ok());
    assert_eq!(parse_count("00012"), Some(12));
    assert_eq!(parse_count("99999999999999999999"), None);
    assert_eq!(decimal_text(4_294_967_295), "4294967295");
    assert!(is_name("AiRy", "airy") && !is_name("airy9", "airy"));
}

#[test]
fn equal_ranks_stay_in_their_order() {
    assert_eq!(sort_positions(&[3, 1, 2, 1, 3]), vec![1, 3, 2, 0, 4]);
    assert!(sort_positions(&[]).is_empty());
}

// ---------------------------------------------------------------------------
// Keys and random numbers
// ---------------------------------------------------------------------------

#[test]
fn a_key_map_holds_what_is_put_in() {
    let mut map: KeyMap<u32> = KeyMap::new();
    assert_eq!(map.len(), 0);
    map.insert(key(1, 2, 3), 10);
    map.insert(key(-1, 0, 0), 20);
    map.insert(key(1, 2, 3), 30);
    assert_eq!(map.len(), 2);
    assert_eq!(map.get(key(1, 2, 3)), Some(&30));
    assert_eq!(map.get(key(3, 2, 1)), None);
    let mut keys = map.keys();
    keys.sort_by_key(|k| k.ix);
    assert_eq!(keys, vec![key(-1, 0, 0), key(1, 2, 3)]);
    assert_eq!(map.remove(key(1, 2, 3)), Some(30));
    assert_eq!(map.remove(key(1, 2, 3)), None);
    assert!(!map.contains_key(key(1, 2, 3)));
    assert_eq!(map.len(), 1);
}

#[test]
fn a_cube_is_walked_along_x_first() {
    let mut map: KeyMap<()> = KeyMap::new();
    for k in [key(1, 0, 0), key(0, 1, 0), key(0, 0, 1), key(2, 0, 0), key(-1, -1, -1)] {
        map.insert(k, ());
    }
    assert_eq!(
        map.occupied_cube(key(0, 0, 0), 1),
        vec![key(-1, -1, -1), key(1, 0, 0), key(0, 1, 0), key(0, 0, 1)]
    );
    assert!(map.occupied_cube(key(0, 0, 0), -1).is_empty());
    assert_eq!(
        map.occupied_cube(key(i32::MAX, 0, 0), 1),
        Vec::<VoxelKey>::new()
    );
}

#[test]
fn codes_alternate_the_bits() {
    assert_eq!(morton3d(1, 0, 0) | morton3d(0, 1, 0) | morton3d(0, 0, 1), 7);
    assert_eq!(morton3d(3, 0, 0), morton3d(1, 0, 0) | morton3d(2, 0, 0));
    assert_ne!(morton3d(5, 6, 7), morton3d(7, 6, 5));
}

#[test]
fn random_indices_can_be_drawn_again() {
    let mut a = XorShift64::new(0);
    let mut b = XorShift64::new(0x9e37_79b9_7f4a_7c15);
    assert_eq!(a.next_u64(), b.next_u64());
    let mut x = 1u64;
    x ^= x << 13;
    x ^= x >> 7;
    x ^= x << 17;
    assert_eq!(XorShift64::new(1).next_u64(), x);
    for seed in 0..50u64 {
        let mut rng = XorShift64::new(seed);
        let (i, j, k) = sample_three_unique(&mut rng, 3).unwrap();
        let mut drawn = [i, j, k];
        drawn.sort();
        assert_eq!(drawn, [0, 1, 2]);
        let mut state = seed;
        let (i, j, k) = sample_three_distinct_indices(&mut state, 3);
        let mut drawn = [i, j, k];
        drawn.sort();
        assert_eq!(drawn, [0, 1, 2]);
    }
}

#[test]
fn seeds_depend_on_every_coordinate() {
    let seeds: Vec<u64> = [key(0, 0, 0), key(1, 0, 0), key(0, 1, 0), key(0, 0, 1), key(-1, 0, 0)]
        .iter()
        .map(|k| seed_from_key(*k, 0))
        .collect();
    for i in 0..seeds.len() {
        for j in 0..i {
            assert_ne!(seeds[i], seeds[j]);
        }
    }
    let mut hash = 0xcbf2_9ce4_8422_2325u64;
    for value in [(-3i32) as i64 as u64, 4, 5, 6] {
        hash ^= value;
        hash = hash.wrapping_mul(0x0000_0100_0000_01b3);
    }
    assert_eq!(seed_from_key(key(-3, 4, 5), 6), hash);
    assert_ne!(ransac_seed(key(1, 0, 0)), ransac_seed(key(0, 1, 0)));
}
