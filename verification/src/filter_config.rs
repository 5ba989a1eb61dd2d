//! The settings of the plane filter, and its command line.

use vstd::prelude::*;
use vstd::string::StringExecFns;

use crate::float::{Float32, F32_ONE};
use crate::text::{
    parse_count, parse_count_spec, parse_i32, parse_i32_spec, same_text,
};

verus! {

/// How points are told apart into those on a plane and those off it.
#[derive(Clone, Copy, Debug, PartialEq, Eq, Structural)]
pub struct FilterConfig {
    /// The side of a cell, in metres.
    pub voxel_size: Float32,
    /// How many cells around a cell its plane is fitted to.
    pub neighbor_range: i32,
    /// How far from a rough plane, in metres, its inliers may lie.
    pub fit_distance_threshold: Float32,
    /// How far from a fitted plane, in metres, the kept points may lie.
    pub keep_distance_threshold: Float32,
    /// How far from the densest layer, in metres, the points of a refit may lie.
    pub refit_distance_threshold: Float32,
    /// The thickness, in metres, of the layers that are counted.
    pub residual_bin_size: Float32,
    /// How many cells around a cell lend it their planes.
    pub plane_vote_range: i32,
    /// How far apart, in metres, parallel planes may be for one to be lent.
    pub parallel_plane_tolerance: Float32,
    /// Up to which angle between normals, in degrees, planes are parallel.
    pub parallel_normal_angle_deg: Float32,
    /// How many points a cell without a point on a plane is to keep, where it has enough
    /// that are near.
    pub min_output_points_per_voxel: usize,
    /// How far from a plane, in metres, points may lie that are kept for want of others.
    pub fallback_keep_distance: Float32,
    /// How many samples the search for a plane draws.
    pub max_iterations: usize,
    /// How many points a plane is searched in at least.
    pub min_neighbor_points: usize,
    /// How many inliers a plane has at least.
    pub min_inliers: usize,
    /// The least share of inliers.
    pub min_inlier_ratio: Float32,
    /// The largest ratio of the smallest eigenvalue to the middle one.
    pub max_planarity_ratio: Float32,
    /// The least spread, in metres, along the middle axis.
    pub min_planar_spread: Float32,
    /// Whether points stay where no plane is found.
    pub keep_nonplanar_regions: bool,
}

/// The settings that the filter starts from.
pub open spec fn default_filter() -> FilterConfig {
    FilterConfig {
        voxel_size: Float32 { bits: 0x3e4c_cccd },
        neighbor_range: 1,
        fit_distance_threshold: Float32 { bits: 0x3d75_c28f },
        keep_distance_threshold: Float32 { bits: 0x3c75_c28f },
        refit_distance_threshold: Float32 { bits: 0x3ccc_cccd },
        residual_bin_size: Float32 { bits: 0x3c23_d70a },
        plane_vote_range: 1,
        parallel_plane_tolerance: Float32 { bits: 0x3d0f_5c29 },
        parallel_normal_angle_deg: Float32 { bits: 0x4170_0000 },
        min_output_points_per_voxel: 1,
        fallback_keep_distance: Float32 { bits: 0x3d4c_cccd },
        max_iterations: 64,
        min_neighbor_points: 12,
        min_inliers: 8,
        min_inlier_ratio: Float32 { bits: 0x3ee6_6666 },
        max_planarity_ratio: Float32 { bits: 0x3e19_999a },
        min_planar_spread: Float32 { bits: 0x3cf5_c28f },
        keep_nonplanar_regions: true,
    }
}

impl Default for FilterConfig {
    fn default() -> (r: FilterConfig)
        ensures
            r == default_filter(),
    {
        FilterConfig {
            voxel_size: Float32 { bits: 0x3e4c_cccd },
            neighbor_range: 1,
            fit_distance_threshold: Float32 { bits: 0x3d75_c28f },
            keep_distance_threshold: Float32 { bits: 0x3c75_c28f },
            refit_distance_threshold: Float32 { bits: 0x3ccc_cccd },
            residual_bin_size: Float32 { bits: 0x3c23_d70a },
            plane_vote_range: 1,
            parallel_plane_tolerance: Float32 { bits: 0x3d0f_5c29 },
            parallel_normal_angle_deg: Float32 { bits: 0x4170_0000 },
            min_output_points_per_voxel: 1,
            fallback_keep_distance: Float32 { bits: 0x3d4c_cccd },
            max_iterations: 64,
            min_neighbor_points: 12,
            min_inliers: 8,
            min_inlier_ratio: Float32 { bits: 0x3ee6_6666 },
            max_planarity_ratio: Float32 { bits: 0x3e19_999a },
            min_planar_spread: Float32 { bits: 0x3cf5_c28f },
            keep_nonplanar_regions: true,
        }
    }
}

// ---------------------------------------------------------------------------
// Valid settings
// ---------------------------------------------------------------------------

/// Ninety degrees.
pub const RIGHT_ANGLE_DEG: u32 = 0x42b4_0000;

/// What is wrong with settings.
#[derive(Clone, Copy, Debug, PartialEq, Eq, Structural)]
pub enum ConfigError {
    VoxelSize,
    NeighborRange,
    FitDistance,
    KeepDistance,
    KeepAboveFit,
    RefitDistance,
    RefitAboveFit,
    KeepAboveRefit,
    ResidualBinSize,
    PlaneVoteRange,
    ParallelPlaneTolerance,
    ParallelNormalAngle,
    FallbackKeepDistance,
    MaxIterations,
    MinNeighborPoints,
    MinInliers,
    InliersAboveNeighbors,
    MinInlierRatio,
    MaxPlanarityRatio,
    MinPlanarSpread,
}

/// The first thing that is wrong with `config`, in the order in which it is checked.
pub open spec fn config_fault(config: FilterConfig) -> Option<ConfigError> {
    let zero = Float32::zero_spec();
    if !(config.voxel_size.is_finite() && zero.lt(config.voxel_size)) {
        Some(ConfigError::VoxelSize)
    } else if config.neighbor_range < 0 {
        Some(ConfigError::NeighborRange)
    } else if !(config.fit_distance_threshold.is_finite() && zero.lt(config.fit_distance_threshold)) {
        Some(ConfigError::FitDistance)
    } else if !(config.keep_distance_threshold.is_finite() && zero.lt(config.keep_distance_threshold)) {
        Some(ConfigError::KeepDistance)
    } else if config.fit_distance_threshold.lt(config.keep_distance_threshold) {
        Some(ConfigError::KeepAboveFit)
    } else if !(config.refit_distance_threshold.is_finite() && zero.lt(config.refit_distance_threshold)) {
        Some(ConfigError::RefitDistance)
    } else if config.fit_distance_threshold.lt(config.refit_distance_threshold) {
        Some(ConfigError::RefitAboveFit)
    } else if config.refit_distance_threshold.lt(config.keep_distance_threshold) {
        Some(ConfigError::KeepAboveRefit)
    } else if !(config.residual_bin_size.is_finite() && zero.lt(config.residual_bin_size)) {
        Some(ConfigError::ResidualBinSize)
    } else if config.plane_vote_range < 0 {
        Some(ConfigError::PlaneVoteRange)
    } else if !(config.parallel_plane_tolerance.is_finite() && zero.le(config.parallel_plane_tolerance)) {
        Some(ConfigError::ParallelPlaneTolerance)
    } else if !(zero.le(config.parallel_normal_angle_deg) && config.parallel_normal_angle_deg.le((Float32 { bits: RIGHT_ANGLE_DEG }))) {
        Some(ConfigError::ParallelNormalAngle)
    } else if !(config.fallback_keep_distance.is_finite() && config.keep_distance_threshold.le(config.fallback_keep_distance)) {
        Some(ConfigError::FallbackKeepDistance)
    } else if config.max_iterations == 0 {
        Some(ConfigError::MaxIterations)
    } else if config.min_neighbor_points < 3 {
        Some(ConfigError::MinNeighborPoints)
    } else if config.min_inliers < 3 {
        Some(ConfigError::MinInliers)
    } else if config.min_inliers > config.min_neighbor_points {
        Some(ConfigError::InliersAboveNeighbors)
    } else if !(zero.le(config.min_inlier_ratio) && config.min_inlier_ratio.le((Float32 { bits: F32_ONE }))) {
        Some(ConfigError::MinInlierRatio)
    } else if !(config.max_planarity_ratio.is_finite() && zero.le(config.max_planarity_ratio)) {
        Some(ConfigError::MaxPlanarityRatio)
    } else if !(config.min_planar_spread.is_finite() && zero.le(config.min_planar_spread)) {
        Some(ConfigError::MinPlanarSpread)
    } else {
        None
    }
}

/// Whether the filter works with `config`.
pub fn validate_config(config: &FilterConfig) -> (r: Result<(), ConfigError>)
    ensures
        match r {
            Ok(()) => config_fault(*config) is None,
            Err(e) => config_fault(*config) == Some(e),
        },
{
    let zero = Float32::zero();
    if !(config.voxel_size.is_finite() && zero.lt(config.voxel_size)) {
        Err(ConfigError::VoxelSize)
    } else if config.neighbor_range < 0 {
        Err(ConfigError::NeighborRange)
    } else if !(config.fit_distance_threshold.is_finite() && zero.lt(config.fit_distance_threshold)) {
        Err(ConfigError::FitDistance)
    } else if !(config.keep_distance_threshold.is_finite() && zero.lt(config.keep_distance_threshold)) {
        Err(ConfigError::KeepDistance)
    } else if config.fit_distance_threshold.lt(config.keep_distance_threshold) {
        Err(ConfigError::KeepAboveFit)
    } else if !(config.refit_distance_threshold.is_finite() && zero.lt(config.refit_distance_threshold)) {
        Err(ConfigError::RefitDistance)
    } else if config.fit_distance_threshold.lt(config.refit_distance_threshold) {
        Err(ConfigError::RefitAboveFit)
    } else if config.refit_distance_threshold.lt(config.keep_distance_threshold) {
        Err(ConfigError::KeepAboveRefit)
    } else if !(config.residual_bin_size.is_finite() && zero.lt(config.residual_bin_size)) {
        Err(ConfigError::ResidualBinSize)
    } else if config.plane_vote_range < 0 {
        Err(ConfigError::PlaneVoteRange)
    } else if !(config.parallel_plane_tolerance.is_finite() && zero.le(config.parallel_plane_tolerance)) {
        Err(ConfigError::ParallelPlaneTolerance)
    } else if !(zero.le(config.parallel_normal_angle_deg) && config.parallel_normal_angle_deg.le((Float32 { bits: RIGHT_ANGLE_DEG }))) {
        Err(ConfigError::ParallelNormalAngle)
    } else if !(config.fallback_keep_distance.is_finite() && config.keep_distance_threshold.le(config.fallback_keep_distance)) {
        Err(ConfigError::FallbackKeepDistance)
    } else if config.max_iterations == 0 {
        Err(ConfigError::MaxIterations)
    } else if config.min_neighbor_points < 3 {
        Err(ConfigError::MinNeighborPoints)
    } else if config.min_inliers < 3 {
        Err(ConfigError::MinInliers)
    } else if config.min_inliers > config.min_neighbor_points {
        Err(ConfigError::InliersAboveNeighbors)
    } else if !(zero.le(config.min_inlier_ratio) && config.min_inlier_ratio.le((Float32 { bits: F32_ONE }))) {
        Err(ConfigError::MinInlierRatio)
    } else if !(config.max_planarity_ratio.is_finite() && zero.le(config.max_planarity_ratio)) {
        Err(ConfigError::MaxPlanarityRatio)
    } else if !(config.min_planar_spread.is_finite() && zero.le(config.min_planar_spread)) {
        Err(ConfigError::MinPlanarSpread)
    } else {
        Ok(())
    }
}

/// The settings that the filter starts from are valid.
pub proof fn default_filter_is_valid()
    ensures
        config_fault(default_filter()) is None,
{
}

impl ConfigError {
    pub open spec fn message_spec(self) -> Seq<char> {
        match self {
            ConfigError::VoxelSize => "voxel_size must be finite and > 0"@,
            ConfigError::NeighborRange => "neighbor_range must be >= 0"@,
            ConfigError::FitDistance => "fit_distance_threshold must be finite and > 0"@,
            ConfigError::KeepDistance => "keep_distance_threshold must be finite and > 0"@,
            ConfigError::KeepAboveFit => "keep_distance_threshold must be <= fit_distance_threshold"@,
            ConfigError::RefitDistance => "refit_distance_threshold must be finite and > 0"@,
            ConfigError::RefitAboveFit => "refit_distance_threshold must be <= fit_distance_threshold"@,
            ConfigError::KeepAboveRefit => "keep_distance_threshold must be <= refit_distance_threshold"@,
            ConfigError::ResidualBinSize => "residual_bin_size must be finite and > 0"@,
            ConfigError::PlaneVoteRange => "plane_vote_range must be >= 0"@,
            ConfigError::ParallelPlaneTolerance => "parallel_plane_tolerance must be finite and >= 0"@,
            ConfigError::ParallelNormalAngle => "parallel_normal_angle_deg must be in [0, 90]"@,
            ConfigError::FallbackKeepDistance => "fallback_keep_distance must be finite and >= keep_distance_threshold"@,
            ConfigError::MaxIterations => "max_iterations must be > 0"@,
            ConfigError::MinNeighborPoints => "min_neighbor_points must be >= 3"@,
            ConfigError::MinInliers => "min_inliers must be >= 3"@,
            ConfigError::InliersAboveNeighbors => "min_inliers must be <= min_neighbor_points"@,
            ConfigError::MinInlierRatio => "min_inlier_ratio must be in [0, 1]"@,
            ConfigError::MaxPlanarityRatio => "max_planarity_ratio must be finite and >= 0"@,
            ConfigError::MinPlanarSpread => "min_planar_spread must be finite and >= 0"@,
        }
    }

    pub fn message(self) -> (r: &'static str)
        ensures
            r@ == self.message_spec(),
    {
        match self {
            ConfigError::VoxelSize => "voxel_size must be finite and > 0",
            ConfigError::NeighborRange => "neighbor_range must be >= 0",
            ConfigError::FitDistance => "fit_distance_threshold must be finite and > 0",
            ConfigError::KeepDistance => "keep_distance_threshold must be finite and > 0",
            ConfigError::KeepAboveFit => "keep_distance_threshold must be <= fit_distance_threshold",
            ConfigError::RefitDistance => "refit_distance_threshold must be finite and > 0",
            ConfigError::RefitAboveFit => "refit_distance_threshold must be <= fit_distance_threshold",
            ConfigError::KeepAboveRefit => "keep_distance_threshold must be <= refit_distance_threshold",
            ConfigError::ResidualBinSize => "residual_bin_size must be finite and > 0",
            ConfigError::PlaneVoteRange => "plane_vote_range must be >= 0",
            ConfigError::ParallelPlaneTolerance => "parallel_plane_tolerance must be finite and >= 0",
            ConfigError::ParallelNormalAngle => "parallel_normal_angle_deg must be in [0, 90]",
            ConfigError::FallbackKeepDistance => "fallback_keep_distance must be finite and >= keep_distance_threshold",
            ConfigError::MaxIterations => "max_iterations must be > 0",
            ConfigError::MinNeighborPoints => "min_neighbor_points must be >= 3",
            ConfigError::MinInliers => "min_inliers must be >= 3",
            ConfigError::InliersAboveNeighbors => "min_inliers must be <= min_neighbor_points",
            ConfigError::MinInlierRatio => "min_inlier_ratio must be in [0, 1]",
            ConfigError::MaxPlanarityRatio => "max_planarity_ratio must be finite and >= 0",
            ConfigError::MinPlanarSpread => "min_planar_spread must be finite and >= 0",
        }
    }
}

// ---------------------------------------------------------------------------
// Command line
// ---------------------------------------------------------------------------

/// An option of the command line.
#[derive(Clone, Copy, Debug, PartialEq, Eq, Structural)]
pub enum FilterOption {
    VoxelSize,
    NeighborRange,
    DistanceThreshold,
    FitDistanceThreshold,
    KeepDistanceThreshold,
    RefitDistanceThreshold,
    ResidualBinSize,
    PlaneVoteRange,
    ParallelPlaneTolerance,
    ParallelNormalAngle,
    MinOutputPoints,
    FallbackKeepDistance,
    Iterations,
    MinNeighbors,
    MinInliers,
    MinInlierRatio,
    MaxPlanarityRatio,
    MinPlanarSpread,
    MaxPlanes,
    RemovedOutput,
    RemoveNonplanar,
    KeepNonplanar,
    Help,
}

/// What follows an option.
#[derive(Clone, Copy, Debug, PartialEq, Eq, Structural)]
pub enum OptionKind {
    /// A real number.
    Real,
    /// An integer.
    Integer,
    /// A count.
    Count,
    /// A text.
    Text,
    /// Nothing.
    Flag,
}

impl FilterOption {
    pub open spec fn name_spec(self) -> Seq<char> {
        match self {
            FilterOption::VoxelSize => "--voxel-size"@,
            FilterOption::NeighborRange => "--neighbor-range"@,
            FilterOption::DistanceThreshold => "--distance-threshold"@,
            FilterOption::FitDistanceThreshold => "--fit-distance-threshold"@,
            FilterOption::KeepDistanceThreshold => "--keep-distance-threshold"@,
            FilterOption::RefitDistanceThreshold => "--refit-distance-threshold"@,
            FilterOption::ResidualBinSize => "--residual-bin-size"@,
            FilterOption::PlaneVoteRange => "--plane-vote-range"@,
            FilterOption::ParallelPlaneTolerance => "--parallel-plane-tolerance"@,
            FilterOption::ParallelNormalAngle => "--parallel-normal-angle"@,
            FilterOption::MinOutputPoints => "--min-output-points"@,
            FilterOption::FallbackKeepDistance => "--fallback-keep-distance"@,
            FilterOption::Iterations => "--iterations"@,
            FilterOption::MinNeighbors => "--min-neighbors"@,
            FilterOption::MinInliers => "--min-inliers"@,
            FilterOption::MinInlierRatio => "--min-inlier-ratio"@,
            FilterOption::MaxPlanarityRatio => "--max-planarity-ratio"@,
            FilterOption::MinPlanarSpread => "--min-planar-spread"@,
            FilterOption::MaxPlanes => "--max-planes"@,
            FilterOption::RemovedOutput => "--removed-output"@,
            FilterOption::RemoveNonplanar => "--remove-nonplanar"@,
            FilterOption::KeepNonplanar => "--keep-nonplanar"@,
            FilterOption::Help => "--help"@,
        }
    }

    pub fn name(self) -> (r: &'static str)
        ensures
            r@ == self.name_spec(),
    {
        match self {
            FilterOption::VoxelSize => "--voxel-size",
            FilterOption::NeighborRange => "--neighbor-range",
            FilterOption::DistanceThreshold => "--distance-threshold",
            FilterOption::FitDistanceThreshold => "--fit-distance-threshold",
            FilterOption::KeepDistanceThreshold => "--keep-distance-threshold",
            FilterOption::RefitDistanceThreshold => "--refit-distance-threshold",
            FilterOption::ResidualBinSize => "--residual-bin-size",
            FilterOption::PlaneVoteRange => "--plane-vote-range",
            FilterOption::ParallelPlaneTolerance => "--parallel-plane-tolerance",
            FilterOption::ParallelNormalAngle => "--parallel-normal-angle",
            FilterOption::MinOutputPoints => "--min-output-points",
            FilterOption::FallbackKeepDistance => "--fallback-keep-distance",
            FilterOption::Iterations => "--iterations",
            FilterOption::MinNeighbors => "--min-neighbors",
            FilterOption::MinInliers => "--min-inliers",
            FilterOption::MinInlierRatio => "--min-inlier-ratio",
            FilterOption::MaxPlanarityRatio => "--max-planarity-ratio",
            FilterOption::MinPlanarSpread => "--min-planar-spread",
            FilterOption::MaxPlanes => "--max-planes",
            FilterOption::RemovedOutput => "--removed-output",
            FilterOption::RemoveNonplanar => "--remove-nonplanar",
            FilterOption::KeepNonplanar => "--keep-nonplanar",
            FilterOption::Help => "--help",
        }
    }

    pub open spec fn kind_spec(self) -> OptionKind {
        match self {
            FilterOption::NeighborRange
            | FilterOption::PlaneVoteRange => OptionKind::Integer,
            FilterOption::MinOutputPoints
            | FilterOption::Iterations
            | FilterOption::MinNeighbors
            | FilterOption::MinInliers
            | FilterOption::MaxPlanes => OptionKind::Count,
            FilterOption::RemovedOutput => OptionKind::Text,
            FilterOption::RemoveNonplanar
            | FilterOption::KeepNonplanar
            | FilterOption::Help => OptionKind::Flag,
            _ => OptionKind::Real,
        }
    }

    #[verifier::when_used_as_spec(kind_spec)]
    pub fn kind(self) -> (r: OptionKind)
        ensures
            r == self.kind_spec(),
    {
        match self {
            FilterOption::NeighborRange
            | FilterOption::PlaneVoteRange => OptionKind::Integer,
            FilterOption::MinOutputPoints
            | FilterOption::Iterations
            | FilterOption::MinNeighbors
            | FilterOption::MinInliers
            | FilterOption::MaxPlanes => OptionKind::Count,
            FilterOption::RemovedOutput => OptionKind::Text,
            FilterOption::RemoveNonplanar
            | FilterOption::KeepNonplanar
            | FilterOption::Help => OptionKind::Flag,
            _ => OptionKind::Real,
        }
    }
}

/// The option that `text` is.
pub open spec fn option_named(text: Seq<char>) -> Option<FilterOption> {
    if text == "--voxel-size"@ {
        Some(FilterOption::VoxelSize)
    } else if text == "--neighbor-range"@ {
        Some(FilterOption::NeighborRange)
    } else if text == "--distance-threshold"@ {
        Some(FilterOption::DistanceThreshold)
    } else if text == "--fit-distance-threshold"@ {
        Some(FilterOption::FitDistanceThreshold)
    } else if text == "--keep-distance-threshold"@ {
        Some(FilterOption::KeepDistanceThreshold)
    } else if text == "--refit-distance-threshold"@ {
        Some(FilterOption::RefitDistanceThreshold)
    } else if text == "--residual-bin-size"@ {
        Some(FilterOption::ResidualBinSize)
    } else if text == "--plane-vote-range"@ {
        Some(FilterOption::PlaneVoteRange)
    } else if text == "--parallel-plane-tolerance"@ {
        Some(FilterOption::ParallelPlaneTolerance)
    } else if text == "--parallel-normal-angle"@ {
        Some(FilterOption::ParallelNormalAngle)
    } else if text == "--min-output-points"@ {
        Some(FilterOption::MinOutputPoints)
    } else if text == "--fallback-keep-distance"@ {
        Some(FilterOption::FallbackKeepDistance)
    } else if text == "--iterations"@ {
        Some(FilterOption::Iterations)
    } else if text == "--min-neighbors"@ {
        Some(FilterOption::MinNeighbors)
    } else if text == "--min-inliers"@ {
        Some(FilterOption::MinInliers)
    } else if text == "--min-inlier-ratio"@ {
        Some(FilterOption::MinInlierRatio)
    } else if text == "--max-planarity-ratio"@ {
        Some(FilterOption::MaxPlanarityRatio)
    } else if text == "--min-planar-spread"@ {
        Some(FilterOption::MinPlanarSpread)
    } else if text == "--max-planes"@ {
        Some(FilterOption::MaxPlanes)
    } else if text == "--removed-output"@ {
        Some(FilterOption::RemovedOutput)
    } else if text == "--remove-nonplanar"@ {
        Some(FilterOption::RemoveNonplanar)
    } else if text == "--keep-nonplanar"@ {
        Some(FilterOption::KeepNonplanar)
    } else if text == "-h"@ || text == "--help"@ {
        Some(FilterOption::Help)
    } else {
        None
    }
}

pub fn parse_option(text: &str) -> (r: Option<FilterOption>)
    ensures
        r == option_named(text@),
{
    if same_text(text, "--voxel-size") {
        Some(FilterOption::VoxelSize)
    } else if same_text(text, "--neighbor-range") {
        Some(FilterOption::NeighborRange)
    } else if same_text(text, "--distance-threshold") {
        Some(FilterOption::DistanceThreshold)
    } else if same_text(text, "--fit-distance-threshold") {
        Some(FilterOption::FitDistanceThreshold)
    } else if same_text(text, "--keep-distance-threshold") {
        Some(FilterOption::KeepDistanceThreshold)
    } else if same_text(text, "--refit-distance-threshold") {
        Some(FilterOption::RefitDistanceThreshold)
    } else if same_text(text, "--residual-bin-size") {
        Some(FilterOption::ResidualBinSize)
    } else if same_text(text, "--plane-vote-range") {
        Some(FilterOption::PlaneVoteRange)
    } else if same_text(text, "--parallel-plane-tolerance") {
        Some(FilterOption::ParallelPlaneTolerance)
    } else if same_text(text, "--parallel-normal-angle") {
        Some(FilterOption::ParallelNormalAngle)
    } else if same_text(text, "--min-output-points") {
        Some(FilterOption::MinOutputPoints)
    } else if same_text(text, "--fallback-keep-distance") {
        Some(FilterOption::FallbackKeepDistance)
    } else if same_text(text, "--iterations") {
        Some(FilterOption::Iterations)
    } else if same_text(text, "--min-neighbors") {
        Some(FilterOption::MinNeighbors)
    } else if same_text(text, "--min-inliers") {
        Some(FilterOption::MinInliers)
    } else if same_text(text, "--min-inlier-ratio") {
        Some(FilterOption::MinInlierRatio)
    } else if same_text(text, "--max-planarity-ratio") {
        Some(FilterOption::MaxPlanarityRatio)
    } else if same_text(text, "--min-planar-spread") {
        Some(FilterOption::MinPlanarSpread)
    } else if same_text(text, "--max-planes") {
        Some(FilterOption::MaxPlanes)
    } else if same_text(text, "--removed-output") {
        Some(FilterOption::RemovedOutput)
    } else if same_text(text, "--remove-nonplanar") {
        Some(FilterOption::RemoveNonplanar)
    } else if same_text(text, "--keep-nonplanar") {
        Some(FilterOption::KeepNonplanar)
    } else if same_text(text, "-h") || same_text(text, "--help") {
        Some(FilterOption::Help)
    } else {
        None
    }
}

/// `config` with what `option` sets set to `value`.
pub open spec fn with_real_spec(config: FilterConfig, option: FilterOption, value: Float32) -> FilterConfig {
    match option {
        FilterOption::VoxelSize => FilterConfig { voxel_size: value, ..config },
        FilterOption::DistanceThreshold => FilterConfig { fit_distance_threshold: value, refit_distance_threshold: value, keep_distance_threshold: value, ..config },
        FilterOption::FitDistanceThreshold => FilterConfig { fit_distance_threshold: value, ..config },
        FilterOption::KeepDistanceThreshold => FilterConfig { keep_distance_threshold: value, ..config },
        FilterOption::RefitDistanceThreshold => FilterConfig { refit_distance_threshold: value, ..config },
        FilterOption::ResidualBinSize => FilterConfig { residual_bin_size: value, ..config },
        FilterOption::ParallelPlaneTolerance => FilterConfig { parallel_plane_tolerance: value, ..config },
        FilterOption::ParallelNormalAngle => FilterConfig { parallel_normal_angle_deg: value, ..config },
        FilterOption::FallbackKeepDistance => FilterConfig { fallback_keep_distance: value, ..config },
        FilterOption::MinInlierRatio => FilterConfig { min_inlier_ratio: value, ..config },
        FilterOption::MaxPlanarityRatio => FilterConfig { max_planarity_ratio: value, ..config },
        FilterOption::MinPlanarSpread => FilterConfig { min_planar_spread: value, ..config },
        _ => config,
    }
}

fn with_real(config: FilterConfig, option: FilterOption, value: Float32) -> (r: FilterConfig)
    ensures
        r == with_real_spec(config, option, value),
{
    match option {
        FilterOption::VoxelSize => FilterConfig { voxel_size: value, ..config },
        FilterOption::DistanceThreshold => FilterConfig { fit_distance_threshold: value, refit_distance_threshold: value, keep_distance_threshold: value, ..config },
        FilterOption::FitDistanceThreshold => FilterConfig { fit_distance_threshold: value, ..config },
        FilterOption::KeepDistanceThreshold => FilterConfig { keep_distance_threshold: value, ..config },
        FilterOption::RefitDistanceThreshold => FilterConfig { refit_distance_threshold: value, ..config },
        FilterOption::ResidualBinSize => FilterConfig { residual_bin_size: value, ..config },
        FilterOption::ParallelPlaneTolerance => FilterConfig { parallel_plane_tolerance: value, ..config },
        FilterOption::ParallelNormalAngle => FilterConfig { parallel_normal_angle_deg: value, ..config },
        FilterOption::FallbackKeepDistance => FilterConfig { fallback_keep_distance: value, ..config },
        FilterOption::MinInlierRatio => FilterConfig { min_inlier_ratio: value, ..config },
        FilterOption::MaxPlanarityRatio => FilterConfig { max_planarity_ratio: value, ..config },
        FilterOption::MinPlanarSpread => FilterConfig { min_planar_spread: value, ..config },
        _ => config,
    }
}

/// `config` with what `option` sets set to `value`.
pub open spec fn with_integer_spec(config: FilterConfig, option: FilterOption, value: i32) -> FilterConfig {
    match option {
        FilterOption::NeighborRange => FilterConfig { neighbor_range: value, ..config },
        FilterOption::PlaneVoteRange => FilterConfig { plane_vote_range: value, ..config },
        _ => config,
    }
}

fn with_integer(config: FilterConfig, option: FilterOption, value: i32) -> (r: FilterConfig)
    ensures
        r == with_integer_spec(config, option, value),
{
    match option {
        FilterOption::NeighborRange => FilterConfig { neighbor_range: value, ..config },
        FilterOption::PlaneVoteRange => FilterConfig { plane_vote_range: value, ..config },
        _ => config,
    }
}

/// `config` with what `option` sets set to `value`.
pub open spec fn with_count_spec(config: FilterConfig, option: FilterOption, value: usize) -> FilterConfig {
    match option {
        FilterOption::MinOutputPoints => FilterConfig { min_output_points_per_voxel: value, ..config },
        FilterOption::Iterations => FilterConfig { max_iterations: value, ..config },
        FilterOption::MinNeighbors => FilterConfig { min_neighbor_points: value, ..config },
        FilterOption::MinInliers => FilterConfig { min_inliers: value, ..config },
        _ => config,
    }
}

fn with_count(config: FilterConfig, option: FilterOption, value: usize) -> (r: FilterConfig)
    ensures
        r == with_count_spec(config, option, value),
{
    match option {
        FilterOption::MinOutputPoints => FilterConfig { min_output_points_per_voxel: value, ..config },
        FilterOption::Iterations => FilterConfig { max_iterations: value, ..config },
        FilterOption::MinNeighbors => FilterConfig { min_neighbor_points: value, ..config },
        FilterOption::MinInliers => FilterConfig { min_inliers: value, ..config },
        _ => config,
    }
}

/// A run that the command line asks for.
#[derive(Debug)]
pub struct CliArgs {
    pub input_path: String,
    pub output_path: String,
    pub removed_output_path: Option<String>,
    pub config: FilterConfig,
}

/// What the command line asks for.
#[derive(Debug)]
pub enum FilterAction {
    Run(CliArgs),
    Help,
}

/// Why a command line is refused.
#[derive(Debug)]
pub enum ArgumentError {
    MissingPaths,
    MissingValue(FilterOption),
    InvalidValue(FilterOption, String),
    /// More than one plane for each cell is asked for.
    MaxPlanes,
    Unknown(String),
}

/// What a command line comes to, with texts as their characters.
pub ghost enum FilterReading {
    Run(Seq<char>, Seq<char>, Option<Seq<char>>, FilterConfig),
    Help,
    MissingPaths,
    MissingValue(FilterOption),
    InvalidValue(FilterOption, Seq<char>),
    MaxPlanes,
    Unknown(Seq<char>),
}

/// What has been read so far: the settings, and where the removed points go.
pub ghost struct Chosen {
    pub config: FilterConfig,
    pub removed: Option<Seq<char>>,
}

/// `chosen` with the value `text` for `option`, or why that is refused; `number` is the
/// real number that `text` is, where it is one.
pub open spec fn with_value(
    chosen: Chosen,
    option: FilterOption,
    text: Seq<char>,
    number: Option<Float32>,
) -> Result<Chosen, FilterReading> {
    match option.kind_spec() {
        OptionKind::Real => match number {
            Some(value) => Ok(
                Chosen { config: with_real_spec(chosen.config, option, value), ..chosen },
            ),
            None => Err(FilterReading::InvalidValue(option, text)),
        },
        OptionKind::Integer => match parse_i32_spec(text) {
            Some(value) => Ok(
                Chosen {
                    config: with_integer_spec(chosen.config, option, value as i32),
                    ..chosen
                },
            ),
            None => Err(FilterReading::InvalidValue(option, text)),
        },
        OptionKind::Count => match parse_count_spec(text) {
            Some(value) => if option == FilterOption::MaxPlanes && value != 1 {
                Err(FilterReading::MaxPlanes)
            } else {
                Ok(
                    Chosen {
                        config: with_count_spec(chosen.config, option, value as usize),
                        ..chosen
                    },
                )
            },
            None => Err(FilterReading::InvalidValue(option, text)),
        },
        _ => Ok(Chosen { removed: Some(text), ..chosen }),
    }
}

/// What reading the arguments from `i` on comes to, after `chosen` was read; `reals` has
/// the number that each argument is, where it is one.
pub open spec fn filter_reading(
    args: Seq<Seq<char>>,
    reals: Seq<Option<Float32>>,
    i: int,
    chosen: Chosen,
) -> FilterReading
    decreases args.len() - i,
{
    if i < 0 || i >= args.len() {
        FilterReading::Run(args[1], args[2], chosen.removed, chosen.config)
    } else {
        match option_named(args[i]) {
            None => FilterReading::Unknown(args[i]),
            Some(option) => if option == FilterOption::Help {
                FilterReading::Help
            } else if option.kind_spec() == OptionKind::Flag {
                let kept = option == FilterOption::KeepNonplanar;
                filter_reading(
                    args,
                    reals,
                    i + 1,
                    Chosen {
                        config: FilterConfig { keep_nonplanar_regions: kept, ..chosen.config },
                        ..chosen
                    },
                )
            } else if i + 1 >= args.len() {
                FilterReading::MissingValue(option)
            } else {
                match with_value(chosen, option, args[i + 1], reals[i + 1]) {
                    Ok(next) => filter_reading(args, reals, i + 2, next),
                    Err(refused) => refused,
                }
            },
        }
    }
}

/// What the whole command line, the program's name first, comes to.
pub open spec fn filter_command(
    args: Seq<Seq<char>>,
    reals: Seq<Option<Float32>>,
) -> FilterReading {
    if args.len() == 2 && option_named(args[1]) == Some(FilterOption::Help) {
        FilterReading::Help
    } else if args.len() < 3 {
        FilterReading::MissingPaths
    } else {
        filter_reading(args, reals, 3, Chosen { config: default_filter(), removed: None })
    }
}

/// The characters of each text.
pub open spec fn texts(args: Seq<String>) -> Seq<Seq<char>> {
    args.map_values(|s: String| s@)
}

pub open spec fn optional_text(s: Option<String>) -> Option<Seq<char>> {
    match s {
        Some(s) => Some(s@),
        None => None,
    }
}

/// A refusal with texts as their characters.
pub open spec fn refusal(e: ArgumentError) -> FilterReading {
    match e {
        ArgumentError::MissingPaths => FilterReading::MissingPaths,
        ArgumentError::MissingValue(option) => FilterReading::MissingValue(option),
        ArgumentError::InvalidValue(option, text) => FilterReading::InvalidValue(option, text@),
        ArgumentError::MaxPlanes => FilterReading::MaxPlanes,
        ArgumentError::Unknown(text) => FilterReading::Unknown(text@),
    }
}

/// A result with texts as their characters.
pub open spec fn as_filter_reading(r: Result<FilterAction, ArgumentError>) -> FilterReading {
    match r {
        Ok(FilterAction::Run(cli)) => FilterReading::Run(
            cli.input_path@,
            cli.output_path@,
            optional_text(cli.removed_output_path),
            cli.config,
        ),
        Ok(FilterAction::Help) => FilterReading::Help,
        Err(e) => refusal(e),
    }
}

/// Takes the value `text` of `option` over into `config` and `removed`.
fn take_value(
    config: &mut FilterConfig,
    removed: &mut Option<String>,
    option: FilterOption,
    text: &str,
    number: Option<Float32>,
) -> (r: Result<(), ArgumentError>)
    requires
        option.kind_spec() != OptionKind::Flag,
    ensures
        ({
            let before = Chosen { config: *old(config), removed: optional_text(*old(removed)) };
            match (r, with_value(before, option, text@, number)) {
                (Ok(()), Ok(after)) => after == (Chosen {
                    config: *final(config),
                    removed: optional_text(*final(removed)),
                }),
                (Err(e), Err(refused)) => refused == refusal(e),
                _ => false,
            }
        }),
{
    match option.kind() {
        OptionKind::Real => match number {
            Some(value) => {
                *config = with_real(*config, option, value);
                Ok(())
            },
            None => Err(ArgumentError::InvalidValue(option, text.to_owned())),
        },
        OptionKind::Integer => match parse_i32(text) {
            Some(value) => {
                *config = with_integer(*config, option, value);
                Ok(())
            },
            None => Err(ArgumentError::InvalidValue(option, text.to_owned())),
        },
        OptionKind::Count => match parse_count(text) {
            Some(value) => if option == FilterOption::MaxPlanes && value != 1 {
                Err(ArgumentError::MaxPlanes)
            } else {
                *config = with_count(*config, option, value);
                Ok(())
            },
            None => Err(ArgumentError::InvalidValue(option, text.to_owned())),
        },
        _ => {
            *removed = Some(text.to_owned());
            Ok(())
        },
    }
}

/// Reads the command line `args`, the program's name first; `reals` has the number that
/// each argument is, where it is one.
pub fn parse_args(args: &[String], reals: &[Option<Float32>]) -> (r: Result<
    FilterAction,
    ArgumentError,
>)
    requires
        reals.len() == args.len(),
    ensures
        as_filter_reading(r) == filter_command(texts(args@), reals@),
{
    let ghost all = texts(args@);
    if args.len() == 2 {
        if let Some(FilterOption::Help) = parse_option(args[1].as_str()) {
            return Ok(FilterAction::Help);
        }
    }
    if args.len() < 3 {
        return Err(ArgumentError::MissingPaths);
    }
    let mut config = FilterConfig::default();
    let mut removed: Option<String> = None;
    let mut i: usize = 3;
    while i < args.len()
        invariant
            3 <= i <= args.len(),
            reals.len() == args.len(),
            all == texts(args@),
            filter_command(all, reals@) == filter_reading(
                all,
                reals@,
                i as int,
                Chosen { config, removed: optional_text(removed) },
            ),
        decreases args.len() - i,
    {
        let text: &str = args[i].as_str();
        assert(text@ == all[i as int]);
        match parse_option(text) {
            None => {
                return Err(ArgumentError::Unknown(text.to_owned()));
            },
            Some(option) => {
                if option == FilterOption::Help {
                    return Ok(FilterAction::Help);
                }
                if option.kind() == OptionKind::Flag {
                    config.keep_nonplanar_regions = option == FilterOption::KeepNonplanar;
                    i += 1;
                } else {
                    if args.len() - i < 2 {
                        return Err(ArgumentError::MissingValue(option));
                    }
                    assert(args[i + 1]@ == all[i + 1]);
                    let taken = take_value(
                        &mut config,
                        &mut removed,
                        option,
                        args[i + 1].as_str(),
                        reals[i + 1],
                    );
                    if let Err(e) = taken {
                        return Err(e);
                    }
                    i += 2;
                }
            },
        }
    }
    Ok(
        FilterAction::Run(
            CliArgs {
                input_path: args[1].as_str().to_owned(),
                output_path: args[2].as_str().to_owned(),
                removed_output_path: removed,
                config,
            },
        ),
    )
}

impl ArgumentError {
    /// The message, without the reason why a value is not one of its kind.
    pub open spec fn message_spec(self) -> Seq<char> {
        match self {
            ArgumentError::MissingPaths => "Input and output PCD paths are required"@,
            ArgumentError::MissingValue(option) => "Missing value after "@ + option.name_spec(),
            ArgumentError::InvalidValue(option, text) => "Invalid value for "@
                + option.name_spec() + ": '"@ + text@ + "'"@,
            ArgumentError::MaxPlanes =>
                "v3 stores one dominant plane per filter cell; --max-planes must be 1"@,
            ArgumentError::Unknown(text) => "Unknown argument: "@ + text@,
        }
    }

    pub fn message(&self) -> (r: String)
        ensures
            r@ == self.message_spec(),
    {
        let mut r = String::new();
        match self {
            ArgumentError::MissingPaths => {
                r.append("Input and output PCD paths are required");
            },
            ArgumentError::MissingValue(option) => {
                r.append("Missing value after ");
                r.append(option.name());
            },
            ArgumentError::InvalidValue(option, text) => {
                r.append("Invalid value for ");
                r.append(option.name());
                r.append(": '");
                r.append(text.as_str());
                r.append("'");
            },
            ArgumentError::MaxPlanes => {
                r.append("v3 stores one dominant plane per filter cell; --max-planes must be 1");
            },
            ArgumentError::Unknown(text) => {
                r.append("Unknown argument: ");
                r.append(text.as_str());
            },
        }
        assert(r@ =~= self.message_spec());
        r
    }
}

// ---------------------------------------------------------------------------
// What options and configurations are
// ---------------------------------------------------------------------------

/// A configuration is accepted exactly where its sizes and distances are finite and
/// positive, what is kept is within what is refitted and that within what is fitted, the
/// fallback is not within what is kept, at least three inliers are asked for and no more
/// than neighbors, and shares and angles are in their ranges.
pub proof fn accepted_configurations_are_in_order(config: FilterConfig)
    ensures
        ({
            let zero = Float32 { bits: 0 };
            let keep = config.keep_distance_threshold;
            let refit = config.refit_distance_threshold;
            let fit = config.fit_distance_threshold;
            config_fault(config) is None <==> {
                &&& zero.lt_spec(config.voxel_size) && config.voxel_size.is_finite_spec()
                &&& zero.lt_spec(config.residual_bin_size)
                    && config.residual_bin_size.is_finite_spec()
                &&& zero.lt_spec(keep) && keep.le_spec(refit) && refit.le_spec(fit)
                    && fit.is_finite_spec()
                &&& keep.le_spec(config.fallback_keep_distance)
                    && config.fallback_keep_distance.is_finite_spec()
                &&& 0 <= config.neighbor_range && 0 <= config.plane_vote_range
                &&& zero.le_spec(config.parallel_plane_tolerance)
                    && config.parallel_plane_tolerance.is_finite_spec()
                &&& zero.le_spec(config.parallel_normal_angle_deg)
                    && config.parallel_normal_angle_deg.le_spec(Float32 { bits: 0x42b4_0000 })
                &&& config.max_iterations >= 1
                &&& 3 <= config.min_inliers <= config.min_neighbor_points
                &&& zero.le_spec(config.min_inlier_ratio) && config.min_inlier_ratio.le_spec(
                    Float32 { bits: 0x3f80_0000 },
                )
                &&& zero.le_spec(config.max_planarity_ratio)
                    && config.max_planarity_ratio.is_finite_spec()
                &&& zero.le_spec(config.min_planar_spread)
                    && config.min_planar_spread.is_finite_spec()
            }
        }),
{
}

/// An option for a real number sets the field that it names, and setting it back undoes
/// it: no other field changes. One option sets three distances at once.
pub proof fn real_options_set_their_field(config: FilterConfig, value: Float32)
    ensures
        with_real_spec(config, FilterOption::VoxelSize, value).voxel_size == value,
        with_real_spec(config, FilterOption::FitDistanceThreshold, value).fit_distance_threshold == value,
        with_real_spec(config, FilterOption::KeepDistanceThreshold, value).keep_distance_threshold == value,
        with_real_spec(config, FilterOption::RefitDistanceThreshold, value).refit_distance_threshold == value,
        with_real_spec(config, FilterOption::ResidualBinSize, value).residual_bin_size == value,
        with_real_spec(config, FilterOption::ParallelPlaneTolerance, value).parallel_plane_tolerance == value,
        with_real_spec(config, FilterOption::ParallelNormalAngle, value).parallel_normal_angle_deg == value,
        with_real_spec(config, FilterOption::FallbackKeepDistance, value).fallback_keep_distance == value,
        with_real_spec(config, FilterOption::MinInlierRatio, value).min_inlier_ratio == value,
        with_real_spec(config, FilterOption::MaxPlanarityRatio, value).max_planarity_ratio == value,
        with_real_spec(config, FilterOption::MinPlanarSpread, value).min_planar_spread == value,
        with_real_spec(
            with_real_spec(config, FilterOption::VoxelSize, value),
            FilterOption::VoxelSize,
            config.voxel_size,
        ) == config,
        with_real_spec(
            with_real_spec(config, FilterOption::FitDistanceThreshold, value),
            FilterOption::FitDistanceThreshold,
            config.fit_distance_threshold,
        ) == config,
        with_real_spec(
            with_real_spec(config, FilterOption::KeepDistanceThreshold, value),
            FilterOption::KeepDistanceThreshold,
            config.keep_distance_threshold,
        ) == config,
        with_real_spec(
            with_real_spec(config, FilterOption::RefitDistanceThreshold, value),
            FilterOption::RefitDistanceThreshold,
            config.refit_distance_threshold,
        ) == config,
        with_real_spec(
            with_real_spec(config, FilterOption::ResidualBinSize, value),
            FilterOption::ResidualBinSize,
            config.residual_bin_size,
        ) == config,
        with_real_spec(
            with_real_spec(config, FilterOption::ParallelPlaneTolerance, value),
            FilterOption::ParallelPlaneTolerance,
            config.parallel_plane_tolerance,
        ) == config,
        with_real_spec(
            with_real_spec(config, FilterOption::ParallelNormalAngle, value),
            FilterOption::ParallelNormalAngle,
            config.parallel_normal_angle_deg,
        ) == config,
        with_real_spec(
            with_real_spec(config, FilterOption::FallbackKeepDistance, value),
            FilterOption::FallbackKeepDistance,
            config.fallback_keep_distance,
        ) == config,
        with_real_spec(
            with_real_spec(config, FilterOption::MinInlierRatio, value),
            FilterOption::MinInlierRatio,
            config.min_inlier_ratio,
        ) == config,
        with_real_spec(
            with_real_spec(config, FilterOption::MaxPlanarityRatio, value),
            FilterOption::MaxPlanarityRatio,
            config.max_planarity_ratio,
        ) == config,
        with_real_spec(
            with_real_spec(config, FilterOption::MinPlanarSpread, value),
            FilterOption::MinPlanarSpread,
            config.min_planar_spread,
        ) == config,
        with_real_spec(config, FilterOption::DistanceThreshold, value) == with_real_spec(
            with_real_spec(
                with_real_spec(config, FilterOption::FitDistanceThreshold, value),
                FilterOption::RefitDistanceThreshold,
                value,
            ),
            FilterOption::KeepDistanceThreshold,
            value,
        ),
{
}

/// An option for an integer or a count sets the field that it names, and setting it back
/// undoes it: no other field changes.
pub proof fn whole_options_set_their_field(config: FilterConfig, value: i32, count: usize)
    ensures
        with_integer_spec(config, FilterOption::NeighborRange, value).neighbor_range == value,
        with_integer_spec(config, FilterOption::PlaneVoteRange, value).plane_vote_range == value,
        with_integer_spec(
            with_integer_spec(config, FilterOption::NeighborRange, value),
            FilterOption::NeighborRange,
            config.neighbor_range,
        ) == config,
        with_integer_spec(
            with_integer_spec(config, FilterOption::PlaneVoteRange, value),
            FilterOption::PlaneVoteRange,
            config.plane_vote_range,
        ) == config,
        with_count_spec(config, FilterOption::MinOutputPoints, count).min_output_points_per_voxel == count,
        with_count_spec(config, FilterOption::Iterations, count).max_iterations == count,
        with_count_spec(config, FilterOption::MinNeighbors, count).min_neighbor_points == count,
        with_count_spec(config, FilterOption::MinInliers, count).min_inliers == count,
        with_count_spec(
            with_count_spec(config, FilterOption::MinOutputPoints, count),
            FilterOption::MinOutputPoints,
            config.min_output_points_per_voxel,
        ) == config,
        with_count_spec(
            with_count_spec(config, FilterOption::Iterations, count),
            FilterOption::Iterations,
            config.max_iterations,
        ) == config,
        with_count_spec(
            with_count_spec(config, FilterOption::MinNeighbors, count),
            FilterOption::MinNeighbors,
            config.min_neighbor_points,
        ) == config,
        with_count_spec(
            with_count_spec(config, FilterOption::MinInliers, count),
            FilterOption::MinInliers,
            config.min_inliers,
        ) == config,
{
}

/// Every option is found by its name, so no two have the same.
pub proof fn options_are_named_by_their_names(option: FilterOption)
    ensures
        option_named(option.name_spec()) == Some(option),
{
    reveal_strlit("--voxel-size");
    reveal_strlit("--neighbor-range");
    reveal_strlit("--distance-threshold");
    reveal_strlit("--fit-distance-threshold");
    reveal_strlit("--keep-distance-threshold");
    reveal_strlit("--refit-distance-threshold");
    reveal_strlit("--residual-bin-size");
    reveal_strlit("--plane-vote-range");
    reveal_strlit("--parallel-plane-tolerance");
    reveal_strlit("--parallel-normal-angle");
    reveal_strlit("--min-output-points");
    reveal_strlit("--fallback-keep-distance");
    reveal_strlit("--iterations");
    reveal_strlit("--min-neighbors");
    reveal_strlit("--min-inliers");
    reveal_strlit("--min-inlier-ratio");
    reveal_strlit("--max-planarity-ratio");
    reveal_strlit("--min-planar-spread");
    reveal_strlit("--max-planes");
    reveal_strlit("--removed-output");
    reveal_strlit("--remove-nonplanar");
    reveal_strlit("--keep-nonplanar");
    reveal_strlit("-h");
    reveal_strlit("--help");
    assert("--voxel-size"@.len() == 12);
    assert("--neighbor-range"@.len() == 16);
    assert("--distance-threshold"@.len() == 20);
    assert("--fit-distance-threshold"@.len() == 24);
    assert("--keep-distance-threshold"@.len() == 25);
    assert("--refit-distance-threshold"@.len() == 26);
    assert("--residual-bin-size"@.len() == 19);
    assert("--plane-vote-range"@.len() == 18);
    assert("--parallel-plane-tolerance"@.len() == 26);
    assert("--parallel-normal-angle"@.len() == 23);
    assert("--min-output-points"@.len() == 19);
    assert("--fallback-keep-distance"@.len() == 24);
    assert("--iterations"@.len() == 12);
    assert("--min-neighbors"@.len() == 15);
    assert("--min-inliers"@.len() == 13);
    assert("--min-inlier-ratio"@.len() == 18);
    assert("--max-planarity-ratio"@.len() == 21);
    assert("--min-planar-spread"@.len() == 19);
    assert("--max-planes"@.len() == 12);
    assert("--removed-output"@.len() == 16);
    assert("--remove-nonplanar"@.len() == 18);
    assert("--keep-nonplanar"@.len() == 16);
    assert("-h"@.len() == 2);
    assert("--help"@.len() == 6);
    assert("--parallel-plane-tolerance"@[2] != "--refit-distance-threshold"@[2]);
    assert("--min-output-points"@[2] != "--residual-bin-size"@[2]);
    assert("--fallback-keep-distance"@[3] != "--fit-distance-threshold"@[3]);
    assert("--iterations"@[2] != "--voxel-size"@[2]);
    assert("--min-inlier-ratio"@[2] != "--plane-vote-range"@[2]);
    assert("--min-planar-spread"@[2] != "--residual-bin-size"@[2]);
    assert("--min-planar-spread"@[6] != "--min-output-points"@[6]);
    assert("--max-planes"@[2] != "--voxel-size"@[2]);
    assert("--max-planes"@[2] != "--iterations"@[2]);
    assert("--removed-output"@[2] != "--neighbor-range"@[2]);
    assert("--remove-nonplanar"@[2] != "--plane-vote-range"@[2]);
    assert("--remove-nonplanar"@[2] != "--min-inlier-ratio"@[2]);
    assert("--keep-nonplanar"@[2] != "--neighbor-range"@[2]);
    assert("--keep-nonplanar"@[2] != "--removed-output"@[2]);
}

/// Without options a command line names the two files and leaves the configuration as it
/// is by default; with fewer arguments the files are missing.
pub proof fn plain_commands_use_the_defaults(args: Seq<Seq<char>>, reals: Seq<Option<Float32>>)
    ensures
        args.len() == 3 ==> filter_command(args, reals) == FilterReading::Run(
            args[1],
            args[2],
            None,
            default_filter(),
        ),
        args.len() < 2 ==> filter_command(args, reals) == FilterReading::MissingPaths,
        args.len() == 2 && option_named(args[1]) != Some(FilterOption::Help) ==> filter_command(
            args,
            reals,
        ) == FilterReading::MissingPaths,
{
}

/// The last of the options for nonplanar regions decides: after one that keeps them they
/// are kept, after one that removes them they are not.
pub proof fn the_last_flag_decides(
    args: Seq<Seq<char>>,
    reals: Seq<Option<Float32>>,
    chosen: Chosen,
)
    requires
        args.len() >= 4,
        option_named(args[args.len() - 1]) is Some,
    ensures
        ({
            let last = option_named(args[args.len() - 1])->0;
            let run = filter_reading(args, reals, args.len() - 1, chosen);
            &&& last is KeepNonplanar ==> run == FilterReading::Run(
                args[1],
                args[2],
                chosen.removed,
                FilterConfig { keep_nonplanar_regions: true, ..chosen.config },
            )
            &&& last is RemoveNonplanar ==> run == FilterReading::Run(
                args[1],
                args[2],
                chosen.removed,
                FilterConfig { keep_nonplanar_regions: false, ..chosen.config },
            )
            &&& last is Help ==> run == FilterReading::Help
            &&& !(last is KeepNonplanar) && !(last is RemoveNonplanar) && !(last is Help) ==> run
                == FilterReading::MissingValue(last)
        }),
{
    reveal_with_fuel(filter_reading, 2);
}

/// An option at the end with its value sets its field, or is refused with its text; the
/// file for what is removed is the text itself, and one plane is all that can be had.
pub proof fn the_last_option_sets_its_field(
    args: Seq<Seq<char>>,
    reals: Seq<Option<Float32>>,
    chosen: Chosen,
)
    requires
        args.len() >= 5,
        option_named(args[args.len() - 2]) is Some,
    ensures
        ({
            let option = option_named(args[args.len() - 2])->0;
            let text = args[args.len() - 1];
            let given = reals[args.len() - 1];
            let run = filter_reading(args, reals, args.len() - 2, chosen);
            let config = chosen.config;
            &&& option is RemovedOutput ==> run == FilterReading::Run(
                args[1],
                args[2],
                Some(text),
                config,
            )
            &&& option is VoxelSize && given is Some ==> run == FilterReading::Run(
                args[1],
                args[2],
                chosen.removed,
                FilterConfig { voxel_size: given->0, ..config },
            )
            &&& option is VoxelSize && given is None ==> run == FilterReading::InvalidValue(
                option,
                text,
            )
            &&& option is Iterations ==> match parse_count_spec(text) {
                Some(count) => run == FilterReading::Run(
                    args[1],
                    args[2],
                    chosen.removed,
                    FilterConfig { max_iterations: count as usize, ..config },
                ),
                None => run == FilterReading::InvalidValue(option, text),
            }
            &&& option is NeighborRange ==> match parse_i32_spec(text) {
                Some(number) => run == FilterReading::Run(
                    args[1],
                    args[2],
                    chosen.removed,
                    FilterConfig { neighbor_range: number as i32, ..config },
                ),
                None => run == FilterReading::InvalidValue(option, text),
            }
            &&& option is MaxPlanes ==> match parse_count_spec(text) {
                Some(count) => run == if count == 1 {
                    FilterReading::Run(args[1], args[2], chosen.removed, config)
                } else {
                    FilterReading::MaxPlanes
                },
                None => run == FilterReading::InvalidValue(option, text),
            }
        }),
{
    reveal_with_fuel(filter_reading, 2);
}

} // verus!
