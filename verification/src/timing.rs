//! Summaries of how long the stages of a frame take.

use vstd::prelude::*;

use crate::float::Float64;
use crate::numerics::{computes, Arithmetic, Numerics};
use crate::sorting::{positions, sort_positions, stable_order};
use crate::types::{FrameLog, FrameTiming};

verus! {

/// A time that is taken of each frame.
#[derive(Clone, Copy, Debug, PartialEq, Eq, Structural)]
pub enum TimingField {
    LoadPcd,
    Timestamps,
    ImuPredict,
    RotationTrajectory,
    Deskew,
    Downsample,
    BuildSourceMaps,
    Icp,
    PoseUpdate,
    GlobalFilter,
    GlobalMapUpdate,
    DelayedSurface,
    LocalMapUpdate,
    CorrespondenceSearch,
    LinearSystem,
    Solver,
    Other,
    ProcessingTotal,
    TotalWithFileIo,
}

impl TimingField {
    /// The name in the log.
    pub open spec fn name_spec(self) -> Seq<char> {
        match self {
            TimingField::LoadPcd => "load_pcd"@,
            TimingField::Timestamps => "timestamps"@,
            TimingField::ImuPredict => "imu_predict"@,
            TimingField::RotationTrajectory => "rotation_trajectory"@,
            TimingField::Deskew => "deskew"@,
            TimingField::Downsample => "downsample"@,
            TimingField::BuildSourceMaps => "build_source_maps"@,
            TimingField::Icp => "icp"@,
            TimingField::PoseUpdate => "pose_update"@,
            TimingField::GlobalFilter => "global_filter"@,
            TimingField::GlobalMapUpdate => "global_map_update"@,
            TimingField::DelayedSurface => "delayed_surface"@,
            TimingField::LocalMapUpdate => "local_map_update"@,
            TimingField::CorrespondenceSearch => "correspondence_search"@,
            TimingField::LinearSystem => "linear_system"@,
            TimingField::Solver => "solver"@,
            TimingField::Other => "other"@,
            TimingField::ProcessingTotal => "processing_total"@,
            TimingField::TotalWithFileIo => "total_with_file_io"@,
        }
    }

    pub fn name(self) -> (r: &'static str)
        ensures
            r@ == self.name_spec(),
    {
        match self {
            TimingField::LoadPcd => "load_pcd",
            TimingField::Timestamps => "timestamps",
            TimingField::ImuPredict => "imu_predict",
            TimingField::RotationTrajectory => "rotation_trajectory",
            TimingField::Deskew => "deskew",
            TimingField::Downsample => "downsample",
            TimingField::BuildSourceMaps => "build_source_maps",
            TimingField::Icp => "icp",
            TimingField::PoseUpdate => "pose_update",
            TimingField::GlobalFilter => "global_filter",
            TimingField::GlobalMapUpdate => "global_map_update",
            TimingField::DelayedSurface => "delayed_surface",
            TimingField::LocalMapUpdate => "local_map_update",
            TimingField::CorrespondenceSearch => "correspondence_search",
            TimingField::LinearSystem => "linear_system",
            TimingField::Solver => "solver",
            TimingField::Other => "other",
            TimingField::ProcessingTotal => "processing_total",
            TimingField::TotalWithFileIo => "total_with_file_io",
        }
    }

    /// The name in charts.
    pub open spec fn label_spec(self) -> Seq<char> {
        match self {
            TimingField::LoadPcd => "load PCD"@,
            TimingField::Timestamps => "timestamps"@,
            TimingField::ImuPredict => "IMU predict"@,
            TimingField::RotationTrajectory => "rotation traj."@,
            TimingField::Deskew => "deskew"@,
            TimingField::Downsample => "downsample"@,
            TimingField::BuildSourceMaps => "build maps"@,
            TimingField::Icp => "ICP"@,
            TimingField::PoseUpdate => "pose update"@,
            TimingField::GlobalFilter => "global filter"@,
            TimingField::GlobalMapUpdate => "global update"@,
            TimingField::DelayedSurface => "surface"@,
            TimingField::LocalMapUpdate => "local update"@,
            TimingField::CorrespondenceSearch => "correspondence search"@,
            TimingField::LinearSystem => "linear system"@,
            TimingField::Solver => "solver"@,
            TimingField::Other => "other"@,
            TimingField::ProcessingTotal => "processing"@,
            TimingField::TotalWithFileIo => "total"@,
        }
    }

    pub fn label(self) -> (r: &'static str)
        ensures
            r@ == self.label_spec(),
    {
        match self {
            TimingField::LoadPcd => "load PCD",
            TimingField::Timestamps => "timestamps",
            TimingField::ImuPredict => "IMU predict",
            TimingField::RotationTrajectory => "rotation traj.",
            TimingField::Deskew => "deskew",
            TimingField::Downsample => "downsample",
            TimingField::BuildSourceMaps => "build maps",
            TimingField::Icp => "ICP",
            TimingField::PoseUpdate => "pose update",
            TimingField::GlobalFilter => "global filter",
            TimingField::GlobalMapUpdate => "global update",
            TimingField::DelayedSurface => "surface",
            TimingField::LocalMapUpdate => "local update",
            TimingField::CorrespondenceSearch => "correspondence search",
            TimingField::LinearSystem => "linear system",
            TimingField::Solver => "solver",
            TimingField::Other => "other",
            TimingField::ProcessingTotal => "processing",
            TimingField::TotalWithFileIo => "total",
        }
    }

    /// The time in milliseconds.
    pub open spec fn of_spec(self, timing: FrameTiming) -> Float64 {
        match self {
            TimingField::LoadPcd => timing.load_pcd_ms,
            TimingField::Timestamps => timing.timestamps_ms,
            TimingField::ImuPredict => timing.imu_predict_ms,
            TimingField::RotationTrajectory => timing.rotation_trajectory_ms,
            TimingField::Deskew => timing.deskew_ms,
            TimingField::Downsample => timing.downsample_ms,
            TimingField::BuildSourceMaps => timing.build_source_maps_ms,
            TimingField::Icp => timing.icp_ms,
            TimingField::PoseUpdate => timing.pose_update_ms,
            TimingField::GlobalFilter => timing.global_filter_ms,
            TimingField::GlobalMapUpdate => timing.global_map_update_ms,
            TimingField::DelayedSurface => timing.delayed_surface_ms,
            TimingField::LocalMapUpdate => timing.local_map_update_ms,
            TimingField::CorrespondenceSearch => timing.icp_correspondence_search_ms,
            TimingField::LinearSystem => timing.icp_linear_system_ms,
            TimingField::Solver => timing.icp_solver_ms,
            TimingField::Other => timing.icp_other_ms,
            TimingField::ProcessingTotal => timing.processing_total_ms,
            TimingField::TotalWithFileIo => timing.total_with_file_io_ms,
        }
    }

    pub fn of(self, timing: &FrameTiming) -> (r: Float64)
        ensures
            r == self.of_spec(*timing),
    {
        match self {
            TimingField::LoadPcd => timing.load_pcd_ms,
            TimingField::Timestamps => timing.timestamps_ms,
            TimingField::ImuPredict => timing.imu_predict_ms,
            TimingField::RotationTrajectory => timing.rotation_trajectory_ms,
            TimingField::Deskew => timing.deskew_ms,
            TimingField::Downsample => timing.downsample_ms,
            TimingField::BuildSourceMaps => timing.build_source_maps_ms,
            TimingField::Icp => timing.icp_ms,
            TimingField::PoseUpdate => timing.pose_update_ms,
            TimingField::GlobalFilter => timing.global_filter_ms,
            TimingField::GlobalMapUpdate => timing.global_map_update_ms,
            TimingField::DelayedSurface => timing.delayed_surface_ms,
            TimingField::LocalMapUpdate => timing.local_map_update_ms,
            TimingField::CorrespondenceSearch => timing.icp_correspondence_search_ms,
            TimingField::LinearSystem => timing.icp_linear_system_ms,
            TimingField::Solver => timing.icp_solver_ms,
            TimingField::Other => timing.icp_other_ms,
            TimingField::ProcessingTotal => timing.processing_total_ms,
            TimingField::TotalWithFileIo => timing.total_with_file_io_ms,
        }
    }
}

/// The stages of a frame.
pub open spec fn stages_spec() -> Seq<TimingField> {
    seq![
        TimingField::LoadPcd,
        TimingField::Timestamps,
        TimingField::ImuPredict,
        TimingField::RotationTrajectory,
        TimingField::Deskew,
        TimingField::Downsample,
        TimingField::BuildSourceMaps,
        TimingField::Icp,
        TimingField::PoseUpdate,
        TimingField::GlobalFilter,
        TimingField::GlobalMapUpdate,
        TimingField::DelayedSurface,
        TimingField::LocalMapUpdate,
    ]
}

pub fn stages() -> (r: Vec<TimingField>)
    ensures
        r@ == stages_spec(),
{
    let r = vec![
        TimingField::LoadPcd,
        TimingField::Timestamps,
        TimingField::ImuPredict,
        TimingField::RotationTrajectory,
        TimingField::Deskew,
        TimingField::Downsample,
        TimingField::BuildSourceMaps,
        TimingField::Icp,
        TimingField::PoseUpdate,
        TimingField::GlobalFilter,
        TimingField::GlobalMapUpdate,
        TimingField::DelayedSurface,
        TimingField::LocalMapUpdate,
    ];
    assert(r@ =~= stages_spec());
    r
}

/// The parts of the alignment.
pub open spec fn icp_stages_spec() -> Seq<TimingField> {
    seq![
        TimingField::CorrespondenceSearch,
        TimingField::LinearSystem,
        TimingField::Solver,
        TimingField::Other,
    ]
}

pub fn icp_stages() -> (r: Vec<TimingField>)
    ensures
        r@ == icp_stages_spec(),
{
    let r = vec![
        TimingField::CorrespondenceSearch,
        TimingField::LinearSystem,
        TimingField::Solver,
        TimingField::Other,
    ];
    assert(r@ =~= icp_stages_spec());
    r
}

/// A clock that tells how long the stages take.
pub trait StageClock {
    /// The time since the last call, or since the start, was spent on `field`.
    fn lap(&mut self, field: TimingField);
}

/// The share, 0.95, of the times that are no longer than the 95th percentile.
pub const PERCENTILE_95: u64 = 0x3fee_6666_6666_6666;

/// A hundred.
pub const F64_HUNDRED: u64 = 0x4059_0000_0000_0000;

/// The finite times among those of the first `k` frames.
pub open spec fn times_upto(logs: Seq<FrameLog>, field: TimingField, k: int) -> Seq<Float64>
    decreases k,
{
    if k <= 0 {
        Seq::empty()
    } else {
        let before = times_upto(logs, field, k - 1);
        let time = field.of_spec(logs[k - 1].timing);
        if time.is_finite_spec() {
            before.push(time)
        } else {
            before
        }
    }
}

/// The ranks of the times in the total order.
pub open spec fn time_ranks(times: Seq<Float64>) -> Seq<i64> {
    times.map_values(|t: Float64| t.total_rank_spec() as i64)
}

/// The finite times, shortest first.
pub open spec fn sorted_times(logs: Seq<FrameLog>, field: TimingField) -> Seq<Float64> {
    let times = times_upto(logs, field, logs.len() as int);
    stable_order(time_ranks(times)).map_values(|i: int| times[i])
}

/// The finite times are in increasing order.
pub proof fn sorted_times_increase(logs: Seq<FrameLog>, field: TimingField)
    ensures
        sorted_times(logs, field).len() == times_upto(logs, field, logs.len() as int).len(),
        forall|i: int, j: int|
            0 <= i < j < sorted_times(logs, field).len() ==> (#[trigger] sorted_times(
                logs,
                field,
            )[i]).total_rank_spec() <= (#[trigger] sorted_times(logs, field)[j]).total_rank_spec(),
{
    let times = times_upto(logs, field, logs.len() as int);
    let ranks = time_ranks(times);
    crate::sorting::stable_order_is_sorted(ranks);
    assert forall|i: int, j: int| 0 <= i < j < sorted_times(logs, field).len() implies (
    #[trigger] sorted_times(logs, field)[i]).total_rank_spec() <= (#[trigger] sorted_times(
        logs,
        field,
    )[j]).total_rank_spec() by {
        let (a, b) = (stable_order(ranks)[i], stable_order(ranks)[j]);
        assert(crate::sorting::precedes(ranks, a, b));
        lemma_rank_fits(times[a]);
        lemma_rank_fits(times[b]);
    }
}

proof fn lemma_rank_fits(t: Float64)
    ensures
        i64::MIN <= t.total_rank_spec() <= i64::MAX,
{
}

fn times_of(logs: &[FrameLog], field: TimingField) -> (r: Vec<Float64>)
    ensures
        r@ == sorted_times(logs@, field),
{
    let mut times: Vec<Float64> = Vec::new();
    let mut ranks: Vec<i64> = Vec::new();
    let mut k: usize = 0;
    while k < logs.len()
        invariant
            k <= logs.len(),
            times@ == times_upto(logs@, field, k as int),
            ranks@ == time_ranks(times@),
        decreases logs.len() - k,
    {
        let time = field.of(&logs[k].timing);
        if time.is_finite() {
            let ghost before = times@;
            times.push(time);
            ranks.push(time.total_rank());
            assert(ranks@ =~= time_ranks(before.push(time)));
        }
        k += 1;
    }
    let order = sort_positions(ranks.as_slice());
    let mut r: Vec<Float64> = Vec::new();
    let mut i: usize = 0;
    while i < order.len()
        invariant
            i <= order.len(),
            r.len() == i,
            forall|j: int| 0 <= j < order.len() ==> #[trigger] order[j] < times.len(),
            forall|j: int| 0 <= j < i ==> #[trigger] r[j] == times[order[j] as int],
        decreases order.len() - i,
    {
        r.push(times[order[i]]);
        i += 1;
    }
    proof {
        assert forall|j: int| 0 <= j < r.len() implies #[trigger] r[j] == sorted_times(
            logs@,
            field,
        )[j] by {
            assert(positions(order@)[j] == order[j] as int);
        }
        assert(r@ =~= sorted_times(logs@, field));
    }
    r
}

/// The sum of the first `k` times.
pub open spec fn total_upto(g: Arithmetic, times: Seq<Float64>, k: int) -> Float64
    decreases k,
{
    if k <= 0 {
        Float64::zero_spec()
    } else {
        (g.sum64)(total_upto(g, times, k - 1), times[k - 1])
    }
}

/// The mean of the times; zero over one where there is none.
pub open spec fn mean_of(g: Arithmetic, times: Seq<Float64>) -> Float64 {
    let count = if times.len() == 0 {
        1
    } else {
        times.len() as u64
    };
    (g.quotient64)(total_upto(g, times, times.len() as int), (g.from_count64)(count))
}

/// The place of a percentile among `len` sorted times.
pub open spec fn percentile_index(g: Arithmetic, len: int, percentile: Float64) -> int {
    let place = (g.to_u64)(
        (g.ceil64)((g.product64)((g.from_count64)(len as u64), percentile)),
    );
    let below = if place == 0 {
        0
    } else {
        place - 1
    };
    if below > len - 1 {
        len - 1
    } else {
        below
    }
}

fn mean_time<N: Numerics>(n: &N, times: &Vec<Float64>) -> (r: Float64)
    ensures
        forall|g: Arithmetic| #[trigger] computes(*n, g) ==> r == mean_of(g, times@),
{
    let mut total = Float64::zero();
    let mut k: usize = 0;
    while k < times.len()
        invariant
            k <= times.len(),
            forall|g: Arithmetic| #[trigger]
                computes(*n, g) ==> total == total_upto(g, times@, k as int),
        decreases times.len() - k,
    {
        total = n.sum64(total, times[k]);
        k += 1;
    }
    let count: u64 = if times.len() == 0 { 1 } else { times.len() as u64 };
    n.quotient64(total, n.from_count64(count))
}

fn percentile_time<N: Numerics>(n: &N, times: &Vec<Float64>, percentile: Float64) -> (r: Float64)
    requires
        times.len() > 0,
    ensures
        forall|g: Arithmetic| #[trigger]
            computes(*n, g) ==> r == times[percentile_index(g, times.len() as int, percentile)],
{
    let place: u64 = n.to_u64(
        n.ceil64(n.product64(n.from_count64(times.len() as u64), percentile)),
    );
    let below: u64 = if place == 0 { 0 } else { place - 1 };
    let last: u64 = times.len() as u64 - 1;
    let index: u64 = if below > last { last } else { below };
    times[index as usize]
}

/// The mean of the times and a percentile of them; zeros where there is none.
pub open spec fn mean_and_percentile_spec(
    g: Arithmetic,
    logs: Seq<FrameLog>,
    field: TimingField,
    percentile: Float64,
) -> (Float64, Float64) {
    let times = sorted_times(logs, field);
    if times.len() == 0 {
        (Float64::zero_spec(), Float64::zero_spec())
    } else {
        (mean_of(g, times), times[percentile_index(g, times.len() as int, percentile)])
    }
}

pub fn mean_and_percentile<N: Numerics>(
    n: &N,
    logs: &[FrameLog],
    field: TimingField,
    percentile: Float64,
) -> (r: (Float64, Float64))
    ensures
        forall|g: Arithmetic| #[trigger]
            computes(*n, g) ==> r == mean_and_percentile_spec(g, logs@, field, percentile),
{
    let times = times_of(logs, field);
    if times.len() == 0 {
        return (Float64::zero(), Float64::zero());
    }
    (mean_time(n, &times), percentile_time(n, &times, percentile))
}

/// How long something takes: on average, up to the 95th percentile, and at most.
#[derive(Clone, Copy, Debug, PartialEq, Eq, Structural)]
pub struct TimingStats {
    pub field: TimingField,
    pub mean_ms: Float64,
    pub p95_ms: Float64,
    pub max_ms: Float64,
}

pub open spec fn timing_stats_spec(
    g: Arithmetic,
    logs: Seq<FrameLog>,
    field: TimingField,
) -> TimingStats {
    let times = sorted_times(logs, field);
    let len = times.len() as int;
    TimingStats {
        field,
        mean_ms: mean_of(g, times),
        p95_ms: if len == 0 {
            Float64::zero_spec()
        } else {
            times[percentile_index(g, len, Float64 { bits: PERCENTILE_95 })]
        },
        max_ms: if len == 0 {
            Float64::zero_spec()
        } else {
            times[len - 1]
        },
    }
}

pub fn timing_stats<N: Numerics>(n: &N, logs: &[FrameLog], field: TimingField) -> (r: TimingStats)
    ensures
        forall|g: Arithmetic| #[trigger] computes(*n, g) ==> r == timing_stats_spec(g, logs@, field),
{
    let times = times_of(logs, field);
    let mean_ms = mean_time(n, &times);
    if times.len() == 0 {
        return TimingStats { field, mean_ms, p95_ms: Float64::zero(), max_ms: Float64::zero() };
    }
    TimingStats {
        field,
        mean_ms,
        p95_ms: percentile_time(n, &times, Float64 { bits: PERCENTILE_95 }),
        max_ms: times[times.len() - 1],
    }
}

/// The statistics of each of `fields`.
pub open spec fn all_stats(
    g: Arithmetic,
    logs: Seq<FrameLog>,
    fields: Seq<TimingField>,
) -> Seq<TimingStats> {
    fields.map_values(|field: TimingField| timing_stats_spec(g, logs, field))
}

/// Ranks by which the longest mean comes first.
pub open spec fn falling_ranks(stats: Seq<TimingStats>) -> Seq<i64> {
    stats.map_values(|s: TimingStats| (-1 - s.mean_ms.total_rank_spec()) as i64)
}

/// The statistics with the longest mean first, equal ones in their own order.
pub open spec fn ranked(stats: Seq<TimingStats>) -> Seq<TimingStats> {
    stable_order(falling_ranks(stats)).map_values(|i: int| stats[i])
}

/// Ranked statistics have falling means, and are as many.
pub proof fn ranking_puts_the_longest_first(stats: Seq<TimingStats>)
    ensures
        ranked(stats).len() == stats.len(),
        forall|i: int, j: int|
            0 <= i < j < stats.len() ==> (#[trigger] ranked(stats)[i]).mean_ms.total_rank_spec()
                >= (#[trigger] ranked(stats)[j]).mean_ms.total_rank_spec(),
{
    let ranks = falling_ranks(stats);
    crate::sorting::stable_order_is_sorted(ranks);
    assert forall|i: int, j: int| 0 <= i < j < stats.len() implies (#[trigger] ranked(
        stats,
    )[i]).mean_ms.total_rank_spec() >= (#[trigger] ranked(
        stats,
    )[j]).mean_ms.total_rank_spec() by {
        let (a, b) = (stable_order(ranks)[i], stable_order(ranks)[j]);
        assert(crate::sorting::precedes(ranks, a, b));
        lemma_rank_fits(stats[a].mean_ms);
        lemma_rank_fits(stats[b].mean_ms);
    }
}

/// The statistics with the longest mean first.
pub fn rank_by_mean(stats: &Vec<TimingStats>) -> (r: Vec<TimingStats>)
    ensures
        r@ == ranked(stats@),
{
    let mut ranks: Vec<i64> = Vec::new();
    let mut k: usize = 0;
    while k < stats.len()
        invariant
            k <= stats.len(),
            ranks@ == falling_ranks(stats@).take(k as int),
        decreases stats.len() - k,
    {
        let mean = stats[k].mean_ms;
        proof {
            lemma_rank_fits(mean);
        }
        ranks.push(-1 - mean.total_rank());
        k += 1;
        assert(ranks@ =~= falling_ranks(stats@).take(k as int));
    }
    assert(ranks@ =~= falling_ranks(stats@));
    let order = sort_positions(ranks.as_slice());
    let mut r: Vec<TimingStats> = Vec::new();
    let mut i: usize = 0;
    while i < order.len()
        invariant
            i <= order.len(),
            r.len() == i,
            forall|j: int| 0 <= j < order.len() ==> #[trigger] order[j] < stats.len(),
            forall|j: int| 0 <= j < i ==> #[trigger] r[j] == stats[order[j] as int],
        decreases order.len() - i,
    {
        r.push(stats[order[i]]);
        i += 1;
    }
    proof {
        assert forall|j: int| 0 <= j < r.len() implies #[trigger] r[j] == ranked(stats@)[j] by {
            assert(positions(order@)[j] == order[j] as int);
        }
        assert(r@ =~= ranked(stats@));
    }
    r
}

fn stats_of<N: Numerics>(n: &N, logs: &[FrameLog], fields: &Vec<TimingField>) -> (r: Vec<
    TimingStats,
>)
    ensures
        forall|g: Arithmetic| #[trigger] computes(*n, g) ==> r@ == all_stats(g, logs@, fields@),
{
    let mut r: Vec<TimingStats> = Vec::new();
    let mut k: usize = 0;
    while k < fields.len()
        invariant
            k <= fields.len(),
            r.len() == k,
            forall|g: Arithmetic| #[trigger]
                computes(*n, g) ==> r@ == all_stats(g, logs@, fields@).take(k as int),
        decreases fields.len() - k,
    {
        r.push(timing_stats(n, logs, fields[k]));
        proof {
            assert forall|g: Arithmetic| #[trigger] computes(*n, g) implies r@ == all_stats(
                g,
                logs@,
                fields@,
            ).take(k + 1) by {
                assert(r@ =~= all_stats(g, logs@, fields@).take(k + 1));
            }
        }
        k += 1;
    }
    proof {
        assert forall|g: Arithmetic| #[trigger] computes(*n, g) implies r@ == all_stats(
            g,
            logs@,
            fields@,
        ) by {
            assert(r@ =~= all_stats(g, logs@, fields@));
        }
    }
    r
}

/// How many hundredths of `whole` are `part`; none where `whole` is not positive.
pub open spec fn share_spec(g: Arithmetic, part: Float64, whole: Float64) -> Float64 {
    if Float64::zero_spec().lt_spec(whole) {
        (g.product64)((g.quotient64)(part, whole), Float64 { bits: F64_HUNDRED })
    } else {
        Float64::zero_spec()
    }
}

pub fn share<N: Numerics>(n: &N, part: Float64, whole: Float64) -> (r: Float64)
    ensures
        forall|g: Arithmetic| #[trigger] computes(*n, g) ==> r == share_spec(g, part, whole),
{
    if Float64::zero().lt(whole) {
        n.product64(n.quotient64(part, whole), Float64 { bits: F64_HUNDRED })
    } else {
        Float64::zero()
    }
}

/// How long frames take, with the slowest stages first.
#[derive(Debug)]
pub struct TimingSummary {
    pub frames: usize,
    pub processing: TimingStats,
    pub wall: TimingStats,
    /// The alignment, of which the parts below are shares.
    pub icp: TimingStats,
    pub stages: Vec<TimingStats>,
    pub icp_stages: Vec<TimingStats>,
}

/// Summarises the frames; there is nothing to summarise without one.
pub fn timing_summary<N: Numerics>(n: &N, logs: &[FrameLog]) -> (r: Option<TimingSummary>)
    ensures
        r is None <==> logs.len() == 0,
        r matches Some(summary) ==> summary.frames == logs.len() && forall|g: Arithmetic| #[trigger]
            computes(*n, g) ==> {
                &&& summary.processing == timing_stats_spec(g, logs@, TimingField::ProcessingTotal)
                &&& summary.wall == timing_stats_spec(g, logs@, TimingField::TotalWithFileIo)
                &&& summary.icp == timing_stats_spec(g, logs@, TimingField::Icp)
                &&& summary.stages@ == ranked(all_stats(g, logs@, stages_spec()))
                &&& summary.icp_stages@ == ranked(all_stats(g, logs@, icp_stages_spec()))
            },
{
    if logs.len() == 0 {
        return None;
    }
    Some(
        TimingSummary {
            frames: logs.len(),
            processing: timing_stats(n, logs, TimingField::ProcessingTotal),
            wall: timing_stats(n, logs, TimingField::TotalWithFileIo),
            icp: timing_stats(n, logs, TimingField::Icp),
            stages: rank_by_mean(&stats_of(n, logs, &stages())),
            icp_stages: rank_by_mean(&stats_of(n, logs, &icp_stages())),
        },
    )
}

/// Whether a frame took any time.
pub open spec fn took_time(log: FrameLog) -> bool {
    Float64::zero_spec().lt_spec(log.timing.total_with_file_io_ms)
}

/// Whether times were taken of any frame.
pub fn has_timing(logs: &[FrameLog]) -> (r: bool)
    ensures
        r == exists|i: int| 0 <= i < logs.len() && #[trigger] took_time(logs[i]),
{
    let mut k: usize = 0;
    while k < logs.len()
        invariant
            k <= logs.len(),
            forall|i: int| 0 <= i < k ==> !#[trigger] took_time(logs[i]),
        decreases logs.len() - k,
    {
        if Float64::zero().lt(logs[k].timing.total_with_file_io_ms) {
            assert(took_time(logs[k as int]));
            return true;
        }
        k += 1;
    }
    false
}

// ---------------------------------------------------------------------------
// What the summaries are
// ---------------------------------------------------------------------------

/// A field's time is the one that was set for it.
pub proof fn fields_give_the_time_that_was_set(timing: FrameTiming, t: Float64)
    ensures
        TimingField::LoadPcd.of_spec((FrameTiming { load_pcd_ms: t, ..timing })) == t,
        TimingField::Timestamps.of_spec((FrameTiming { timestamps_ms: t, ..timing })) == t,
        TimingField::ImuPredict.of_spec((FrameTiming { imu_predict_ms: t, ..timing })) == t,
        TimingField::RotationTrajectory.of_spec((FrameTiming { rotation_trajectory_ms: t, ..timing })) == t,
        TimingField::Deskew.of_spec((FrameTiming { deskew_ms: t, ..timing })) == t,
        TimingField::Downsample.of_spec((FrameTiming { downsample_ms: t, ..timing })) == t,
        TimingField::BuildSourceMaps.of_spec((FrameTiming { build_source_maps_ms: t, ..timing })) == t,
        TimingField::Icp.of_spec((FrameTiming { icp_ms: t, ..timing })) == t,
        TimingField::PoseUpdate.of_spec((FrameTiming { pose_update_ms: t, ..timing })) == t,
        TimingField::GlobalFilter.of_spec((FrameTiming { global_filter_ms: t, ..timing })) == t,
        TimingField::GlobalMapUpdate.of_spec((FrameTiming { global_map_update_ms: t, ..timing })) == t,
        TimingField::DelayedSurface.of_spec((FrameTiming { delayed_surface_ms: t, ..timing })) == t,
        TimingField::LocalMapUpdate.of_spec((FrameTiming { local_map_update_ms: t, ..timing })) == t,
        TimingField::CorrespondenceSearch.of_spec((FrameTiming { icp_correspondence_search_ms: t, ..timing })) == t,
        TimingField::LinearSystem.of_spec((FrameTiming { icp_linear_system_ms: t, ..timing })) == t,
        TimingField::Solver.of_spec((FrameTiming { icp_solver_ms: t, ..timing })) == t,
        TimingField::Other.of_spec((FrameTiming { icp_other_ms: t, ..timing })) == t,
        TimingField::ProcessingTotal.of_spec((FrameTiming { processing_total_ms: t, ..timing })) == t,
        TimingField::TotalWithFileIo.of_spec((FrameTiming { total_with_file_io_ms: t, ..timing })) == t,
{
}

/// The times of a field are the finite ones of the frames, and sorting keeps them all.
pub proof fn summaries_are_of_the_finite_times(
    logs: Seq<FrameLog>,
    field: TimingField,
    k: int,
    t: Float64,
)
    requires
        0 <= k <= logs.len(),
    ensures
        times_upto(logs, field, k).contains(t) <==> t.is_finite_spec() && exists|i: int|
            0 <= i < k && field.of_spec((#[trigger] logs[i]).timing) == t,
        times_upto(logs, field, k).len() <= k,
    decreases k,
{
    if k > 0 {
        summaries_are_of_the_finite_times(logs, field, k - 1, t);
        let before = times_upto(logs, field, k - 1);
        let now = times_upto(logs, field, k);
        let time = field.of_spec(logs[k - 1].timing);
        if time.is_finite_spec() {
            assert(now == before.push(time));
            assert(now[now.len() - 1] == time);
            if before.contains(t) {
                let j = before.index_of(t);
                assert(now[j] == t);
            }
            if now.contains(t) && t != time {
                let j = now.index_of(t);
                assert(before[j] == t);
            }
        }
    }
}

/// The mean of times, times their number, is their total, to which each time adds itself.
pub proof fn means_are_totals_over_numbers(g: Arithmetic, times: Seq<Float64>, k: int)
    requires
        0 <= k < times.len() <= u64::MAX,
        forall|a: Float64, b: Float64| #[trigger] (g.product64)((g.quotient64)(a, b), b) == a,
    ensures
        (g.product64)(mean_of(g, times), (g.from_count64)(times.len() as u64)) == total_upto(
            g,
            times,
            times.len() as int,
        ),
        total_upto(g, times, k + 1) == (g.sum64)(total_upto(g, times, k), times[k]),
        total_upto(g, times, 0) == Float64::zero_spec(),
{
}

/// A percentile is one of the times: the one at the place, counted from one, that is the
/// share of their number, rounded up, where there is such a place.
pub proof fn percentiles_are_at_their_share(g: Arithmetic, len: int, percentile: Float64)
    requires
        0 < len <= u64::MAX,
    ensures
        ({
            let place = (g.to_u64)(
                (g.ceil64)((g.product64)((g.from_count64)(len as u64), percentile)),
            );
            &&& 0 <= percentile_index(g, len, percentile) < len
            &&& 1 <= place <= len ==> percentile_index(g, len, percentile) + 1 == place
            &&& place > len ==> percentile_index(g, len, percentile) == len - 1
            &&& place == 0 ==> percentile_index(g, len, percentile) == 0
        }),
{
}

/// The summary of a field holds the mean and the time below which ninety-five of a
/// hundred are, as charts show them, and the longest time, which no time is above.
pub proof fn summaries_hold_the_longest_time(
    g: Arithmetic,
    logs: Seq<FrameLog>,
    field: TimingField,
    i: int,
)
    requires
        0 <= i < sorted_times(logs, field).len() <= u64::MAX,
    ensures
        ({
            let stats = timing_stats_spec(g, logs, field);
            let times = sorted_times(logs, field);
            &&& stats.field == field
            &&& (stats.mean_ms, stats.p95_ms) == mean_and_percentile_spec(
                g,
                logs,
                field,
                Float64 { bits: 0x3fee_6666_6666_6666 },
            )
            &&& times[i].total_rank_spec() <= stats.max_ms.total_rank_spec()
            &&& times.contains(stats.max_ms)
            &&& times.contains(stats.p95_ms)
            &&& stats.mean_ms == mean_of(g, times)
        }),
{
    sorted_times_increase(logs, field);
    let times = sorted_times(logs, field);
    percentiles_are_at_their_share(
        g,
        times.len() as int,
        Float64 { bits: 0x3fee_6666_6666_6666 },
    );
    let last = times.len() - 1;
    if i < last {
        assert(times[i].total_rank_spec() <= times[last].total_rank_spec());
    }
    assert(times.contains(times[last]));
}

/// A share of a whole, of a hundred parts, is the part again; of no time there is none.
pub proof fn shares_are_of_a_hundred(g: Arithmetic, part: Float64, whole: Float64)
    requires
        forall|a: Float64, b: Float64| #[trigger] (g.product64)((g.quotient64)(a, b), b) == a,
        forall|a: Float64, b: Float64| #[trigger] (g.quotient64)((g.product64)(a, b), b) == a,
    ensures
        (Float64::zero_spec()).lt_spec(whole) ==> (g.product64)(
            (g.quotient64)(share_spec(g, part, whole), Float64 { bits: 0x4059_0000_0000_0000 }),
            whole,
        ) == part,
        !(Float64::zero_spec()).lt_spec(whole) ==> share_spec(g, part, whole)
            == Float64::zero_spec(),
{
}

/// The stages of a frame are told apart, and so are the parts of the alignment, and none
/// is both.
pub proof fn stages_are_all_different(i: int, j: int, k: int)
    requires
        0 <= i < j < stages_spec().len(),
        0 <= k < icp_stages_spec().len(),
    ensures
        stages_spec()[i] != stages_spec()[j],
        stages_spec()[j] != icp_stages_spec()[k],
        stages_spec().len() == 13 && icp_stages_spec().len() == 4,
{
}

/// Without a finite time every number of a summary but the mean is zero, and so are both
/// numbers of a bar; the mean is nothing, divided by one.
pub proof fn summaries_of_nothing_are_zero(
    g: Arithmetic,
    logs: Seq<FrameLog>,
    field: TimingField,
    percentile: Float64,
)
    requires
        sorted_times(logs, field).len() == 0,
    ensures
        ({
            let zero = Float64 { bits: 0 };
            let stats = timing_stats_spec(g, logs, field);
            &&& mean_and_percentile_spec(g, logs, field, percentile) == (zero, zero)
            &&& stats.p95_ms == zero && stats.max_ms == zero
            &&& stats.mean_ms == (g.quotient64)(zero, (g.from_count64)(1))
        }),
{
}

} // verus!
