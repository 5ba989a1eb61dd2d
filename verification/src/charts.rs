//! The series and the ranges of charts over frames.

use vstd::prelude::*;

use crate::float::{Float32, Float64, F32_INFINITY, F32_ONE, F64_INFINITY, F64_ONE};
use crate::numerics::{computes, Arithmetic, Numerics};
use crate::timing::{mean_and_percentile, mean_and_percentile_spec, TimingField, PERCENTILE_95};
use crate::types::FrameLog;

verus! {

/// The room, 1.08, above a line.
pub const LINE_ROOM: u32 = 0x3f8a_3d71;

/// The room, 1.12, above bars.
pub const BAR_ROOM: u32 = 0x3f8f_5c29;

/// The share, 0.05, of a range that is left free at its ends.
pub const MARGIN: u32 = 0x3d4c_cccd;

/// The share, 0.05, of a range that is left free at its ends.
pub const MARGIN64: u64 = 0x3fa9_9999_9999_999a;

/// The least range, 1e-6, of a chart.
pub const MIN_RANGE: u32 = 0x3586_37bd;

/// A number and its place on a chart.
pub type Sample = (Float32, Float32);

/// What is drawn of each frame.
#[derive(Clone, Copy, Debug, PartialEq, Eq, Structural)]
pub enum Metric {
    /// The last error of the alignment, where there is one.
    Rmse,
    /// The distance that the frame moved.
    Translation,
    /// The angle that the frame turned.
    Rotation,
    Velocity,
    /// A time.
    Time(TimingField),
}

/// The value of `metric` for a frame.
pub open spec fn metric_value(g: Arithmetic, log: FrameLog, metric: Metric) -> Option<Float32> {
    match metric {
        Metric::Rmse => log.rmse,
        Metric::Translation => Some((g.narrow)(log.translation_m)),
        Metric::Rotation => Some((g.narrow)(log.rotation_deg)),
        Metric::Velocity => Some((g.narrow)(log.velocity_m_s)),
        Metric::Time(field) => Some((g.narrow)(field.of_spec(log.timing))),
    }
}

/// The samples of the first `k` frames.
pub open spec fn series_upto(
    g: Arithmetic,
    logs: Seq<FrameLog>,
    metric: Metric,
    k: int,
) -> Seq<Sample>
    decreases k,
{
    if k <= 0 {
        Seq::empty()
    } else {
        let before = series_upto(g, logs, metric, k - 1);
        match metric_value(g, logs[k - 1], metric) {
            Some(value) => before.push(
                ((g.from_count)(logs[k - 1].frame_index as u64), value),
            ),
            None => before,
        }
    }
}

pub open spec fn series_spec(g: Arithmetic, logs: Seq<FrameLog>, metric: Metric) -> Seq<Sample> {
    series_upto(g, logs, metric, logs.len() as int)
}

/// The samples of a metric over the frames.
pub fn series<N: Numerics>(n: &N, logs: &[FrameLog], metric: Metric) -> (r: Vec<Sample>)
    ensures
        forall|g: Arithmetic| #[trigger] computes(*n, g) ==> r@ == series_spec(g, logs@, metric),
{
    let mut r: Vec<Sample> = Vec::new();
    let mut k: usize = 0;
    while k < logs.len()
        invariant
            k <= logs.len(),
            forall|g: Arithmetic| #[trigger]
                computes(*n, g) ==> r@ == series_upto(g, logs@, metric, k as int),
        decreases logs.len() - k,
    {
        let log = logs[k];
        let value: Option<Float32> = match metric {
            Metric::Rmse => log.rmse,
            Metric::Translation => Some(n.narrow(log.translation_m)),
            Metric::Rotation => Some(n.narrow(log.rotation_deg)),
            Metric::Velocity => Some(n.narrow(log.velocity_m_s)),
            Metric::Time(field) => Some(n.narrow(field.of(&log.timing))),
        };
        if let Some(value) = value {
            let place = n.from_count(log.frame_index as u64);
            r.push((place, value));
        }
        k += 1;
    }
    r
}

/// The largest value of the first `k` samples, and of `start`.
pub open spec fn highest_upto(data: Seq<Sample>, start: Float32, k: int) -> Float32
    decreases k,
{
    if k <= 0 {
        start
    } else {
        highest_upto(data, start, k - 1).max_spec(data[k - 1].1)
    }
}

/// The smallest value of the first `k` samples, and of `start`.
pub open spec fn lowest_upto(data: Seq<Sample>, start: Float32, k: int) -> Float32
    decreases k,
{
    if k <= 0 {
        start
    } else {
        lowest_upto(data, start, k - 1).min_spec(data[k - 1].1)
    }
}

fn highest(data: &Vec<Sample>, start: Float32) -> (r: Float32)
    ensures
        r == highest_upto(data@, start, data.len() as int),
{
    let mut r = start;
    let mut k: usize = 0;
    while k < data.len()
        invariant
            k <= data.len(),
            r == highest_upto(data@, start, k as int),
        decreases data.len() - k,
    {
        r = r.max(data[k].1);
        k += 1;
    }
    r
}

fn lowest(data: &Vec<Sample>, start: Float32) -> (r: Float32)
    ensures
        r == lowest_upto(data@, start, data.len() as int),
{
    let mut r = start;
    let mut k: usize = 0;
    while k < data.len()
        invariant
            k <= data.len(),
            r == lowest_upto(data@, start, k as int),
        decreases data.len() - k,
    {
        r = r.min(data[k].1);
        k += 1;
    }
    r
}

/// The range of values of a line chart: some room around the samples, and down to zero at
/// least.
pub open spec fn line_range_spec(g: Arithmetic, data: Seq<Sample>) -> (Float32, Float32) {
    let infinity = Float32 { bits: F32_INFINITY };
    let top = highest_upto(data, infinity.neg_spec(), data.len() as int);
    let bottom = lowest_upto(data, infinity, data.len() as int);
    let range = (g.difference)(top, bottom).max_spec(Float32 { bits: MIN_RANGE });
    let room = (g.product)(range, Float32 { bits: MARGIN });
    ((g.difference)(bottom, room).min_spec(Float32::zero_spec()), (g.sum)(top, room))
}

/// The range of a line chart; there is none without a sample.
pub fn line_range<N: Numerics>(n: &N, data: &Vec<Sample>) -> (r: Option<(Float32, Float32)>)
    ensures
        r is None <==> data.len() == 0,
        r matches Some(range) ==> forall|g: Arithmetic| #[trigger]
            computes(*n, g) ==> range == line_range_spec(g, data@),
{
    if data.len() == 0 {
        return None;
    }
    let infinity = Float32 { bits: F32_INFINITY };
    let top = highest(data, infinity.neg());
    let bottom = lowest(data, infinity);
    let range = n.difference(top, bottom).max(Float32 { bits: MIN_RANGE });
    let room = n.product(range, Float32 { bits: MARGIN });
    Some((n.difference(bottom, room).min(Float32::zero()), n.sum(top, room)))
}

/// The top of a chart of two lines that are not below zero.
pub open spec fn lines_top_spec(g: Arithmetic, a: Seq<Sample>, b: Seq<Sample>) -> Float32 {
    let first = highest_upto(a, Float32::zero_spec(), a.len() as int);
    let both = highest_upto(b, first, b.len() as int).max_spec(Float32 { bits: F32_ONE });
    (g.product)(both, Float32 { bits: LINE_ROOM })
}

pub fn lines_top<N: Numerics>(n: &N, a: &Vec<Sample>, b: &Vec<Sample>) -> (r: Float32)
    ensures
        forall|g: Arithmetic| #[trigger] computes(*n, g) ==> r == lines_top_spec(g, a@, b@),
{
    let both = highest(b, highest(a, Float32::zero())).max(Float32 { bits: F32_ONE });
    n.product(both, Float32 { bits: LINE_ROOM })
}

/// From the first frame to the last, and at least one frame on.
pub open spec fn frame_range_spec(g: Arithmetic, logs: Seq<FrameLog>) -> (Float32, Float32) {
    let one = Float32 { bits: F32_ONE };
    let start = if logs.len() == 0 {
        Float32::zero_spec()
    } else {
        (g.from_count)(logs.first().frame_index as u64)
    };
    let end = if logs.len() == 0 {
        one
    } else {
        (g.from_count)(logs.last().frame_index as u64)
    };
    (
        start,
        if end.le_spec(start) {
            (g.sum)(start, one)
        } else {
            end
        },
    )
}

pub fn frame_range<N: Numerics>(n: &N, logs: &[FrameLog]) -> (r: (Float32, Float32))
    ensures
        forall|g: Arithmetic| #[trigger] computes(*n, g) ==> r == frame_range_spec(g, logs@),
{
    let one = Float32 { bits: F32_ONE };
    if logs.len() == 0 {
        return (Float32::zero(), one);
    }
    let start = n.from_count(logs[0].frame_index as u64);
    let end = n.from_count(logs[logs.len() - 1].frame_index as u64);
    if end.le(start) {
        (start, n.sum(start, one))
    } else {
        (start, end)
    }
}

// ---------------------------------------------------------------------------
// Bars
// ---------------------------------------------------------------------------

/// The mean and the 95th percentile of each of `fields`.
pub open spec fn bars_spec(
    g: Arithmetic,
    logs: Seq<FrameLog>,
    fields: Seq<TimingField>,
) -> Seq<(Float64, Float64)> {
    fields.map_values(
        |field: TimingField|
            mean_and_percentile_spec(g, logs, field, Float64 { bits: PERCENTILE_95 }),
    )
}

pub fn bars<N: Numerics>(n: &N, logs: &[FrameLog], fields: &Vec<TimingField>) -> (r: Vec<
    (Float64, Float64),
>)
    ensures
        r.len() == fields.len(),
        forall|g: Arithmetic| #[trigger] computes(*n, g) ==> r@ == bars_spec(g, logs@, fields@),
{
    let mut r: Vec<(Float64, Float64)> = Vec::new();
    let mut k: usize = 0;
    while k < fields.len()
        invariant
            k <= fields.len(),
            r.len() == k,
            forall|g: Arithmetic| #[trigger]
                computes(*n, g) ==> r@ == bars_spec(g, logs@, fields@).take(k as int),
        decreases fields.len() - k,
    {
        r.push(mean_and_percentile(n, logs, fields[k], Float64 { bits: PERCENTILE_95 }));
        proof {
            assert forall|g: Arithmetic| #[trigger] computes(*n, g) implies r@ == bars_spec(
                g,
                logs@,
                fields@,
            ).take(k + 1) by {
                assert(r@ =~= bars_spec(g, logs@, fields@).take(k + 1));
            }
        }
        k += 1;
    }
    proof {
        assert forall|g: Arithmetic| #[trigger] computes(*n, g) implies r@ == bars_spec(
            g,
            logs@,
            fields@,
        ) by {
            assert(r@ =~= bars_spec(g, logs@, fields@));
        }
    }
    r
}

/// The largest of the first `k` means and percentiles, and of zero.
pub open spec fn tallest_upto(bars: Seq<(Float64, Float64)>, k: int) -> Float64
    decreases k,
{
    if k <= 0 {
        Float64::zero_spec()
    } else {
        tallest_upto(bars, k - 1).max_spec(bars[k - 1].0).max_spec(bars[k - 1].1)
    }
}

/// The top of a chart of bars.
pub open spec fn bars_top_spec(g: Arithmetic, bars: Seq<(Float64, Float64)>) -> Float32 {
    let tallest = tallest_upto(bars, bars.len() as int).max_spec(Float64 { bits: F64_ONE });
    (g.product)((g.narrow)(tallest), Float32 { bits: BAR_ROOM })
}

pub fn bars_top<N: Numerics>(n: &N, bars: &Vec<(Float64, Float64)>) -> (r: Float32)
    ensures
        forall|g: Arithmetic| #[trigger] computes(*n, g) ==> r == bars_top_spec(g, bars@),
{
    let mut tallest = Float64::zero();
    let mut k: usize = 0;
    while k < bars.len()
        invariant
            k <= bars.len(),
            tallest == tallest_upto(bars@, k as int),
        decreases bars.len() - k,
    {
        tallest = tallest.max(bars[k].0).max(bars[k].1);
        k += 1;
    }
    n.product(n.narrow(tallest.max(Float64 { bits: F64_ONE })), Float32 { bits: BAR_ROOM })
}

/// The label at `place`: that of the field there, and none beside the fields.
pub fn bar_label(fields: &Vec<TimingField>, place: i64) -> (r: &'static str)
    ensures
        r@ == if 0 <= place < fields.len() {
            fields[place as int].label_spec()
        } else {
            ""@
        },
{
    if place >= 0 && (place as u64) < fields.len() as u64 {
        fields[place as usize].label()
    } else {
        ""
    }
}

// ---------------------------------------------------------------------------
// The trajectory
// ---------------------------------------------------------------------------

/// Where the frames are seen from above, and the range that they are drawn in.
#[derive(Debug)]
pub struct Trajectory {
    pub points: Vec<Sample>,
    pub x_range: (Float32, Float32),
    pub y_range: (Float32, Float32),
}

/// The least and the largest position of the first `k` frames along an axis.
pub open spec fn extent_upto(logs: Seq<FrameLog>, along_x: bool, k: int) -> (Float64, Float64)
    decreases k,
{
    if k <= 0 {
        let infinity = Float64 { bits: F64_INFINITY };
        (infinity, infinity.neg_spec())
    } else {
        let (low, high) = extent_upto(logs, along_x, k - 1);
        let value = if along_x { logs[k - 1].pose_x } else { logs[k - 1].pose_y };
        (low.min_spec(value), high.max_spec(value))
    }
}

/// The positions of the frames.
pub open spec fn places(g: Arithmetic, logs: Seq<FrameLog>) -> Seq<Sample> {
    logs.map_values(|log: FrameLog| ((g.narrow)(log.pose_x), (g.narrow)(log.pose_y)))
}

/// A range, widened by `room` at both ends.
pub open spec fn widened(g: Arithmetic, range: (Float64, Float64), room: Float64) -> Sample {
    (
        (g.narrow)((g.difference64)(range.0, room)),
        (g.narrow)((g.sum64)(range.1, room)),
    )
}

/// The room around a trajectory: a share of the longer side, and at least one metre.
pub open spec fn trajectory_room(
    g: Arithmetic,
    x: (Float64, Float64),
    y: (Float64, Float64),
) -> Float64 {
    let side = (g.difference64)(x.1, x.0).max_spec((g.difference64)(y.1, y.0));
    (g.product64)(side, Float64 { bits: MARGIN64 }).max_spec(Float64 { bits: F64_ONE })
}

pub fn trajectory<N: Numerics>(n: &N, logs: &[FrameLog]) -> (r: Trajectory)
    ensures
        r.points.len() == logs.len(),
        forall|g: Arithmetic| #[trigger]
            computes(*n, g) ==> {
                let x = extent_upto(logs@, true, logs.len() as int);
                let y = extent_upto(logs@, false, logs.len() as int);
                let room = trajectory_room(g, x, y);
                &&& r.points@ == places(g, logs@)
                &&& r.x_range == widened(g, x, room)
                &&& r.y_range == widened(g, y, room)
            },
{
    let infinity = Float64 { bits: F64_INFINITY };
    let mut points: Vec<Sample> = Vec::new();
    let mut x = (infinity, infinity.neg());
    let mut y = (infinity, infinity.neg());
    let mut k: usize = 0;
    while k < logs.len()
        invariant
            k <= logs.len(),
            points.len() == k,
            x == extent_upto(logs@, true, k as int),
            y == extent_upto(logs@, false, k as int),
            forall|g: Arithmetic| #[trigger]
                computes(*n, g) ==> points@ == places(g, logs@).take(k as int),
        decreases logs.len() - k,
    {
        let (px, py) = (logs[k].pose_x, logs[k].pose_y);
        x = (x.0.min(px), x.1.max(px));
        y = (y.0.min(py), y.1.max(py));
        points.push((n.narrow(px), n.narrow(py)));
        proof {
            assert forall|g: Arithmetic| #[trigger] computes(*n, g) implies points@ == places(
                g,
                logs@,
            ).take(k + 1) by {
                assert(points@ =~= places(g, logs@).take(k + 1));
            }
        }
        k += 1;
    }
    proof {
        assert forall|g: Arithmetic| #[trigger] computes(*n, g) implies points@ == places(
            g,
            logs@,
        ) by {
            assert(points@ =~= places(g, logs@));
        }
    }
    let side = n.difference64(x.1, x.0).max(n.difference64(y.1, y.0));
    let room = n.product64(side, Float64 { bits: MARGIN64 }).max(Float64 { bits: F64_ONE });
    Trajectory {
        points,
        x_range: (n.narrow(n.difference64(x.0, room)), n.narrow(n.sum64(x.1, room))),
        y_range: (n.narrow(n.difference64(y.0, room)), n.narrow(n.sum64(y.1, room))),
    }
}

// ---------------------------------------------------------------------------
// What charts show
// ---------------------------------------------------------------------------

/// A series holds, for each frame that has the metric, its number and its value, in the
/// order of the frames, and nothing else.
pub proof fn series_hold_the_values_of_frames(
    g: Arithmetic,
    logs: Seq<FrameLog>,
    metric: Metric,
    k: int,
    s: Sample,
)
    requires
        0 <= k <= logs.len(),
    ensures
        series_upto(g, logs, metric, k).contains(s) <==> exists|i: int|
            0 <= i < k && metric_value(g, #[trigger] logs[i], metric) == Some(s.1) && s.0 == (
            g.from_count)(logs[i].frame_index as u64),
    decreases k,
{
    if k > 0 {
        series_hold_the_values_of_frames(g, logs, metric, k - 1, s);
        let before = series_upto(g, logs, metric, k - 1);
        let now = series_upto(g, logs, metric, k);
        if let Some(value) = metric_value(g, logs[k - 1], metric) {
            let last: Sample = ((g.from_count)(logs[k - 1].frame_index as u64), value);
            assert(now == before.push(last));
            assert(now[now.len() - 1] == last);
            if before.contains(s) {
                let j = before.index_of(s);
                assert(now[j] == s);
            }
            if now.contains(s) && s != last {
                let j = now.index_of(s);
                assert(before[j] == s);
            }
        }
    }
}

/// Each metric shows its own number of the log.
pub proof fn metrics_show_their_own_numbers(g: Arithmetic, log: FrameLog, field: TimingField)
    ensures
        metric_value(g, log, Metric::Rmse) == log.rmse,
        metric_value(g, log, Metric::Translation) == Some((g.narrow)(log.translation_m)),
        metric_value(g, log, Metric::Rotation) == Some((g.narrow)(log.rotation_deg)),
        metric_value(g, log, Metric::Velocity) == Some((g.narrow)(log.velocity_m_s)),
        metric_value(g, log, Metric::Time(field)) == Some((g.narrow)(field.of_spec(log.timing))),
{
}

proof fn lemma_extremes(data: Seq<Sample>, start: Float32, k: int, i: int)
    requires
        0 <= k <= data.len(),
        !start.is_nan_spec(),
    ensures
        !highest_upto(data, start, k).is_nan_spec(),
        !lowest_upto(data, start, k).is_nan_spec(),
        start.le_spec(highest_upto(data, start, k)),
        lowest_upto(data, start, k).le_spec(start),
        0 <= i < k && !data[i].1.is_nan_spec() ==> data[i].1.le_spec(highest_upto(data, start, k))
            && lowest_upto(data, start, k).le_spec(data[i].1),
        highest_upto(data, start, k) == start || exists|j: int|
            0 <= j < k && (#[trigger] data[j]).1 == highest_upto(data, start, k),
        lowest_upto(data, start, k) == start || exists|j: int|
            0 <= j < k && (#[trigger] data[j]).1 == lowest_upto(data, start, k),
    decreases k,
{
    if k > 0 {
        lemma_extremes(data, start, k - 1, i);
        let (high, low) = (highest_upto(data, start, k - 1), lowest_upto(data, start, k - 1));
        if highest_upto(data, start, k) == data[k - 1].1 {
            assert(data[k - 1].1 == highest_upto(data, start, k));
        } else if high != start {
            let j = choose|j: int| 0 <= j < k - 1 && (#[trigger] data[j]).1 == high;
            assert(data[j].1 == highest_upto(data, start, k));
        }
        if lowest_upto(data, start, k) == data[k - 1].1 {
            assert(data[k - 1].1 == lowest_upto(data, start, k));
        } else if low != start {
            let j = choose|j: int| 0 <= j < k - 1 && (#[trigger] data[j]).1 == low;
            assert(data[j].1 == lowest_upto(data, start, k));
        }
    }
}

/// The highest and the lowest value of a series bound every one, and are the bound that
/// they begin at or one of the values.
pub proof fn extremes_bound_every_value(data: Seq<Sample>, start: Float32, k: int, i: int)
    requires
        0 <= i < k <= data.len(),
        !start.is_nan_spec(),
        !data[i].1.is_nan_spec(),
    ensures
        data[i].1.le_spec(highest_upto(data, start, k)),
        lowest_upto(data, start, k).le_spec(data[i].1),
        start.le_spec(highest_upto(data, start, k)),
        lowest_upto(data, start, k).le_spec(start),
        highest_upto(data, start, k) == start || exists|j: int|
            0 <= j < k && (#[trigger] data[j]).1 == highest_upto(data, start, k),
        lowest_upto(data, start, k) == start || exists|j: int|
            0 <= j < k && (#[trigger] data[j]).1 == lowest_upto(data, start, k),
{
    lemma_extremes(data, start, k, i);
}

/// The range of a line holds zero or less at its lower end, and every value of the line,
/// where the room above and below is not negative.
pub proof fn line_ranges_hold_every_value(g: Arithmetic, data: Seq<Sample>, i: int)
    requires
        0 <= i < data.len(),
        !data[i].1.is_nan_spec(),
        ({
            let infinity = Float32 { bits: 0x7f80_0000 };
            let top = highest_upto(data, infinity.neg_spec(), data.len() as int);
            let bottom = lowest_upto(data, infinity, data.len() as int);
            let range = (g.difference)(top, bottom).max_spec(Float32 { bits: 0x3586_37bd });
            let room = (g.product)(range, Float32 { bits: 0x3d4c_cccd });
            &&& (g.difference)(bottom, room).le_spec(bottom)
            &&& top.le_spec((g.sum)(top, room))
        }),
    ensures
        line_range_spec(g, data).0.le_spec(data[i].1),
        data[i].1.le_spec(line_range_spec(g, data).1),
        line_range_spec(g, data).0.le_spec(Float32::zero_spec()),
{
    let infinity = Float32 { bits: F32_INFINITY };
    lemma_extremes(data, infinity.neg_spec(), data.len() as int, i);
    lemma_extremes(data, infinity, data.len() as int, i);
}

/// The top of a chart of two lines is above each value of both, and at least the room
/// above one, where a number with the room above it is not below it.
pub proof fn lines_stay_below_their_top(
    g: Arithmetic,
    a: Seq<Sample>,
    b: Seq<Sample>,
    i: int,
    j: int,
)
    requires
        0 <= i < a.len(),
        0 <= j < b.len(),
        !a[i].1.is_nan_spec(),
        !b[j].1.is_nan_spec(),
        forall|x: Float32|
            (Float32 { bits: 0x3f80_0000 }).le_spec(x) ==> x.le_spec(
                #[trigger] (g.product)(x, Float32 { bits: 0x3f8a_3d71 }),
            ),
    ensures
        a[i].1.le_spec(lines_top_spec(g, a, b)),
        b[j].1.le_spec(lines_top_spec(g, a, b)),
        (Float32 { bits: 0x3f80_0000 }).le_spec(lines_top_spec(g, a, b)),
{
    let first = highest_upto(a, Float32::zero_spec(), a.len() as int);
    lemma_extremes(a, Float32::zero_spec(), a.len() as int, i);
    lemma_extremes(b, first, b.len() as int, j);
}

/// The range of frames begins at the number of the first frame, is never empty where a
/// number is below its successor, and ends at that of the last where this is larger.
pub proof fn frame_ranges_go_from_first_to_last(g: Arithmetic, logs: Seq<FrameLog>)
    requires
        logs.len() > 0,
    ensures
        ({
            let first = (g.from_count)(logs[0].frame_index as u64);
            let last = (g.from_count)(logs[logs.len() - 1].frame_index as u64);
            let (start, end) = frame_range_spec(g, logs);
            let one = Float32 { bits: 0x3f80_0000 };
            &&& start == first
            &&& first.lt_spec(last) ==> end == last
            &&& last.le_spec(first) ==> end == (g.sum)(first, one)
            &&& !first.is_nan_spec() && !last.is_nan_spec() && first.lt_spec((g.sum)(first, one))
                ==> start.lt_spec(end)
        }),
{
}

proof fn lemma_tallest(bars: Seq<(Float64, Float64)>, k: int, i: int)
    requires
        0 <= k <= bars.len(),
    ensures
        !tallest_upto(bars, k).is_nan_spec(),
        0 <= i < k && !bars[i].0.is_nan_spec() ==> bars[i].0.le_spec(tallest_upto(bars, k)),
        0 <= i < k && !bars[i].1.is_nan_spec() ==> bars[i].1.le_spec(tallest_upto(bars, k)),
        tallest_upto(bars, k) == Float64::zero_spec() || exists|j: int|
            0 <= j < k && ((#[trigger] bars[j]).0 == tallest_upto(bars, k) || bars[j].1
                == tallest_upto(bars, k)),
    decreases k,
{
    if k > 0 {
        lemma_tallest(bars, k - 1, i);
        let before = tallest_upto(bars, k - 1);
        let now = tallest_upto(bars, k);
        if now == bars[k - 1].0 || now == bars[k - 1].1 {
            assert(bars[k - 1].0 == now || bars[k - 1].1 == now);
        } else if before != Float64::zero_spec() {
            let j = choose|j: int|
                0 <= j < k - 1 && ((#[trigger] bars[j]).0 == before || bars[j].1 == before);
            assert(bars[j].0 == now || bars[j].1 == now);
        }
    }
}

/// The tallest bar bounds the mean and the percentile of each, and is zero or one of them.
pub proof fn the_tallest_bar_is_above_all(bars: Seq<(Float64, Float64)>, k: int, i: int)
    requires
        0 <= i < k <= bars.len(),
        !bars[i].0.is_nan_spec(),
        !bars[i].1.is_nan_spec(),
    ensures
        bars[i].0.le_spec(tallest_upto(bars, k)),
        bars[i].1.le_spec(tallest_upto(bars, k)),
        tallest_upto(bars, k) == Float64::zero_spec() || exists|j: int|
            0 <= j < k && ((#[trigger] bars[j]).0 == tallest_upto(bars, k) || bars[j].1
                == tallest_upto(bars, k)),
{
    lemma_tallest(bars, k, i);
}

/// Charts of bars reach above the tallest bar, with an eighth or so of room, and above
/// one.
pub proof fn bars_stay_below_their_top(g: Arithmetic, bars: Seq<(Float64, Float64)>, i: int)
    requires
        0 <= i < bars.len(),
        !bars[i].0.is_nan_spec(),
        forall|a: Float64, b: Float64|
            a.le_spec(b) ==> (#[trigger] (g.narrow)(a)).le_spec(#[trigger] (g.narrow)(b)),
        ({
            let one = Float64 { bits: 0x3ff0_0000_0000_0000 };
            let tallest = (g.narrow)(tallest_upto(bars, bars.len() as int).max_spec(one));
            tallest.le_spec((g.product)(tallest, Float32 { bits: 0x3f8f_5c29 }))
        }),
    ensures
        (g.narrow)(bars[i].0).le_spec(bars_top_spec(g, bars)),
        (g.narrow)(Float64 { bits: 0x3ff0_0000_0000_0000 }).le_spec(bars_top_spec(g, bars)),
{
    lemma_tallest(bars, bars.len() as int, i);
    let one = Float64 { bits: F64_ONE };
    let tallest = tallest_upto(bars, bars.len() as int).max_spec(one);
    assert(bars[i].0.le_spec(tallest));
    assert((g.narrow)(bars[i].0).le_spec((g.narrow)(tallest)));
    assert(one.le_spec(tallest));
    assert((g.narrow)(one).le_spec((g.narrow)(tallest)));
}

proof fn lemma_extent(logs: Seq<FrameLog>, along_x: bool, k: int, i: int)
    requires
        0 <= i < k <= logs.len(),
        forall|j: int|
            0 <= j < k ==> (#[trigger] logs[j]).pose_x.is_finite_spec()
                && logs[j].pose_y.is_finite_spec(),
    ensures
        ({
            let (low, high) = extent_upto(logs, along_x, k);
            let value = if along_x { logs[i].pose_x } else { logs[i].pose_y };
            low.le_spec(value) && value.le_spec(high)
        }),
    decreases k,
{
    assert(logs[k - 1].pose_x.is_finite_spec());
    assert(extent_upto(logs, along_x, 0) == (
        Float64::infinity_spec(),
        Float64::infinity_spec().neg_spec(),
    ));
    if k > 1 {
        lemma_extent(
            logs,
            along_x,
            k - 1,
            if i < k - 1 {
                i
            } else {
                0
            },
        );
    }
}

/// The extent of a path bounds each place on it, along each axis by its own coordinate.
pub proof fn extents_bound_every_place(logs: Seq<FrameLog>, i: int)
    requires
        0 <= i < logs.len(),
        forall|j: int|
            0 <= j < logs.len() ==> (#[trigger] logs[j]).pose_x.is_finite_spec()
                && logs[j].pose_y.is_finite_spec(),
    ensures
        extent_upto(logs, true, logs.len() as int).0.le_spec(logs[i].pose_x),
        logs[i].pose_x.le_spec(extent_upto(logs, true, logs.len() as int).1),
        extent_upto(logs, false, logs.len() as int).0.le_spec(logs[i].pose_y),
        logs[i].pose_y.le_spec(extent_upto(logs, false, logs.len() as int).1),
{
    lemma_extent(logs, true, logs.len() as int, i);
    lemma_extent(logs, false, logs.len() as int, i);
}

/// A path is drawn at the places of its frames, inside ranges with at least a meter of
/// room on each side, where less room is a smaller number and widening keeps the order.
pub proof fn paths_are_drawn_with_room(
    g: Arithmetic,
    logs: Seq<FrameLog>,
    x: (Float64, Float64),
    y: (Float64, Float64),
    i: int,
)
    requires
        0 <= i < logs.len(),
        !(g.product64)(
            (g.difference64)(x.1, x.0).max_spec((g.difference64)(y.1, y.0)),
            Float64 { bits: 0x3fa9_9999_9999_999a },
        ).is_nan_spec(),
    ensures
        places(g, logs)[i] == ((g.narrow)(logs[i].pose_x), (g.narrow)(logs[i].pose_y)),
        places(g, logs).len() == logs.len(),
        (Float64 { bits: 0x3ff0_0000_0000_0000 }).le_spec(trajectory_room(g, x, y)),
        (g.product64)(
            (g.difference64)(x.1, x.0).max_spec((g.difference64)(y.1, y.0)),
            Float64 { bits: 0x3fa9_9999_9999_999a },
        ).le_spec(trajectory_room(g, x, y)),
        ({
            let room = trajectory_room(g, x, y);
            &&& widened(g, x, room).0 == (g.narrow)((g.difference64)(x.0, room))
            &&& widened(g, x, room).1 == (g.narrow)((g.sum64)(x.1, room))
        }),
{
}

/// Without frames the range of frames goes from zero to one.
pub proof fn no_frames_are_shown_from_zero_to_one(g: Arithmetic)
    ensures
        frame_range_spec(g, Seq::empty()) == (
            (Float32 { bits: 0 }),
            (Float32 { bits: 0x3f80_0000 }),
        ),
{
}

} // verus!
