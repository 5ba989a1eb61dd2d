//! The motion of the sensor between two frames, from its inertial samples.

use vstd::prelude::*;

use crate::float::{Float32, Float64, F64_HALF, F64_ONE};
use crate::numerics::{computes, Arithmetic, Numerics, Point3d, Pose64, Quaternion};
use crate::types::{LoadIMU, IMU};

verus! {

/// The bit pattern of the number of nanoseconds in a second.
pub const NANOSECONDS: u64 = 0x41cd_cd65_0000_0000;

/// The bit pattern of the acceleration of gravity, in metres per square second.
pub const GRAVITY: u64 = 0x4023_9d01_3a92_a305;

/// The bit pattern of 1e-9: shorter times and smaller angles count for nothing.
pub const TINY: u64 = 0x3e11_2e0b_e826_d695;

// ---------------------------------------------------------------------------
// Samples
// ---------------------------------------------------------------------------

/// A predicted motion.
#[derive(Clone, Copy, Debug, PartialEq, Eq, Structural)]
pub struct PosePrediction {
    pub position: Point3d,
    pub velocity: Point3d,
    pub delta_transform: Pose64,
    /// The rotation that the inertial sensor measured.
    pub delta_rotation: Quaternion,
}

/// A sample with its time in seconds.
pub open spec fn in_seconds(g: Arithmetic, sample: LoadIMU) -> IMU {
    IMU {
        timestamp: (g.quotient64)(
            (g.from_count64)(sample.timestamp),
            Float64 { bits: NANOSECONDS },
        ),
        angular_velocity: sample.angular_velocity,
        linear_acceleration: sample.linear_acceleration,
    }
}

/// The samples with their times in seconds.
pub fn align_imu_timestamps<N: Numerics>(n: &N, imu_data: &Vec<LoadIMU>) -> (r: Vec<IMU>)
    ensures
        r.len() == imu_data.len(),
        forall|g: Arithmetic| #[trigger]
            computes(*n, g) ==> r@ == imu_data@.map_values(|s: LoadIMU| in_seconds(g, s)),
{
    let mut r: Vec<IMU> = Vec::new();
    let mut i: usize = 0;
    while i < imu_data.len()
        invariant
            i <= imu_data.len(),
            r.len() == i,
            forall|g: Arithmetic| #[trigger]
                computes(*n, g) ==> forall|j: int|
                    0 <= j < i ==> #[trigger] r[j] == in_seconds(g, imu_data[j]),
        decreases imu_data.len() - i,
    {
        let sample = imu_data[i];
        r.push(
            IMU {
                timestamp: n.quotient64(
                    n.from_count64(sample.timestamp),
                    Float64 { bits: NANOSECONDS },
                ),
                angular_velocity: sample.angular_velocity,
                linear_acceleration: sample.linear_acceleration,
            },
        );
        i += 1;
    }
    proof {
        assert forall|g: Arithmetic| #[trigger] computes(*n, g) implies r@
            == imu_data@.map_values(|s: LoadIMU| in_seconds(g, s)) by {
            assert(r@ =~= imu_data@.map_values(|s: LoadIMU| in_seconds(g, s)));
        }
    }
    r
}

/// The first sample, from `k` on, that is not before `time`; the number of samples where
/// all are.
pub open spec fn first_at(imu_data: Seq<IMU>, time: Float64, k: int) -> int
    decreases imu_data.len() - k,
{
    if k >= imu_data.len() {
        imu_data.len() as int
    } else if time.le_spec(imu_data[k].timestamp) {
        k
    } else {
        first_at(imu_data, time, k + 1)
    }
}

/// The range of samples of a frame: from the first one that is not before its start, or
/// the first of all, to the first one that is not before its end, or the last of all.
pub open spec fn imu_range(imu_data: Seq<IMU>, start: Float64, end: Float64) -> (int, int) {
    let first = first_at(imu_data, start, 0);
    let last = first_at(imu_data, end, 0);
    (
        if first < imu_data.len() {
            first
        } else {
            0
        },
        if last < imu_data.len() {
            last
        } else {
            imu_data.len() - 1
        },
    )
}

fn find_first(imu_data: &Vec<IMU>, time: Float64) -> (r: usize)
    ensures
        r == first_at(imu_data@, time, 0),
        r <= imu_data.len(),
{
    let mut k: usize = 0;
    while k < imu_data.len()
        invariant
            k <= imu_data.len(),
            first_at(imu_data@, time, 0) == first_at(imu_data@, time, k as int),
        decreases imu_data.len() - k,
    {
        if time.le(imu_data[k].timestamp) {
            return k;
        }
        k += 1;
    }
    k
}

pub fn get_imu_range(imu_data: &Vec<IMU>, frame_time_range: (Float64, Float64)) -> (r: (
    usize,
    usize,
))
    requires
        imu_data.len() > 0,
    ensures
        (r.0 as int, r.1 as int) == imu_range(imu_data@, frame_time_range.0, frame_time_range.1),
        r.0 < imu_data.len() && r.1 < imu_data.len(),
{
    let first: usize = find_first(imu_data, frame_time_range.0);
    let last: usize = find_first(imu_data, frame_time_range.1);
    (
        if first < imu_data.len() {
            first
        } else {
            0
        },
        if last < imu_data.len() {
            last
        } else {
            imu_data.len() - 1
        },
    )
}

// ---------------------------------------------------------------------------
// Counting
// ---------------------------------------------------------------------------

/// Whether the times are numbers and never go back.
pub open spec fn is_chronological(imu_data: Seq<IMU>) -> bool {
    forall|i: int, j: int|
        0 <= i <= j < imu_data.len() ==> (#[trigger] imu_data[i]).timestamp.le_spec(
            (#[trigger] imu_data[j]).timestamp,
        )
}

/// How many of the first `k` samples are at a time from `start` to `end`.
pub open spec fn in_range_upto(
    imu_data: Seq<IMU>,
    start: Float64,
    end: Float64,
    k: int,
) -> int
    decreases k,
{
    if k <= 0 {
        0
    } else {
        let time = imu_data[k - 1].timestamp;
        in_range_upto(imu_data, start, end, k - 1) + if start.le_spec(time) && time.le_spec(end) {
            1int
        } else {
            0
        }
    }
}

proof fn lemma_in_range(
    imu_data: Seq<IMU>,
    start: Float64,
    end: Float64,
    first: int,
    last: int,
    k: int,
)
    requires
        0 <= first <= last <= imu_data.len(),
        0 <= k <= imu_data.len(),
        forall|i: int|
            0 <= i < imu_data.len() ==> (start.le_spec((#[trigger] imu_data[i]).timestamp)
                && imu_data[i].timestamp.le_spec(end) <==> first <= i < last),
    ensures
        in_range_upto(imu_data, start, end, k) == if k <= first {
            0
        } else if k <= last {
            k - first
        } else {
            last - first
        },
    decreases k,
{
    if k > 0 {
        lemma_in_range(imu_data, start, end, first, last, k - 1);
        assert(start.le_spec(imu_data[k - 1].timestamp) && imu_data[k - 1].timestamp.le_spec(end)
            <==> first <= k - 1 < last);
    }
}

/// The number of samples, by halving, that come before `time`; those at `time` count
/// where `inclusive`.
fn count_before(imu_data: &[IMU], time: Float64, inclusive: bool) -> (r: usize)
    ensures
        r <= imu_data.len(),
        is_chronological(imu_data@) && !time.is_nan_spec() ==> forall|i: int|
            0 <= i < imu_data.len() ==> (i < r <==> (if inclusive {
                (#[trigger] imu_data[i]).timestamp.le_spec(time)
            } else {
                imu_data[i].timestamp.lt_spec(time)
            })),
{
    let mut low: usize = 0;
    let mut high: usize = imu_data.len();
    while low < high
        invariant
            low <= high <= imu_data.len(),
            is_chronological(imu_data@) && !time.is_nan_spec() ==> forall|i: int|
                0 <= i < imu_data.len() ==> {
                    let before = if inclusive {
                        (#[trigger] imu_data[i]).timestamp.le_spec(time)
                    } else {
                        imu_data[i].timestamp.lt_spec(time)
                    };
                    &&& i < low ==> before
                    &&& i >= high ==> !before
                },
        decreases high - low,
    {
        let middle: usize = low + (high - low) / 2;
        let sample = imu_data[middle].timestamp;
        let before = if inclusive { sample.le(time) } else { sample.lt(time) };
        if before {
            low = middle + 1;
        } else {
            high = middle;
        }
    }
    low
}

/// How many samples are at a time from `start_time` to `end_time`, where the samples are
/// in the order of their times.
pub fn count_imu_samples_in_time_range(
    imu_data: &[IMU],
    start_time: Float64,
    end_time: Float64,
) -> (r: usize)
    ensures
        r <= imu_data.len(),
        !start_time.is_finite_spec() || !end_time.is_finite_spec() || end_time.lt_spec(start_time)
            ==> r == 0,
        is_chronological(imu_data@) && start_time.is_finite_spec() && end_time.is_finite_spec()
            ==> r == in_range_upto(imu_data@, start_time, end_time, imu_data.len() as int),
{
    if !start_time.is_finite() || !end_time.is_finite() || end_time.lt(start_time) {
        proof {
            if start_time.is_finite_spec() && end_time.is_finite_spec() {
                lemma_in_range(imu_data@, start_time, end_time, 0, 0, imu_data.len() as int);
            }
        }
        return 0;
    }
    let first: usize = count_before(imu_data, start_time, false);
    let last: usize = count_before(imu_data, end_time, true);
    proof {
        if is_chronological(imu_data@) {
            if first > last {
                let i = last as int;
                assert(imu_data[i].timestamp.lt_spec(start_time));
                assert(!imu_data[i].timestamp.le_spec(end_time));
            }
            assert forall|i: int| 0 <= i < imu_data.len() implies (start_time.le_spec(
                (#[trigger] imu_data[i]).timestamp,
            ) && imu_data[i].timestamp.le_spec(end_time) <==> first <= i < last) by {
                assert(imu_data[i].timestamp.le_spec(imu_data[i].timestamp));
            }
            lemma_in_range(
                imu_data@,
                start_time,
                end_time,
                first as int,
                last as int,
                imu_data.len() as int,
            );
        }
    }
    last.saturating_sub(first)
}

// ---------------------------------------------------------------------------
// Integration
// ---------------------------------------------------------------------------

/// Where the sensor is, how it is turned and how fast it moves, and the time of the last
/// sample that was taken into account.
#[derive(Clone, Copy, Debug, PartialEq, Eq, Structural)]
pub struct Motion {
    pub position: Point3d,
    pub rotation: Quaternion,
    pub velocity: Point3d,
    pub last_time: Float64,
}

pub open spec fn widened_spec(g: Arithmetic, v: [Float32; 3]) -> Point3d {
    Point3d { x: (g.widen)(v[0]), y: (g.widen)(v[1]), z: (g.widen)(v[2]) }
}

fn widened<N: Numerics>(n: &N, v: [Float32; 3]) -> (r: Point3d)
    ensures
        forall|g: Arithmetic| #[trigger] computes(*n, g) ==> r == widened_spec(g, v),
{
    Point3d { x: n.widen(v[0]), y: n.widen(v[1]), z: n.widen(v[2]) }
}

pub open spec fn x_axis_spec() -> Point3d {
    Point3d {
        x: Float64 { bits: F64_ONE },
        y: Float64::zero_spec(),
        z: Float64::zero_spec(),
    }
}

pub open spec fn gravity_spec() -> Point3d {
    Point3d {
        x: Float64::zero_spec(),
        y: Float64::zero_spec(),
        z: Float64 { bits: GRAVITY },
    }
}

/// The rotation that the sample gives over the time `dt`.
pub open spec fn turn_of(
    g: Arithmetic,
    imu_to_lidar: Quaternion,
    sample: IMU,
    dt: Float64,
) -> Quaternion {
    let omega = (g.rotated)(imu_to_lidar, widened_spec(g, sample.angular_velocity));
    let angle = (g.product64)((g.norm64)(omega), dt);
    let axis = if angle.lt_spec(Float64 { bits: TINY }) {
        x_axis_spec()
    } else {
        (g.normalized64)(omega)
    };
    (g.axis_angle)(axis, angle)
}

/// The motion after a sample: turned by its angular velocity, and moved by its
/// acceleration, from which gravity is taken away. A sample that is not later than the
/// last one changes nothing.
pub open spec fn moved(
    g: Arithmetic,
    imu_to_lidar: Quaternion,
    motion: Motion,
    sample: IMU,
) -> Motion {
    let dt = (g.difference64)(sample.timestamp, motion.last_time);
    if dt.le_spec(Float64 { bits: TINY }) {
        motion
    } else {
        let rotation = (g.renormalized)(
            (g.composed)(motion.rotation, turn_of(g, imu_to_lidar, sample, dt)),
        );
        let force = (g.vector_scaled64)(
            (g.rotated)(imu_to_lidar, widened_spec(g, sample.linear_acceleration)),
            Float64 { bits: GRAVITY },
        );
        let acceleration = (g.vector_difference64)((g.rotated)(rotation, force), gravity_spec());
        let velocity = (g.vector_sum64)(
            motion.velocity,
            (g.vector_scaled64)(acceleration, dt),
        );
        let half = (g.vector_scaled64)(acceleration, Float64 { bits: F64_HALF });
        let shift = (g.vector_sum64)(
            (g.vector_scaled64)(velocity, dt),
            (g.vector_scaled64)((g.vector_scaled64)(half, dt), dt),
        );
        Motion {
            position: (g.vector_sum64)(motion.position, shift),
            rotation,
            velocity,
            last_time: sample.timestamp,
        }
    }
}

fn take_sample<N: Numerics>(
    n: &N,
    imu_to_lidar: Quaternion,
    motion: Motion,
    sample: &IMU,
) -> (r: Motion)
    ensures
        forall|g: Arithmetic| #[trigger]
            computes(*n, g) ==> r == moved(g, imu_to_lidar, motion, *sample),
{
    let tiny = Float64 { bits: TINY };
    let dt = n.difference64(sample.timestamp, motion.last_time);
    if dt.le(tiny) {
        return motion;
    }
    let omega = n.rotated(imu_to_lidar, widened(n, sample.angular_velocity));
    let angle = n.product64(n.norm64(omega), dt);
    let axis = if angle.lt(tiny) {
        Point3d { x: Float64 { bits: F64_ONE }, y: Float64::zero(), z: Float64::zero() }
    } else {
        n.normalized64(omega)
    };
    let rotation = n.renormalized(n.composed(motion.rotation, n.axis_angle(axis, angle)));
    let gravity = Point3d {
        x: Float64::zero(),
        y: Float64::zero(),
        z: Float64 { bits: GRAVITY },
    };
    let force = n.vector_scaled64(
        n.rotated(imu_to_lidar, widened(n, sample.linear_acceleration)),
        Float64 { bits: GRAVITY },
    );
    let acceleration = n.vector_difference64(n.rotated(rotation, force), gravity);
    let velocity = n.vector_sum64(motion.velocity, n.vector_scaled64(acceleration, dt));
    let half = n.vector_scaled64(acceleration, Float64 { bits: F64_HALF });
    let shift = n.vector_sum64(
        n.vector_scaled64(velocity, dt),
        n.vector_scaled64(n.vector_scaled64(half, dt), dt),
    );
    Motion {
        position: n.vector_sum64(motion.position, shift),
        rotation,
        velocity,
        last_time: sample.timestamp,
    }
}

/// The motion after those of the first `k` samples that are at a time from `start` to
/// `end`.
pub open spec fn motion_upto(
    g: Arithmetic,
    imu_to_lidar: Quaternion,
    imu_data: Seq<IMU>,
    begin: Motion,
    start: Float64,
    end: Float64,
    k: int,
) -> Motion
    decreases k,
{
    if k <= 0 {
        begin
    } else {
        let before = motion_upto(g, imu_to_lidar, imu_data, begin, start, end, k - 1);
        let sample = imu_data[k - 1];
        if start.le_spec(sample.timestamp) && sample.timestamp.le_spec(end) {
            moved(g, imu_to_lidar, before, sample)
        } else {
            before
        }
    }
}

/// The motion at the pose and the speed of the last frame.
pub open spec fn motion_at(
    g: Arithmetic,
    pose: Pose64,
    velocity: Point3d,
    time: Float64,
) -> Motion {
    Motion {
        position: pose.translation,
        rotation: (g.quaternion_of)(pose.rotation),
        velocity,
        last_time: time,
    }
}

/// The pose and the speed at `current_timestamp`, from the samples since
/// `prev_timestamp`.
pub fn predict_pose_by_imu<N: Numerics>(
    n: &N,
    imu_data: &Vec<IMU>,
    imu_to_lidar: &Quaternion,
    prev_pose: &Pose64,
    prev_velocity: &Point3d,
    prev_timestamp: Float64,
    current_timestamp: Float64,
) -> (r: (Pose64, Point3d))
    ensures
        forall|g: Arithmetic| #[trigger]
            computes(*n, g) ==> {
                let end = motion_upto(
                    g,
                    *imu_to_lidar,
                    imu_data@,
                    motion_at(g, *prev_pose, *prev_velocity, prev_timestamp),
                    prev_timestamp,
                    current_timestamp,
                    imu_data.len() as int,
                );
                &&& r.0 == (Pose64 {
                    rotation: (g.matrix_of)(end.rotation),
                    translation: end.position,
                })
                &&& r.1 == end.velocity
            },
{
    let mut motion = Motion {
        position: prev_pose.translation,
        rotation: n.quaternion_of(prev_pose.rotation),
        velocity: *prev_velocity,
        last_time: prev_timestamp,
    };
    let ghost begin = motion;
    let mut k: usize = 0;
    while k < imu_data.len()
        invariant
            k <= imu_data.len(),
            forall|g: Arithmetic| #[trigger]
                computes(*n, g) ==> motion == motion_upto(
                    g,
                    *imu_to_lidar,
                    imu_data@,
                    begin,
                    prev_timestamp,
                    current_timestamp,
                    k as int,
                ),
        decreases imu_data.len() - k,
    {
        let sample = imu_data[k];
        if prev_timestamp.le(sample.timestamp) && sample.timestamp.le(current_timestamp) {
            motion = take_sample(n, *imu_to_lidar, motion, &sample);
        }
        k += 1;
    }
    (
        Pose64 { rotation: n.matrix_of(motion.rotation), translation: motion.position },
        motion.velocity,
    )
}

/// `pose` moved on at `velocity` for `delta_time`. A time that is not positive and finite
/// moves nothing.
pub open spec fn constant_velocity_pose(
    g: Arithmetic,
    pose: Pose64,
    velocity: Point3d,
    delta_time: Float64,
) -> Pose64 {
    if !delta_time.is_finite_spec() || delta_time.le_spec(Float64::zero_spec()) {
        pose
    } else {
        let t = pose.translation;
        Pose64 {
            rotation: pose.rotation,
            translation: Point3d {
                x: (g.sum64)(t.x, (g.product64)(velocity.x, delta_time)),
                y: (g.sum64)(t.y, (g.product64)(velocity.y, delta_time)),
                z: (g.sum64)(t.z, (g.product64)(velocity.z, delta_time)),
            },
        }
    }
}

/// The pose after `delta_time` without inertial samples: moved on at the last speed, and
/// not turned.
pub fn predict_pose_by_constant_velocity<N: Numerics>(
    n: &N,
    prev_pose: &Pose64,
    prev_velocity: &Point3d,
    delta_time: Float64,
) -> (r: Pose64)
    ensures
        r.rotation == prev_pose.rotation,
        !delta_time.is_finite_spec() || delta_time.le_spec(Float64::zero_spec()) ==> r
            == *prev_pose,
        forall|g: Arithmetic| #[trigger]
            computes(*n, g) ==> r == constant_velocity_pose(
                g,
                *prev_pose,
                *prev_velocity,
                delta_time,
            ),
{
    if !delta_time.is_finite() || delta_time.le(Float64::zero()) {
        return *prev_pose;
    }
    let t = prev_pose.translation;
    Pose64 {
        rotation: prev_pose.rotation,
        translation: Point3d {
            x: n.sum64(t.x, n.product64(prev_velocity.x, delta_time)),
            y: n.sum64(t.y, n.product64(prev_velocity.y, delta_time)),
            z: n.sum64(t.z, n.product64(prev_velocity.z, delta_time)),
        },
    }
}

// ---------------------------------------------------------------------------
// Rotations within a frame
// ---------------------------------------------------------------------------

/// The rotation that changes nothing.
pub open spec fn no_rotation() -> Quaternion {
    Quaternion {
        w: Float64 { bits: F64_ONE },
        x: Float64::zero_spec(),
        y: Float64::zero_spec(),
        z: Float64::zero_spec(),
    }
}

/// Rotations with their times, and the time of the last sample.
pub struct Trajectory {
    pub entries: Seq<(Float64, Quaternion)>,
    pub last_time: Float64,
}

/// The trajectory after a sample. One that is not later than the last adds nothing.
pub open spec fn turned(
    g: Arithmetic,
    imu_to_lidar: Quaternion,
    t: Trajectory,
    sample: IMU,
) -> Trajectory {
    let dt = (g.difference64)(sample.timestamp, t.last_time);
    if dt.le_spec(Float64 { bits: TINY }) {
        t
    } else {
        let omega = (g.rotated)(imu_to_lidar, widened_spec(g, sample.angular_velocity));
        let rotation = (g.renormalized)(
            (g.composed)(
                t.entries.last().1,
                (g.scaled_axis)((g.vector_scaled64)(omega, dt)),
            ),
        );
        Trajectory {
            entries: t.entries.push((sample.timestamp, rotation)),
            last_time: sample.timestamp,
        }
    }
}

/// The trajectory over the samples from `first` to before `k`.
pub open spec fn trajectory_upto(
    g: Arithmetic,
    imu_to_lidar: Quaternion,
    imu_data: Seq<IMU>,
    start_time: Float64,
    first: int,
    k: int,
) -> Trajectory
    decreases k - first,
{
    if k <= first {
        Trajectory {
            entries: seq![(imu_data[first].timestamp, no_rotation())],
            last_time: if first > 0 {
                imu_data[first - 1].timestamp
            } else {
                start_time
            },
        }
    } else {
        turned(
            g,
            imu_to_lidar,
            trajectory_upto(g, imu_to_lidar, imu_data, start_time, first, k - 1),
            imu_data[k - 1],
        )
    }
}

/// The rotation of the sensor since the start of a frame, at the time of each of its
/// inertial samples.
pub fn build_rotation_trajectory<N: Numerics>(
    n: &N,
    imu_data: &Vec<IMU>,
    start_time: Float64,
    end_time: Float64,
    imu_to_lidar: &Quaternion,
) -> (r: Vec<(Float64, Quaternion)>)
    requires
        imu_data.len() > 0,
        imu_range(imu_data@, start_time, end_time).0 <= imu_range(
            imu_data@,
            start_time,
            end_time,
        ).1,
    ensures
        r.len() >= 1,
        r[0] == (
            imu_data[imu_range(imu_data@, start_time, end_time).0].timestamp,
            no_rotation(),
        ),
        forall|g: Arithmetic| #[trigger]
            computes(*n, g) ==> {
                let (first, last) = imu_range(imu_data@, start_time, end_time);
                r@ == trajectory_upto(
                    g,
                    *imu_to_lidar,
                    imu_data@,
                    start_time,
                    first,
                    last,
                ).entries
            },
{
    let (first, last) = get_imu_range(imu_data, (start_time, end_time));
    let mut rotation = Quaternion {
        w: Float64 { bits: F64_ONE },
        x: Float64::zero(),
        y: Float64::zero(),
        z: Float64::zero(),
    };
    let mut r: Vec<(Float64, Quaternion)> = Vec::new();
    r.push((imu_data[first].timestamp, rotation));
    let mut last_time = if first > 0 { imu_data[first - 1].timestamp } else { start_time };
    let mut k: usize = first;
    proof {
        assert(r@ =~= seq![(imu_data[first as int].timestamp, no_rotation())]);
    }
    while k < last
        invariant
            first <= k <= last < imu_data.len(),
            r.len() >= 1,
            r[0] == (imu_data[first as int].timestamp, no_rotation()),
            r@.last().1 == rotation,
            forall|g: Arithmetic| #[trigger]
                computes(*n, g) ==> {
                    let t = trajectory_upto(
                        g,
                        *imu_to_lidar,
                        imu_data@,
                        start_time,
                        first as int,
                        k as int,
                    );
                    r@ == t.entries && last_time == t.last_time
                },
        decreases last - k,
    {
        let sample = imu_data[k];
        let dt = n.difference64(sample.timestamp, last_time);
        if !dt.le(Float64 { bits: TINY }) {
            let omega = n.rotated(*imu_to_lidar, widened(n, sample.angular_velocity));
            rotation =
            n.renormalized(
                n.composed(rotation, n.scaled_axis(n.vector_scaled64(omega, dt))),
            );
            r.push((sample.timestamp, rotation));
            last_time = sample.timestamp;
        }
        k += 1;
    }
    r
}

// ---------------------------------------------------------------------------
// What motions are
// ---------------------------------------------------------------------------

/// Whether vectors in double precision are added, subtracted and scaled by coordinate.
pub open spec fn wide_vectors_go_by_coordinate(g: Arithmetic) -> bool {
    &&& forall|a: Point3d, b: Point3d| #[trigger]
        (g.vector_sum64)(a, b) == (Point3d {
            x: (g.sum64)(a.x, b.x),
            y: (g.sum64)(a.y, b.y),
            z: (g.sum64)(a.z, b.z),
        })
    &&& forall|a: Point3d, b: Point3d| #[trigger]
        (g.vector_difference64)(a, b) == (Point3d {
            x: (g.difference64)(a.x, b.x),
            y: (g.difference64)(a.y, b.y),
            z: (g.difference64)(a.z, b.z),
        })
    &&& forall|a: Point3d, s: Float64| #[trigger]
        (g.vector_scaled64)(a, s) == (Point3d {
            x: (g.product64)(a.x, s),
            y: (g.product64)(a.y, s),
            z: (g.product64)(a.z, s),
        })
}

/// Whether zero is neutral: a number less itself is zero, zero times a number is zero, and
/// adding zero changes nothing.
pub open spec fn wide_zero_is_neutral(g: Arithmetic) -> bool {
    let zero = Float64::zero_spec();
    &&& forall|a: Float64| #[trigger] (g.difference64)(a, a) == zero
    &&& forall|a: Float64| #[trigger] (g.product64)(zero, a) == zero
    &&& forall|a: Float64| #[trigger] (g.sum64)(a, zero) == a
}

/// The acceleration of the sensor in the world at a sample, where it is turned by
/// `rotation`: what it feels, in the unit of gravity, less gravity, which points up.
pub open spec fn felt_acceleration(
    g: Arithmetic,
    imu_to_lidar: Quaternion,
    rotation: Quaternion,
    sample: IMU,
) -> Point3d {
    let felt = Point3d {
        x: (g.widen)(sample.linear_acceleration[0]),
        y: (g.widen)(sample.linear_acceleration[1]),
        z: (g.widen)(sample.linear_acceleration[2]),
    };
    (g.vector_difference64)(
        (g.rotated)(
            rotation,
            (g.vector_scaled64)((g.rotated)(imu_to_lidar, felt), Float64 { bits: GRAVITY }),
        ),
        Point3d {
            x: Float64::zero_spec(),
            y: Float64::zero_spec(),
            z: Float64 { bits: GRAVITY },
        },
    )
}

/// A sample that counts moves the sensor by coordinate as mechanics say: the speed changes
/// by `a dt`, and the place by `v dt + (a / 2) dt dt`, with the new speed. A sample no
/// more than a nanosecond later changes nothing.
pub proof fn samples_move_the_sensor_by_its_speed(
    g: Arithmetic,
    imu_to_lidar: Quaternion,
    motion: Motion,
    sample: IMU,
)
    requires
        wide_vectors_go_by_coordinate(g),
    ensures
        ({
            let dt = (g.difference64)(sample.timestamp, motion.last_time);
            let after = moved(g, imu_to_lidar, motion, sample);
            let a = felt_acceleration(g, imu_to_lidar, after.rotation, sample);
            let half = Float64 { bits: F64_HALF };
            let way = |v: Float64, a: Float64|
                (g.sum64)(
                    (g.product64)(v, dt),
                    (g.product64)((g.product64)((g.product64)(a, half), dt), dt),
                );
            &&& dt.le_spec(Float64 { bits: TINY }) ==> after == motion
            &&& !dt.le_spec(Float64 { bits: TINY }) ==> {
                &&& after.last_time == sample.timestamp
                &&& after.velocity.x == (g.sum64)(motion.velocity.x, (g.product64)(a.x, dt))
                &&& after.velocity.y == (g.sum64)(motion.velocity.y, (g.product64)(a.y, dt))
                &&& after.velocity.z == (g.sum64)(motion.velocity.z, (g.product64)(a.z, dt))
                &&& after.position.x == (g.sum64)(motion.position.x, way(after.velocity.x, a.x))
                &&& after.position.y == (g.sum64)(motion.position.y, way(after.velocity.y, a.y))
                &&& after.position.z == (g.sum64)(motion.position.z, way(after.velocity.z, a.z))
            }
        }),
{
}

/// A sensor that feels gravity alone keeps its speed, and moves as it is predicted to
/// without samples.
pub proof fn unaccelerated_motion_is_at_constant_velocity(
    g: Arithmetic,
    imu_to_lidar: Quaternion,
    motion: Motion,
    sample: IMU,
    pose: Pose64,
)
    requires
        wide_vectors_go_by_coordinate(g),
        wide_zero_is_neutral(g),
        ({
            let dt = (g.difference64)(sample.timestamp, motion.last_time);
            dt.is_finite_spec() && !dt.le_spec(Float64 { bits: TINY })
        }),
        felt_acceleration(
            g,
            imu_to_lidar,
            moved(g, imu_to_lidar, motion, sample).rotation,
            sample,
        ) == (Point3d {
            x: Float64::zero_spec(),
            y: Float64::zero_spec(),
            z: Float64::zero_spec(),
        }),
        pose.translation == motion.position,
    ensures
        ({
            let dt = (g.difference64)(sample.timestamp, motion.last_time);
            let after = moved(g, imu_to_lidar, motion, sample);
            &&& after.velocity == motion.velocity
            &&& after.position == constant_velocity_pose(
                g,
                pose,
                motion.velocity,
                dt,
            ).translation
            &&& constant_velocity_pose(g, pose, motion.velocity, dt).rotation == pose.rotation
        }),
{
    samples_move_the_sensor_by_its_speed(g, imu_to_lidar, motion, sample);
    let dt = (g.difference64)(sample.timestamp, motion.last_time);
    let zero = Float64::zero_spec();
    let half = Float64 { bits: F64_HALF };
    assert((g.product64)(zero, dt) == zero);
    assert((g.product64)(zero, half) == zero);
    let after = moved(g, imu_to_lidar, motion, sample);
    assert(after.velocity == motion.velocity);
    assert(after.position == (Point3d {
        x: (g.sum64)(motion.position.x, (g.product64)(motion.velocity.x, dt)),
        y: (g.sum64)(motion.position.y, (g.product64)(motion.velocity.y, dt)),
        z: (g.sum64)(motion.position.z, (g.product64)(motion.velocity.z, dt)),
    }));
}

/// Without samples the place changes by the speed times the time, along each axis, and
/// the rotation not at all. A time that is not positive and finite moves nothing.
pub proof fn constant_velocity_moves_along_each_axis(
    g: Arithmetic,
    pose: Pose64,
    velocity: Point3d,
    dt: Float64,
)
    requires
        forall|a: Float64, b: Float64| #[trigger] (g.difference64)((g.sum64)(a, b), a) == b,
    ensures
        ({
            let after = constant_velocity_pose(g, pose, velocity, dt);
            let (from, to) = (pose.translation, after.translation);
            &&& after.rotation == pose.rotation
            &&& !dt.is_finite_spec() || dt.le_spec(Float64::zero_spec()) ==> after == pose
            &&& dt.is_finite_spec() && Float64::zero_spec().lt_spec(dt) ==> {
                &&& (g.difference64)(to.x, from.x) == (g.product64)(velocity.x, dt)
                &&& (g.difference64)(to.y, from.y) == (g.product64)(velocity.y, dt)
                &&& (g.difference64)(to.z, from.z) == (g.product64)(velocity.z, dt)
            }
        }),
{
}

/// Whether composed rotations apply in turn, the right one first, and renormalizing
/// changes no rotation.
pub open spec fn rotations_apply_in_turn(g: Arithmetic) -> bool {
    &&& forall|a: Quaternion, b: Quaternion, v: Point3d| #[trigger]
        (g.rotated)((g.composed)(a, b), v) == (g.rotated)(a, (g.rotated)(b, v))
    &&& forall|a: Quaternion, v: Point3d| #[trigger]
        (g.rotated)((g.renormalized)(a), v) == (g.rotated)(a, v)
}

/// A sample turns what the sensor sees before its old rotation does: about the axis of
/// the angular velocity, seen from the sensor, by its length times the time. Where this
/// is the rotation about the vector of the angular velocity times the time, the next
/// rotation of a trajectory turns the same way.
pub proof fn samples_turn_the_sensor_by_its_rate(
    g: Arithmetic,
    imu_to_lidar: Quaternion,
    motion: Motion,
    sample: IMU,
    t: Trajectory,
    v: Point3d,
)
    requires
        rotations_apply_in_turn(g),
        forall|w: Point3d, dt: Float64|
            !(#[trigger] (g.product64)((g.norm64)(w), dt)).lt_spec(Float64 { bits: TINY })
                ==> (g.axis_angle)((g.normalized64)(w), (g.product64)((g.norm64)(w), dt))
                == (g.scaled_axis)((g.vector_scaled64)(w, dt)),
        t.entries.len() > 0,
        t.last_time == motion.last_time,
        t.entries.last().1 == motion.rotation,
    ensures
        ({
            let dt = (g.difference64)(sample.timestamp, motion.last_time);
            let rate = (g.rotated)(
                imu_to_lidar,
                Point3d {
                    x: (g.widen)(sample.angular_velocity[0]),
                    y: (g.widen)(sample.angular_velocity[1]),
                    z: (g.widen)(sample.angular_velocity[2]),
                },
            );
            let angle = (g.product64)((g.norm64)(rate), dt);
            let after = moved(g, imu_to_lidar, motion, sample);
            let next = turned(g, imu_to_lidar, t, sample);
            &&& !dt.le_spec(Float64 { bits: TINY }) && !angle.lt_spec(Float64 { bits: TINY }) ==> {
                &&& (g.rotated)(after.rotation, v) == (g.rotated)(
                    motion.rotation,
                    (g.rotated)((g.axis_angle)((g.normalized64)(rate), angle), v),
                )
                &&& next.entries.last() == (sample.timestamp, after.rotation)
            }
            &&& !dt.le_spec(Float64 { bits: TINY }) ==> {
                &&& next.last_time == sample.timestamp
                &&& next.entries.drop_last() == t.entries
                &&& (g.rotated)(next.entries.last().1, v) == (g.rotated)(
                    motion.rotation,
                    (g.rotated)((g.scaled_axis)((g.vector_scaled64)(rate, dt)), v),
                )
            }
            &&& dt.le_spec(Float64 { bits: TINY }) ==> next == t
        }),
{
    let next = turned(g, imu_to_lidar, t, sample);
    let dt = (g.difference64)(sample.timestamp, motion.last_time);
    if !dt.le_spec(Float64 { bits: TINY }) {
        assert(next.entries.drop_last() =~= t.entries);
    }
}

/// A slow turn, of less than a billionth of a radian, is about the first axis.
pub proof fn slow_turns_have_an_axis(
    g: Arithmetic,
    imu_to_lidar: Quaternion,
    sample: IMU,
    dt: Float64,
)
    ensures
        ({
            let rate = (g.rotated)(imu_to_lidar, widened_spec(g, sample.angular_velocity));
            let angle = (g.product64)((g.norm64)(rate), dt);
            angle.lt_spec(Float64 { bits: TINY }) ==> turn_of(g, imu_to_lidar, sample, dt)
                == (g.axis_angle)(
                Point3d {
                    x: Float64 { bits: F64_ONE },
                    y: Float64::zero_spec(),
                    z: Float64::zero_spec(),
                },
                angle,
            )
        }),
{
}

/// A prediction starts where the last frame ended, takes the samples from its start to its
/// end, both included, in their order, and no other ones.
pub proof fn predictions_take_the_samples_of_the_interval(
    g: Arithmetic,
    imu_to_lidar: Quaternion,
    imu_data: Seq<IMU>,
    pose: Pose64,
    velocity: Point3d,
    start: Float64,
    end: Float64,
    k: int,
)
    requires
        0 < k <= imu_data.len(),
    ensures
        ({
            let begin = motion_at(g, pose, velocity, start);
            let before = motion_upto(g, imu_to_lidar, imu_data, begin, start, end, k - 1);
            let after = motion_upto(g, imu_to_lidar, imu_data, begin, start, end, k);
            let time = imu_data[k - 1].timestamp;
            &&& begin.position == pose.translation
            &&& begin.velocity == velocity
            &&& begin.last_time == start
            &&& begin.rotation == (g.quaternion_of)(pose.rotation)
            &&& motion_upto(g, imu_to_lidar, imu_data, begin, start, end, 0) == begin
            &&& time.lt_spec(start) || end.lt_spec(time) ==> after == before
            &&& start.le_spec(time) && time.le_spec(end) ==> after == moved(
                g,
                imu_to_lidar,
                before,
                imu_data[k - 1],
            )
        }),
{
}

/// A time in seconds is the time in nanoseconds over a thousand millions; nothing else of
/// a sample changes.
pub proof fn seconds_hold_a_thousand_million_nanoseconds(g: Arithmetic, sample: LoadIMU)
    requires
        forall|a: Float64, b: Float64| #[trigger] (g.product64)((g.quotient64)(a, b), b) == a,
    ensures
        (g.product64)(in_seconds(g, sample).timestamp, Float64 { bits: 0x41cd_cd65_0000_0000 })
            == (g.from_count64)(sample.timestamp),
        in_seconds(g, sample).angular_velocity == sample.angular_velocity,
        in_seconds(g, sample).linear_acceleration == sample.linear_acceleration,
{
}

proof fn lemma_first_at(imu_data: Seq<IMU>, time: Float64, k: int)
    requires
        0 <= k <= imu_data.len(),
    ensures
        ({
            let first = first_at(imu_data, time, k);
            &&& k <= first <= imu_data.len()
            &&& first < imu_data.len() ==> time.le_spec(imu_data[first].timestamp)
            &&& forall|i: int|
                k <= i < first ==> !time.le_spec((#[trigger] imu_data[i]).timestamp)
        }),
    decreases imu_data.len() - k,
{
    if k < imu_data.len() && !time.le_spec(imu_data[k].timestamp) {
        lemma_first_at(imu_data, time, k + 1);
    }
}

/// The range of a frame begins at the first sample that is not before its start, and ends
/// at the first one that is not before its end; where there is none, at the first and at
/// the last of all.
pub proof fn ranges_begin_and_end_at_the_times(
    imu_data: Seq<IMU>,
    start: Float64,
    end: Float64,
    i: int,
)
    requires
        0 <= i < imu_data.len(),
    ensures
        ({
            let (first, last) = imu_range(imu_data, start, end);
            let time = imu_data[i].timestamp;
            &&& 0 <= first < imu_data.len() && 0 <= last < imu_data.len()
            &&& start.le_spec(time) ==> first <= i && start.le_spec(imu_data[first].timestamp)
            &&& end.le_spec(time) ==> last <= i && end.le_spec(imu_data[last].timestamp)
            &&& !start.le_spec(imu_data[first].timestamp) ==> first == 0
            &&& !end.le_spec(imu_data[last].timestamp) ==> last == imu_data.len() - 1
        }),
{
    lemma_first_at(imu_data, start, 0);
    lemma_first_at(imu_data, end, 0);
}

/// One more sample is counted exactly where its time is from the start to the end, both
/// included.
pub proof fn counts_take_both_ends(imu_data: Seq<IMU>, start: Float64, end: Float64, k: int)
    requires
        0 < k <= imu_data.len(),
    ensures
        ({
            let time = imu_data[k - 1].timestamp;
            let before = in_range_upto(imu_data, start, end, k - 1);
            let after = in_range_upto(imu_data, start, end, k);
            &&& in_range_upto(imu_data, start, end, 0) == 0
            &&& time == start && start.le_spec(end) ==> after == before + 1
            &&& time == end && start.le_spec(end) ==> after == before + 1
            &&& start.lt_spec(time) && time.lt_spec(end) ==> after == before + 1
            &&& time.lt_spec(start) || end.lt_spec(time) || time.is_nan_spec() ==> after == before
        }),
{
}

/// A trajectory begins unturned at the first sample of its range, and the time before it
/// is that of the sample before, or the start of the frame where there is none.
pub proof fn trajectories_begin_unturned(
    g: Arithmetic,
    imu_to_lidar: Quaternion,
    imu_data: Seq<IMU>,
    start_time: Float64,
    first: int,
    k: int,
)
    requires
        0 <= first < k <= imu_data.len(),
    ensures
        ({
            let begin = trajectory_upto(g, imu_to_lidar, imu_data, start_time, first, first);
            let one = Float64 { bits: 0x3ff0_0000_0000_0000 };
            let zero = Float64::zero_spec();
            &&& begin.entries == seq![
                (imu_data[first].timestamp, Quaternion { w: one, x: zero, y: zero, z: zero }),
            ]
            &&& first > 0 ==> begin.last_time == imu_data[first - 1].timestamp
            &&& first == 0 ==> begin.last_time == start_time
            &&& trajectory_upto(g, imu_to_lidar, imu_data, start_time, first, k) == turned(
                g,
                imu_to_lidar,
                trajectory_upto(g, imu_to_lidar, imu_data, start_time, first, k - 1),
                imu_data[k - 1],
            )
        }),
{
}

} // verus!
