//! The sensors that the program knows, and its command line.

use vstd::prelude::*;
use vstd::string::StringExecFns;

use crate::float::{Float64, F64_ONE};
use crate::numerics::{computes, Arithmetic, Matrix3d, Numerics, Point3d, Pose64, Quaternion};
use crate::predict_pose_by_imu::{
    no_rotation, wide_vectors_go_by_coordinate, wide_zero_is_neutral,
};
use crate::text::{is_name, lowered};

verus! {

// ---------------------------------------------------------------------------
// Models
// ---------------------------------------------------------------------------

/// A sensor.
#[derive(Clone, Copy, Debug, PartialEq, Eq, Structural)]
pub enum LidarModel {
    Mid70,
    Airy96,
    Avia,
}

/// The model that `value` names, whatever the case of its letters.
pub open spec fn model_named(value: Seq<char>) -> Option<LidarModel> {
    let name = lowered(value);
    if name == "mid70"@ || name == "mid-70"@ {
        Some(LidarModel::Mid70)
    } else if name == "airy96"@ || name == "airy-96"@ || name == "airy"@ {
        Some(LidarModel::Airy96)
    } else if name == "avia"@ || name == "livox-avia"@ {
        Some(LidarModel::Avia)
    } else {
        None
    }
}

/// A name that is not that of a known model.
#[derive(Debug)]
pub struct UnsupportedLidar {
    pub value: String,
}

impl UnsupportedLidar {
    pub open spec fn message_spec(self) -> Seq<char> {
        "unsupported LiDAR model '"@ + self.value@ + "'; expected 'mid70', 'airy96', or 'avia'"@
    }

    pub fn message(&self) -> (r: String)
        ensures
            r@ == self.message_spec(),
    {
        let mut r = String::new();
        r.append("unsupported LiDAR model '");
        r.append(self.value.as_str());
        r.append("'; expected 'mid70', 'airy96', or 'avia'");
        assert(r@ =~= self.message_spec());
        r
    }
}

impl LidarModel {
    pub fn parse(value: &str) -> (r: Result<LidarModel, UnsupportedLidar>)
        ensures
            match r {
                Ok(model) => model_named(value@) == Some(model),
                Err(e) => model_named(value@) is None && e.value@ == value@,
            },
    {
        if is_name(value, "mid70") || is_name(value, "mid-70") {
            Ok(LidarModel::Mid70)
        } else if is_name(value, "airy96") || is_name(value, "airy-96") || is_name(value, "airy") {
            Ok(LidarModel::Airy96)
        } else if is_name(value, "avia") || is_name(value, "livox-avia") {
            Ok(LidarModel::Avia)
        } else {
            Err(UnsupportedLidar { value: value.to_owned() })
        }
    }

    /// The directory, within a data set, that the sensor's files are in.
    pub fn input_subdir(self) -> (r: &'static str)
        ensures
            r@ == match self {
                LidarModel::Mid70 => "mid-70"@,
                LidarModel::Airy96 => ""@,
                LidarModel::Avia => "avia"@,
            },
    {
        match self {
            LidarModel::Mid70 => "mid-70",
            LidarModel::Airy96 => "",
            LidarModel::Avia => "avia",
        }
    }

    pub open spec fn name_spec(self) -> Seq<char> {
        match self {
            LidarModel::Mid70 => "mid70"@,
            LidarModel::Airy96 => "airy96"@,
            LidarModel::Avia => "avia"@,
        }
    }

    pub fn name(self) -> (r: &'static str)
        ensures
            r@ == self.name_spec(),
    {
        match self {
            LidarModel::Mid70 => "mid70",
            LidarModel::Airy96 => "airy96",
            LidarModel::Avia => "avia",
        }
    }

    /// The rotation from the inertial sensor to the sensor.
    pub open spec fn imu_rotation(self, g: Arithmetic) -> Quaternion {
        match self {
            LidarModel::Mid70 => imu_to_mid70(g),
            LidarModel::Airy96 => imu_to_airy96(g),
            LidarModel::Avia => no_rotation(),
        }
    }

    pub fn imu_to_lidar_rotation<N: Numerics>(self, n: &N) -> (r: Quaternion)
        ensures
            forall|g: Arithmetic| #[trigger] computes(*n, g) ==> r == self.imu_rotation(g),
    {
        match self {
            LidarModel::Mid70 => make_imu_to_mid70_rotation(n),
            LidarModel::Airy96 => make_imu_to_airy96_rotation(n),
            LidarModel::Avia => make_imu_to_avia_rotation(),
        }
    }
}

/// The name of a model names it.
pub proof fn models_are_named_by_their_names(model: LidarModel)
    ensures
        model_named(model.name_spec()) == Some(model),
{
    reveal_strlit("mid70");
    reveal_strlit("airy96");
    reveal_strlit("avia");
    reveal_strlit("mid-70");
    reveal_strlit("airy-96");
    reveal_strlit("airy");
    reveal_strlit("livox-avia");
    let name = model.name_spec();
    assert(lowered(name) =~= name);
    if model == LidarModel::Airy96 {
        assert("airy96"@[0] != "mid70"@[0]);
        assert("airy96"@[0] != "mid-70"@[0]);
    }
    if model == LidarModel::Avia {
        assert("avia"@[0] != "mid70"@[0]);
        assert("avia"@[0] != "mid-70"@[0]);
        assert("avia"@[1] != "airy96"@[1]);
        assert("avia"@[1] != "airy-96"@[1]);
        assert("avia"@[1] != "airy"@[1]);
    }
}

// ---------------------------------------------------------------------------
// Where the sensors sit
// ---------------------------------------------------------------------------

/// The quaternion of the inertial sensor's rotation against the Airy-96, as it was
/// calibrated.
pub open spec fn calibrated_quaternion() -> Quaternion {
    Quaternion {
        w: Float64 { bits: 0x3f4f_cb4c_6f19_685c },
        x: Float64 { bits: 0xbfe6_92f0_9d8c_6d61 },
        y: Float64 { bits: 0x3fe6_ae38_21af_7d31 },
        z: Float64 { bits: 0xbf64_3322_ed14_ebca },
    }
}

/// The rotation from the inertial sensor to the Airy-96.
pub open spec fn imu_to_airy96(g: Arithmetic) -> Quaternion {
    (g.renormalized)(calibrated_quaternion())
}

pub fn make_imu_to_airy96_rotation<N: Numerics>(n: &N) -> (r: Quaternion)
    ensures
        forall|g: Arithmetic| #[trigger] computes(*n, g) ==> r == imu_to_airy96(g),
{
    n.renormalized(
        Quaternion {
            w: Float64 { bits: 0x3f4f_cb4c_6f19_685c },
            x: Float64 { bits: 0xbfe6_92f0_9d8c_6d61 },
            y: Float64 { bits: 0x3fe6_ae38_21af_7d31 },
            z: Float64 { bits: 0xbf64_3322_ed14_ebca },
        },
    )
}

/// What takes a point of the Mid-70 to the Airy-96: a quarter turn, and 6 cm down.
pub open spec fn airy96_from_mid70() -> Pose64 {
    let zero = Float64::zero_spec();
    let one = Float64 { bits: F64_ONE };
    Pose64 {
        rotation: Matrix3d {
            c0: Point3d { x: zero, y: one.neg_spec(), z: zero },
            c1: Point3d { x: one, y: zero, z: zero },
            c2: Point3d { x: zero, y: zero, z: one },
        },
        translation: Point3d { x: zero, y: zero, z: Float64 { bits: 0xbfae_b851_eb85_1eb8 } },
    }
}

pub fn make_airy96_from_mid70_extrinsic() -> (r: Pose64)
    ensures
        r == airy96_from_mid70(),
{
    let zero = Float64::zero();
    let one = Float64 { bits: F64_ONE };
    Pose64 {
        rotation: Matrix3d {
            c0: Point3d { x: zero, y: one.neg(), z: zero },
            c1: Point3d { x: one, y: zero, z: zero },
            c2: Point3d { x: zero, y: zero, z: one },
        },
        translation: Point3d { x: zero, y: zero, z: Float64 { bits: 0xbfae_b851_eb85_1eb8 } },
    }
}

/// The rotation from the Mid-70 to the Airy-96.
pub open spec fn mounting(g: Arithmetic) -> Quaternion {
    (g.quaternion_of)(airy96_from_mid70().rotation)
}

/// The rotation from the inertial sensor to the Mid-70: to the Airy-96, and back through
/// the mounting of the Mid-70.
pub open spec fn imu_to_mid70(g: Arithmetic) -> Quaternion {
    (g.composed)((g.inverted)(mounting(g)), imu_to_airy96(g))
}

pub fn make_imu_to_mid70_rotation<N: Numerics>(n: &N) -> (r: Quaternion)
    ensures
        forall|g: Arithmetic| #[trigger] computes(*n, g) ==> r == imu_to_mid70(g),
{
    let mounting = n.quaternion_of(make_airy96_from_mid70_extrinsic().rotation);
    n.composed(n.inverted(mounting), make_imu_to_airy96_rotation(n))
}

/// Going from the inertial sensor to the Mid-70 and on to the Airy-96 is going to the
/// Airy-96 directly, up to twice `error`, whatever `gap` measures. Only the three rotations
/// that are composed matter: the mounting, its inverse and the direct rotation. The way
/// they are grouped, and the mounting undone by its inverse, may each be off by `error`.
///
/// Rounded numbers meet this with the error of single compositions. With exact numbers the
/// error is 0, and both ways are the same rotation. What becomes of a vector is said by
/// [`ways_to_the_airy96_are_near`], for rounded and for exact numbers too.
pub proof fn both_ways_to_the_airy96_agree(
    g: Arithmetic,
    gap: spec_fn(Quaternion, Quaternion) -> int,
    error: int,
)
    requires
        ({
            let both = (g.composed)(mounting(g), imu_to_mid70(g));
            let undone = (g.composed)(mounting(g), (g.inverted)(mounting(g)));
            let grouped = (g.composed)(undone, imu_to_airy96(g));
            &&& gap(both, imu_to_airy96(g)) <= gap(both, grouped) + gap(grouped, imu_to_airy96(g))
            &&& gap(both, grouped) <= error
            &&& gap(grouped, imu_to_airy96(g)) <= error
        }),
    ensures
        gap((g.composed)(mounting(g), imu_to_mid70(g)), imu_to_airy96(g)) <= 2 * error,
        error == 0 && (forall|a: Quaternion, b: Quaternion| #[trigger] gap(a, b) <= 0 ==> a == b)
            ==> (g.composed)(mounting(g), imu_to_mid70(g)) == imu_to_airy96(g),
{
}

/// The vector `a` by the matrix `m`: the sum of the columns, each by its coordinate.
pub open spec fn by_columns(g: Arithmetic, m: Matrix3d, a: Point3d) -> Point3d {
    (g.vector_sum64)(
        (g.vector_sum64)((g.vector_scaled64)(m.c0, a.x), (g.vector_scaled64)(m.c1, a.y)),
        (g.vector_scaled64)(m.c2, a.z),
    )
}

/// The two ways from the inertial sensor to the Airy-96 take the vector `v` to places no
/// farther apart than four times `error`, whatever `gap` measures, where none of these is
/// off by more than `error`: the mounting as a rotation against its matrix, two rotations
/// in turn against the composed one, the grouping of three rotations, and the mounting
/// undone by its inverse. These are hypotheses on this vector and these rotations alone,
/// which rounded numbers meet with a small error, and exact numbers with none.
pub proof fn ways_to_the_airy96_are_near(
    g: Arithmetic,
    gap: spec_fn(Point3d, Point3d) -> int,
    error: int,
    v: Point3d,
)
    requires
        forall|a: Point3d, b: Point3d, c: Point3d|
            #![trigger gap(a, b), gap(b, c)]
            gap(a, c) <= gap(a, b) + gap(b, c),
        ({
            let at_mid70 = (g.rotated)(imu_to_mid70(g), v);
            let in_turn = (g.rotated)(mounting(g), at_mid70);
            let composed = (g.rotated)((g.composed)(mounting(g), imu_to_mid70(g)), v);
            let undone = (g.composed)(mounting(g), (g.inverted)(mounting(g)));
            let grouped = (g.rotated)((g.composed)(undone, imu_to_airy96(g)), v);
            &&& gap(by_columns(g, airy96_from_mid70().rotation, at_mid70), in_turn) <= error
            &&& gap(in_turn, composed) <= error
            &&& gap(composed, grouped) <= error
            &&& gap(grouped, (g.rotated)(imu_to_airy96(g), v)) <= error
        }),
    ensures
        gap(
            by_columns(g, airy96_from_mid70().rotation, (g.rotated)(imu_to_mid70(g), v)),
            (g.rotated)(imu_to_airy96(g), v),
        ) <= 4 * error,
{
}

/// The rotation from the inertial sensor to the Avia: their axes are the same.
pub fn make_imu_to_avia_rotation() -> (r: Quaternion)
    ensures
        r == no_rotation(),
{
    Quaternion {
        w: Float64 { bits: F64_ONE },
        x: Float64::zero(),
        y: Float64::zero(),
        z: Float64::zero(),
    }
}

/// The Mid-70 sits a quarter turn about the vertical from the Airy-96 and below it: what is
/// at `x` and `y` for the one is at `y` and `-x` for the other, and nothing changes in
/// height but for the way down.
pub proof fn the_mid70_sits_a_quarter_turn_away(g: Arithmetic, p: Point3d)
    requires
        wide_vectors_go_by_coordinate(g),
        wide_zero_is_neutral(g),
        forall|a: Float64| #[trigger] (g.sum64)(Float64::zero_spec(), a) == a,
        forall|a: Float64| #[trigger] (g.product64)(Float64 { bits: 0x3ff0_0000_0000_0000 }, a)
            == a,
        forall|a: Float64| #[trigger] (g.product64)(Float64 { bits: 0xbff0_0000_0000_0000 }, a)
            == a.neg_spec(),
    ensures
        by_columns(g, airy96_from_mid70().rotation, p) == (Point3d {
            x: p.y,
            y: p.x.neg_spec(),
            z: p.z,
        }),
        ({
            let way = airy96_from_mid70().translation;
            &&& way.x == Float64::zero_spec() && way.y == Float64::zero_spec()
            &&& way.z.lt_spec(Float64::zero_spec())
        }),
{
    let m = airy96_from_mid70().rotation;
    let one = Float64 { bits: F64_ONE };
    assert(one.neg_spec() == (Float64 { bits: 0xbff0_0000_0000_0000 }));
    let zero = Float64::zero_spec();
    let first = (g.vector_scaled64)(m.c0, p.x);
    assert(first == (Point3d { x: zero, y: p.x.neg_spec(), z: zero }));
    let second = (g.vector_scaled64)(m.c1, p.y);
    assert(second == (Point3d { x: p.y, y: zero, z: zero }));
    let third = (g.vector_scaled64)(m.c2, p.z);
    assert(third == (Point3d { x: zero, y: zero, z: p.z }));
    assert((g.vector_sum64)(first, second) == (Point3d { x: p.y, y: p.x.neg_spec(), z: zero }));
}

/// Each sensor has its own rotation: that of the Airy-96 is the calibrated one, that of the
/// Mid-70 is had from it by undoing the mounting, and the Avia needs none.
pub proof fn sensors_have_their_own_rotation(g: Arithmetic, v: Point3d)
    requires
        forall|a: Quaternion, b: Quaternion, p: Point3d|
            (g.rotated)(#[trigger] (g.composed)(a, b), p) == (g.rotated)(
                a,
                #[trigger] (g.rotated)(b, p),
            ),
    ensures
        (LidarModel::Avia).imu_rotation(g) == (Quaternion {
            w: Float64 { bits: 0x3ff0_0000_0000_0000 },
            x: Float64 { bits: 0 },
            y: Float64 { bits: 0 },
            z: Float64 { bits: 0 },
        }),
        (g.rotated)((LidarModel::Mid70).imu_rotation(g), v) == (g.rotated)(
            (g.inverted)((g.quaternion_of)(airy96_from_mid70().rotation)),
            (g.rotated)((LidarModel::Airy96).imu_rotation(g), v),
        ),
{
}

} // verus!
