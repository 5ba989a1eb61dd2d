//! The arithmetic that the library asks of its caller.
//!
//! Algorithms take a [`Numerics`] and state their results over the functions
//! that it computes: whatever [`Arithmetic`] describes the caller's arithmetic,
//! the result is the one that the algorithm's definition gives over it.

use vstd::prelude::*;

use crate::float::{Float32, Float64};
use crate::matrix6::{Eigen6, Matrix6, Vector6};

verus! {

/// A point or a vector in space.
#[derive(Clone, Copy, Debug, PartialEq, Eq, Structural)]
pub struct Point3 {
    pub x: Float32,
    pub y: Float32,
    pub z: Float32,
}

impl Point3 {
    pub open spec fn origin_spec() -> Point3 {
        Point3 { x: Float32::zero_spec(), y: Float32::zero_spec(), z: Float32::zero_spec() }
    }

    #[verifier::when_used_as_spec(origin_spec)]
    pub fn origin() -> (r: Point3)
        ensures
            r == Point3::origin_spec(),
    {
        Point3 { x: Float32::zero(), y: Float32::zero(), z: Float32::zero() }
    }

    pub open spec fn is_finite_spec(self) -> bool {
        self.x.is_finite_spec() && self.y.is_finite_spec() && self.z.is_finite_spec()
    }

    #[verifier::when_used_as_spec(is_finite_spec)]
    pub fn is_finite(self) -> (r: bool)
        ensures
            r == self.is_finite_spec(),
    {
        self.x.is_finite() && self.y.is_finite() && self.z.is_finite()
    }
}

/// A matrix of three rows and three columns, held by its columns.
#[derive(Clone, Copy, Debug, PartialEq, Eq, Structural)]
pub struct Matrix3 {
    pub c0: Point3,
    pub c1: Point3,
    pub c2: Point3,
}

impl Matrix3 {
    pub open spec fn zeros_spec() -> Matrix3 {
        Matrix3 {
            c0: Point3::origin_spec(),
            c1: Point3::origin_spec(),
            c2: Point3::origin_spec(),
        }
    }

    #[verifier::when_used_as_spec(zeros_spec)]
    pub fn zeros() -> (r: Matrix3)
        ensures
            r == Matrix3::zeros_spec(),
    {
        Matrix3 { c0: Point3::origin(), c1: Point3::origin(), c2: Point3::origin() }
    }

    pub open spec fn is_finite_spec(self) -> bool {
        self.c0.is_finite_spec() && self.c1.is_finite_spec() && self.c2.is_finite_spec()
    }

    #[verifier::when_used_as_spec(is_finite_spec)]
    pub fn is_finite(self) -> (r: bool)
        ensures
            r == self.is_finite_spec(),
    {
        self.c0.is_finite() && self.c1.is_finite() && self.c2.is_finite()
    }

    pub open spec fn transposed_spec(self) -> Matrix3 {
        Matrix3 {
            c0: Point3 { x: self.c0.x, y: self.c1.x, z: self.c2.x },
            c1: Point3 { x: self.c0.y, y: self.c1.y, z: self.c2.y },
            c2: Point3 { x: self.c0.z, y: self.c1.z, z: self.c2.z },
        }
    }

    #[verifier::when_used_as_spec(transposed_spec)]
    pub fn transposed(self) -> (r: Matrix3)
        ensures
            r == self.transposed_spec(),
    {
        Matrix3 {
            c0: Point3 { x: self.c0.x, y: self.c1.x, z: self.c2.x },
            c1: Point3 { x: self.c0.y, y: self.c1.y, z: self.c2.y },
            c2: Point3 { x: self.c0.z, y: self.c1.z, z: self.c2.z },
        }
    }
}

/// Three eigenvalues; column `i` of `vectors` belongs to coordinate `i` of `values`.
#[derive(Clone, Copy, Debug, PartialEq, Eq, Structural)]
pub struct Eigen3 {
    pub values: Point3,
    pub vectors: Matrix3,
}

/// A point or a vector in double precision.
#[derive(Clone, Copy, Debug, PartialEq, Eq, Structural)]
pub struct Point3d {
    pub x: Float64,
    pub y: Float64,
    pub z: Float64,
}

/// A matrix of three rows and three columns in double precision, held by its
/// columns.
#[derive(Clone, Copy, Debug, PartialEq, Eq, Structural)]
pub struct Matrix3d {
    pub c0: Point3d,
    pub c1: Point3d,
    pub c2: Point3d,
}

impl Matrix3d {
    pub open spec fn transposed_spec(self) -> Matrix3d {
        Matrix3d {
            c0: Point3d { x: self.c0.x, y: self.c1.x, z: self.c2.x },
            c1: Point3d { x: self.c0.y, y: self.c1.y, z: self.c2.y },
            c2: Point3d { x: self.c0.z, y: self.c1.z, z: self.c2.z },
        }
    }

    #[verifier::when_used_as_spec(transposed_spec)]
    pub fn transposed(self) -> (r: Matrix3d)
        ensures
            r == self.transposed_spec(),
    {
        Matrix3d {
            c0: Point3d { x: self.c0.x, y: self.c1.x, z: self.c2.x },
            c1: Point3d { x: self.c0.y, y: self.c1.y, z: self.c2.y },
            c2: Point3d { x: self.c0.z, y: self.c1.z, z: self.c2.z },
        }
    }
}

/// A rotation, as the unit quaternion `w + x i + y j + z k`.
#[derive(Clone, Copy, Debug, PartialEq, Eq, Structural)]
pub struct Quaternion {
    pub w: Float64,
    pub x: Float64,
    pub y: Float64,
    pub z: Float64,
}

/// A rotation and a translation in double precision.
#[derive(Clone, Copy, Debug, PartialEq, Eq, Structural)]
pub struct Pose64 {
    pub rotation: Matrix3d,
    pub translation: Point3d,
}

/// A rotation and a translation: `p` goes to `rotation * p + translation`.
#[derive(Clone, Copy, Debug, PartialEq, Eq, Structural)]
pub struct Pose {
    pub rotation: Matrix3,
    pub translation: Point3,
}

/// Arithmetic on points, matrices and numbers.
pub trait Numerics {
    /// `a + b`.
    fn sum(&self, a: Float32, b: Float32) -> Float32;

    /// `a - b`.
    fn difference(&self, a: Float32, b: Float32) -> Float32;

    /// `a * b`.
    fn product(&self, a: Float32, b: Float32) -> Float32;

    /// `a / b`.
    fn quotient(&self, a: Float32, b: Float32) -> Float32;

    /// The square root of `a`.
    fn square_root(&self, a: Float32) -> Float32;

    /// The number nearest to `count`.
    fn from_count(&self, count: u64) -> Float32;

    /// The floor of `a`, held to the range of `i32`; 0 for NaN.
    fn floor_i32(&self, a: Float32) -> i32;

    /// The floor of `a`, held to the range of `u64`; 0 for NaN.
    fn floor_u64(&self, a: Float32) -> u64;

    /// The ceiling of `a`, held to the range of `u64`; 0 for NaN.
    fn ceil_u64(&self, a: Float32) -> u64;

    /// `a + b`, by coordinate.
    fn vector_sum(&self, a: Point3, b: Point3) -> Point3;

    /// `a - b`, by coordinate.
    fn vector_difference(&self, a: Point3, b: Point3) -> Point3;

    /// `a * s`, by coordinate.
    fn vector_scaled(&self, a: Point3, s: Float32) -> Point3;

    /// `a / s`, by coordinate.
    fn vector_divided(&self, a: Point3, s: Float32) -> Point3;

    /// The dot product.
    fn dot(&self, a: Point3, b: Point3) -> Float32;

    /// The cross product.
    fn cross(&self, a: Point3, b: Point3) -> Point3;

    /// The Euclidean length.
    fn norm(&self, a: Point3) -> Float32;

    /// The squared Euclidean length.
    fn norm_squared(&self, a: Point3) -> Float32;

    /// The matrix `m` applied to `a`.
    fn transformed(&self, m: Matrix3, a: Point3) -> Point3;

    /// The outer product of `a` and `b`.
    fn outer(&self, a: Point3, b: Point3) -> Matrix3;

    /// `a + b`, by entry.
    fn matrix_sum(&self, a: Matrix3, b: Matrix3) -> Matrix3;

    /// `a * s`, by entry.
    fn matrix_scaled(&self, a: Matrix3, s: Float32) -> Matrix3;

    /// `a / s`, by entry.
    fn matrix_divided(&self, a: Matrix3, s: Float32) -> Matrix3;

    /// The eigenvalues of a symmetric matrix, and the eigenvector of each.
    fn symmetric_eigen(&self, m: Matrix3) -> Eigen3;

    /// `a + b`.
    fn sum64(&self, a: Float64, b: Float64) -> Float64;

    /// `a - b`.
    fn difference64(&self, a: Float64, b: Float64) -> Float64;

    /// `a * b`.
    fn product64(&self, a: Float64, b: Float64) -> Float64;

    /// `a / b`.
    fn quotient64(&self, a: Float64, b: Float64) -> Float64;

    /// The number nearest to `count`.
    fn from_count64(&self, count: u64) -> Float64;

    /// The natural logarithm of `a`.
    fn ln64(&self, a: Float64) -> Float64;

    /// The natural logarithm of `1 + a`.
    fn ln_1p64(&self, a: Float64) -> Float64;

    /// The ceiling of `a`.
    fn ceil64(&self, a: Float64) -> Float64;

    /// The single-precision number nearest to `a`.
    fn narrow(&self, a: Float64) -> Float32;

    /// `a` in double precision.
    fn widen(&self, a: Float32) -> Float64;

    /// The angle `a`, in radians, in degrees.
    fn to_degrees(&self, a: Float32) -> Float32;

    /// The angle `a`, in degrees, in radians.
    fn to_radians(&self, a: Float32) -> Float32;

    /// The cosine of `a`.
    fn cosine(&self, a: Float32) -> Float32;

    /// The angle in radians whose cosine is `a`.
    fn arc_cosine(&self, a: Float32) -> Float32;

    /// The floor of `a`, held to the range of `u32`; 0 for NaN.
    fn floor_u32(&self, a: Float32) -> u32;

    /// `a * b`.
    fn matrix_product(&self, a: Matrix3, b: Matrix3) -> Matrix3;

    /// The sum of the diagonal.
    fn trace(&self, m: Matrix3) -> Float32;

    /// The rotation about `a` by the angle of its length, in radians.
    fn scaled_axis_rotation(&self, a: Point3) -> Matrix3;

    /// The eigenvalues of a symmetric matrix, and the eigenvector of each.
    fn symmetric_eigen6(&self, m: Matrix6) -> Eigen6;

    /// The dot product.
    fn dot6(&self, a: Vector6, b: Vector6) -> Float32;

    /// `a + b`, by coordinate.
    fn vector_sum64(&self, a: Point3d, b: Point3d) -> Point3d;

    /// `a - b`, by coordinate.
    fn vector_difference64(&self, a: Point3d, b: Point3d) -> Point3d;

    /// `a * s`, by coordinate.
    fn vector_scaled64(&self, a: Point3d, s: Float64) -> Point3d;

    /// `a / s`, by coordinate.
    fn vector_divided64(&self, a: Point3d, s: Float64) -> Point3d;

    /// The Euclidean length.
    fn norm64(&self, a: Point3d) -> Float64;

    /// `a` divided by its length.
    fn normalized64(&self, a: Point3d) -> Point3d;

    /// `a * b`.
    fn matrix_product64(&self, a: Matrix3d, b: Matrix3d) -> Matrix3d;

    /// The sum of the diagonal.
    fn trace64(&self, m: Matrix3d) -> Float64;

    /// The angle in radians whose cosine is `a`.
    fn arc_cosine64(&self, a: Float64) -> Float64;

    /// The angle `a`, in radians, in degrees.
    fn to_degrees64(&self, a: Float64) -> Float64;

    /// The rotation `q` applied to `a`.
    fn rotated(&self, q: Quaternion, a: Point3d) -> Point3d;

    /// The rotation `a` after the rotation `b`.
    fn composed(&self, a: Quaternion, b: Quaternion) -> Quaternion;

    /// `q`, divided by its length.
    fn renormalized(&self, q: Quaternion) -> Quaternion;

    /// The inverse of the rotation `q`.
    fn inverted(&self, q: Quaternion) -> Quaternion;

    /// The rotation about the unit vector `axis` by `angle` radians.
    fn axis_angle(&self, axis: Point3d, angle: Float64) -> Quaternion;

    /// The rotation about `a` by the angle of its length, in radians.
    fn scaled_axis(&self, a: Point3d) -> Quaternion;

    /// The rotation that is nearest to `m`.
    fn quaternion_of(&self, m: Matrix3d) -> Quaternion;

    /// The matrix of the rotation `q`.
    fn matrix_of(&self, q: Quaternion) -> Matrix3d;

    /// `a` without its fraction, held to the range of `u64`; 0 for NaN.
    fn to_u64(&self, a: Float64) -> u64;
}

/// The functions that a [`Numerics`] computes.
pub struct Arithmetic {
    pub sum: spec_fn(Float32, Float32) -> Float32,
    pub difference: spec_fn(Float32, Float32) -> Float32,
    pub product: spec_fn(Float32, Float32) -> Float32,
    pub quotient: spec_fn(Float32, Float32) -> Float32,
    pub square_root: spec_fn(Float32) -> Float32,
    pub from_count: spec_fn(u64) -> Float32,
    pub floor_i32: spec_fn(Float32) -> i32,
    pub floor_u64: spec_fn(Float32) -> u64,
    pub ceil_u64: spec_fn(Float32) -> u64,
    pub vector_sum: spec_fn(Point3, Point3) -> Point3,
    pub vector_difference: spec_fn(Point3, Point3) -> Point3,
    pub vector_scaled: spec_fn(Point3, Float32) -> Point3,
    pub vector_divided: spec_fn(Point3, Float32) -> Point3,
    pub dot: spec_fn(Point3, Point3) -> Float32,
    pub cross: spec_fn(Point3, Point3) -> Point3,
    pub norm: spec_fn(Point3) -> Float32,
    pub norm_squared: spec_fn(Point3) -> Float32,
    pub transformed: spec_fn(Matrix3, Point3) -> Point3,
    pub outer: spec_fn(Point3, Point3) -> Matrix3,
    pub matrix_sum: spec_fn(Matrix3, Matrix3) -> Matrix3,
    pub matrix_scaled: spec_fn(Matrix3, Float32) -> Matrix3,
    pub matrix_divided: spec_fn(Matrix3, Float32) -> Matrix3,
    pub symmetric_eigen: spec_fn(Matrix3) -> Eigen3,
    pub sum64: spec_fn(Float64, Float64) -> Float64,
    pub difference64: spec_fn(Float64, Float64) -> Float64,
    pub product64: spec_fn(Float64, Float64) -> Float64,
    pub quotient64: spec_fn(Float64, Float64) -> Float64,
    pub from_count64: spec_fn(u64) -> Float64,
    pub ln64: spec_fn(Float64) -> Float64,
    pub ln_1p64: spec_fn(Float64) -> Float64,
    pub ceil64: spec_fn(Float64) -> Float64,
    pub narrow: spec_fn(Float64) -> Float32,
    pub widen: spec_fn(Float32) -> Float64,
    pub to_degrees: spec_fn(Float32) -> Float32,
    pub to_radians: spec_fn(Float32) -> Float32,
    pub cosine: spec_fn(Float32) -> Float32,
    pub arc_cosine: spec_fn(Float32) -> Float32,
    pub floor_u32: spec_fn(Float32) -> u32,
    pub matrix_product: spec_fn(Matrix3, Matrix3) -> Matrix3,
    pub trace: spec_fn(Matrix3) -> Float32,
    pub scaled_axis_rotation: spec_fn(Point3) -> Matrix3,
    pub symmetric_eigen6: spec_fn(Matrix6) -> Eigen6,
    pub dot6: spec_fn(Vector6, Vector6) -> Float32,
    pub vector_sum64: spec_fn(Point3d, Point3d) -> Point3d,
    pub vector_difference64: spec_fn(Point3d, Point3d) -> Point3d,
    pub vector_scaled64: spec_fn(Point3d, Float64) -> Point3d,
    pub vector_divided64: spec_fn(Point3d, Float64) -> Point3d,
    pub norm64: spec_fn(Point3d) -> Float64,
    pub normalized64: spec_fn(Point3d) -> Point3d,
    pub matrix_product64: spec_fn(Matrix3d, Matrix3d) -> Matrix3d,
    pub trace64: spec_fn(Matrix3d) -> Float64,
    pub arc_cosine64: spec_fn(Float64) -> Float64,
    pub to_degrees64: spec_fn(Float64) -> Float64,
    pub rotated: spec_fn(Quaternion, Point3d) -> Point3d,
    pub composed: spec_fn(Quaternion, Quaternion) -> Quaternion,
    pub renormalized: spec_fn(Quaternion) -> Quaternion,
    pub inverted: spec_fn(Quaternion) -> Quaternion,
    pub axis_angle: spec_fn(Point3d, Float64) -> Quaternion,
    pub scaled_axis: spec_fn(Point3d) -> Quaternion,
    pub quaternion_of: spec_fn(Matrix3d) -> Quaternion,
    pub matrix_of: spec_fn(Quaternion) -> Matrix3d,
    pub to_u64: spec_fn(Float64) -> u64,
}

/// Every result that `n` can return is the one that `g` gives.
pub open spec fn computes<N: Numerics>(n: N, g: Arithmetic) -> bool {
    &&& forall|a: Float32, b: Float32, r: Float32| #[trigger]
        call_ensures(N::sum, (&n, a, b), r) ==> r == (g.sum)(a, b)
    &&& forall|a: Float32, b: Float32, r: Float32| #[trigger]
        call_ensures(N::difference, (&n, a, b), r) ==> r == (g.difference)(a, b)
    &&& forall|a: Float32, b: Float32, r: Float32| #[trigger]
        call_ensures(N::product, (&n, a, b), r) ==> r == (g.product)(a, b)
    &&& forall|a: Float32, b: Float32, r: Float32| #[trigger]
        call_ensures(N::quotient, (&n, a, b), r) ==> r == (g.quotient)(a, b)
    &&& forall|a: Float32, r: Float32| #[trigger]
        call_ensures(N::square_root, (&n, a), r) ==> r == (g.square_root)(a)
    &&& forall|count: u64, r: Float32| #[trigger]
        call_ensures(N::from_count, (&n, count), r) ==> r == (g.from_count)(count)
    &&& forall|a: Float32, r: i32| #[trigger]
        call_ensures(N::floor_i32, (&n, a), r) ==> r == (g.floor_i32)(a)
    &&& forall|a: Float32, r: u64| #[trigger]
        call_ensures(N::floor_u64, (&n, a), r) ==> r == (g.floor_u64)(a)
    &&& forall|a: Float32, r: u64| #[trigger]
        call_ensures(N::ceil_u64, (&n, a), r) ==> r == (g.ceil_u64)(a)
    &&& forall|a: Point3, b: Point3, r: Point3| #[trigger]
        call_ensures(N::vector_sum, (&n, a, b), r) ==> r == (g.vector_sum)(a, b)
    &&& forall|a: Point3, b: Point3, r: Point3| #[trigger]
        call_ensures(N::vector_difference, (&n, a, b), r) ==> r == (g.vector_difference)(a, b)
    &&& forall|a: Point3, s: Float32, r: Point3| #[trigger]
        call_ensures(N::vector_scaled, (&n, a, s), r) ==> r == (g.vector_scaled)(a, s)
    &&& forall|a: Point3, s: Float32, r: Point3| #[trigger]
        call_ensures(N::vector_divided, (&n, a, s), r) ==> r == (g.vector_divided)(a, s)
    &&& forall|a: Point3, b: Point3, r: Float32| #[trigger]
        call_ensures(N::dot, (&n, a, b), r) ==> r == (g.dot)(a, b)
    &&& forall|a: Point3, b: Point3, r: Point3| #[trigger]
        call_ensures(N::cross, (&n, a, b), r) ==> r == (g.cross)(a, b)
    &&& forall|a: Point3, r: Float32| #[trigger]
        call_ensures(N::norm, (&n, a), r) ==> r == (g.norm)(a)
    &&& forall|a: Point3, r: Float32| #[trigger]
        call_ensures(N::norm_squared, (&n, a), r) ==> r == (g.norm_squared)(a)
    &&& forall|m: Matrix3, a: Point3, r: Point3| #[trigger]
        call_ensures(N::transformed, (&n, m, a), r) ==> r == (g.transformed)(m, a)
    &&& forall|a: Point3, b: Point3, r: Matrix3| #[trigger]
        call_ensures(N::outer, (&n, a, b), r) ==> r == (g.outer)(a, b)
    &&& forall|a: Matrix3, b: Matrix3, r: Matrix3| #[trigger]
        call_ensures(N::matrix_sum, (&n, a, b), r) ==> r == (g.matrix_sum)(a, b)
    &&& forall|a: Matrix3, s: Float32, r: Matrix3| #[trigger]
        call_ensures(N::matrix_scaled, (&n, a, s), r) ==> r == (g.matrix_scaled)(a, s)
    &&& forall|a: Matrix3, s: Float32, r: Matrix3| #[trigger]
        call_ensures(N::matrix_divided, (&n, a, s), r) ==> r == (g.matrix_divided)(a, s)
    &&& forall|m: Matrix3, r: Eigen3| #[trigger]
        call_ensures(N::symmetric_eigen, (&n, m), r) ==> r == (g.symmetric_eigen)(m)
    &&& forall|a: Float64, b: Float64, r: Float64| #[trigger]
        call_ensures(N::sum64, (&n, a, b), r) ==> r == (g.sum64)(a, b)
    &&& forall|a: Float64, b: Float64, r: Float64| #[trigger]
        call_ensures(N::difference64, (&n, a, b), r) ==> r == (g.difference64)(a, b)
    &&& forall|a: Float64, b: Float64, r: Float64| #[trigger]
        call_ensures(N::product64, (&n, a, b), r) ==> r == (g.product64)(a, b)
    &&& forall|a: Float64, b: Float64, r: Float64| #[trigger]
        call_ensures(N::quotient64, (&n, a, b), r) ==> r == (g.quotient64)(a, b)
    &&& forall|count: u64, r: Float64| #[trigger]
        call_ensures(N::from_count64, (&n, count), r) ==> r == (g.from_count64)(count)
    &&& forall|a: Float64, r: Float64| #[trigger]
        call_ensures(N::ln64, (&n, a), r) ==> r == (g.ln64)(a)
    &&& forall|a: Float64, r: Float64| #[trigger]
        call_ensures(N::ln_1p64, (&n, a), r) ==> r == (g.ln_1p64)(a)
    &&& forall|a: Float64, r: Float64| #[trigger]
        call_ensures(N::ceil64, (&n, a), r) ==> r == (g.ceil64)(a)
    &&& forall|a: Float64, r: Float32| #[trigger]
        call_ensures(N::narrow, (&n, a), r) ==> r == (g.narrow)(a)
    &&& forall|a: Float32, r: Float64| #[trigger]
        call_ensures(N::widen, (&n, a), r) ==> r == (g.widen)(a)
    &&& forall|a: Float32, r: Float32| #[trigger]
        call_ensures(N::to_degrees, (&n, a), r) ==> r == (g.to_degrees)(a)
    &&& forall|a: Float32, r: Float32| #[trigger]
        call_ensures(N::to_radians, (&n, a), r) ==> r == (g.to_radians)(a)
    &&& forall|a: Float32, r: Float32| #[trigger]
        call_ensures(N::cosine, (&n, a), r) ==> r == (g.cosine)(a)
    &&& forall|a: Float32, r: Float32| #[trigger]
        call_ensures(N::arc_cosine, (&n, a), r) ==> r == (g.arc_cosine)(a)
    &&& forall|a: Float32, r: u32| #[trigger]
        call_ensures(N::floor_u32, (&n, a), r) ==> r == (g.floor_u32)(a)
    &&& forall|a: Matrix3, b: Matrix3, r: Matrix3| #[trigger]
        call_ensures(N::matrix_product, (&n, a, b), r) ==> r == (g.matrix_product)(a, b)
    &&& forall|m: Matrix3, r: Float32| #[trigger]
        call_ensures(N::trace, (&n, m), r) ==> r == (g.trace)(m)
    &&& forall|a: Point3, r: Matrix3| #[trigger]
        call_ensures(N::scaled_axis_rotation, (&n, a), r) ==> r == (g.scaled_axis_rotation)(a)
    &&& forall|m: Matrix6, r: Eigen6| #[trigger]
        call_ensures(N::symmetric_eigen6, (&n, m), r) ==> r == (g.symmetric_eigen6)(m)
    &&& forall|a: Vector6, b: Vector6, r: Float32| #[trigger]
        call_ensures(N::dot6, (&n, a, b), r) ==> r == (g.dot6)(a, b)
    &&& forall|a: Point3d, b: Point3d, r: Point3d| #[trigger]
        call_ensures(N::vector_sum64, (&n, a, b), r) ==> r == (g.vector_sum64)(a, b)
    &&& forall|a: Point3d, b: Point3d, r: Point3d| #[trigger]
        call_ensures(N::vector_difference64, (&n, a, b), r) ==> r == (g.vector_difference64)(a, b)
    &&& forall|a: Point3d, s: Float64, r: Point3d| #[trigger]
        call_ensures(N::vector_scaled64, (&n, a, s), r) ==> r == (g.vector_scaled64)(a, s)
    &&& forall|a: Point3d, s: Float64, r: Point3d| #[trigger]
        call_ensures(N::vector_divided64, (&n, a, s), r) ==> r == (g.vector_divided64)(a, s)
    &&& forall|a: Point3d, r: Float64| #[trigger]
        call_ensures(N::norm64, (&n, a), r) ==> r == (g.norm64)(a)
    &&& forall|a: Point3d, r: Point3d| #[trigger]
        call_ensures(N::normalized64, (&n, a), r) ==> r == (g.normalized64)(a)
    &&& forall|a: Matrix3d, b: Matrix3d, r: Matrix3d| #[trigger]
        call_ensures(N::matrix_product64, (&n, a, b), r) ==> r == (g.matrix_product64)(a, b)
    &&& forall|m: Matrix3d, r: Float64| #[trigger]
        call_ensures(N::trace64, (&n, m), r) ==> r == (g.trace64)(m)
    &&& forall|a: Float64, r: Float64| #[trigger]
        call_ensures(N::arc_cosine64, (&n, a), r) ==> r == (g.arc_cosine64)(a)
    &&& forall|a: Float64, r: Float64| #[trigger]
        call_ensures(N::to_degrees64, (&n, a), r) ==> r == (g.to_degrees64)(a)
    &&& forall|q: Quaternion, a: Point3d, r: Point3d| #[trigger]
        call_ensures(N::rotated, (&n, q, a), r) ==> r == (g.rotated)(q, a)
    &&& forall|a: Quaternion, b: Quaternion, r: Quaternion| #[trigger]
        call_ensures(N::composed, (&n, a, b), r) ==> r == (g.composed)(a, b)
    &&& forall|q: Quaternion, r: Quaternion| #[trigger]
        call_ensures(N::renormalized, (&n, q), r) ==> r == (g.renormalized)(q)
    &&& forall|q: Quaternion, r: Quaternion| #[trigger]
        call_ensures(N::inverted, (&n, q), r) ==> r == (g.inverted)(q)
    &&& forall|axis: Point3d, angle: Float64, r: Quaternion| #[trigger]
        call_ensures(N::axis_angle, (&n, axis, angle), r) ==> r == (g.axis_angle)(axis, angle)
    &&& forall|a: Point3d, r: Quaternion| #[trigger]
        call_ensures(N::scaled_axis, (&n, a), r) ==> r == (g.scaled_axis)(a)
    &&& forall|m: Matrix3d, r: Quaternion| #[trigger]
        call_ensures(N::quaternion_of, (&n, m), r) ==> r == (g.quaternion_of)(m)
    &&& forall|q: Quaternion, r: Matrix3d| #[trigger]
        call_ensures(N::matrix_of, (&n, q), r) ==> r == (g.matrix_of)(q)
    &&& forall|a: Float64, r: u64| #[trigger]
        call_ensures(N::to_u64, (&n, a), r) ==> r == (g.to_u64)(a)
}

/// `a`, rounded to single precision.
pub open spec fn narrow_point(g: Arithmetic, a: Point3d) -> Point3 {
    Point3 { x: (g.narrow)(a.x), y: (g.narrow)(a.y), z: (g.narrow)(a.z) }
}

/// `pose`, rounded to single precision.
pub open spec fn narrow_pose_spec(g: Arithmetic, pose: Pose64) -> Pose {
    Pose {
        rotation: Matrix3 {
            c0: narrow_point(g, pose.rotation.c0),
            c1: narrow_point(g, pose.rotation.c1),
            c2: narrow_point(g, pose.rotation.c2),
        },
        translation: narrow_point(g, pose.translation),
    }
}

fn narrow_coordinates<N: Numerics>(n: &N, a: Point3d) -> (r: Point3)
    ensures
        forall|g: Arithmetic| #[trigger] computes(*n, g) ==> r == narrow_point(g, a),
{
    Point3 { x: n.narrow(a.x), y: n.narrow(a.y), z: n.narrow(a.z) }
}

pub fn narrow_pose<N: Numerics>(n: &N, pose: &Pose64) -> (r: Pose)
    ensures
        forall|g: Arithmetic| #[trigger] computes(*n, g) ==> r == narrow_pose_spec(g, *pose),
{
    Pose {
        rotation: Matrix3 {
            c0: narrow_coordinates(n, pose.rotation.c0),
            c1: narrow_coordinates(n, pose.rotation.c1),
            c2: narrow_coordinates(n, pose.rotation.c2),
        },
        translation: narrow_coordinates(n, pose.translation),
    }
}

/// `a`, in double precision.
pub open spec fn widen_point(g: Arithmetic, a: Point3) -> Point3d {
    Point3d { x: (g.widen)(a.x), y: (g.widen)(a.y), z: (g.widen)(a.z) }
}

/// `pose`, in double precision.
pub open spec fn widen_pose_spec(g: Arithmetic, pose: Pose) -> Pose64 {
    Pose64 {
        rotation: Matrix3d {
            c0: widen_point(g, pose.rotation.c0),
            c1: widen_point(g, pose.rotation.c1),
            c2: widen_point(g, pose.rotation.c2),
        },
        translation: widen_point(g, pose.translation),
    }
}

pub fn widen_coordinates<N: Numerics>(n: &N, a: Point3) -> (r: Point3d)
    ensures
        forall|g: Arithmetic| #[trigger] computes(*n, g) ==> r == widen_point(g, a),
{
    Point3d { x: n.widen(a.x), y: n.widen(a.y), z: n.widen(a.z) }
}

pub fn widen_pose<N: Numerics>(n: &N, pose: Pose) -> (r: Pose64)
    ensures
        forall|g: Arithmetic| #[trigger] computes(*n, g) ==> r == widen_pose_spec(g, pose),
{
    Pose64 {
        rotation: Matrix3d {
            c0: widen_coordinates(n, pose.rotation.c0),
            c1: widen_coordinates(n, pose.rotation.c1),
            c2: widen_coordinates(n, pose.rotation.c2),
        },
        translation: widen_coordinates(n, pose.translation),
    }
}

/// Where `pose` takes `p`.
pub open spec fn world_point_spec(g: Arithmetic, pose: Pose, p: Point3) -> Point3 {
    (g.vector_sum)((g.transformed)(pose.rotation, p), pose.translation)
}

pub fn world_point<N: Numerics>(n: &N, pose: Pose, p: Point3) -> (r: Point3)
    ensures
        forall|g: Arithmetic| #[trigger] computes(*n, g) ==> r == world_point_spec(g, pose, p),
{
    n.vector_sum(n.transformed(pose.rotation, p), pose.translation)
}

// ---------------------------------------------------------------------------
// What poses do
// ---------------------------------------------------------------------------

/// A pose turns a point first and shifts it then: the shift taken away, the turned point
/// is left, where a sum less its second part is the first. The pose that turns and shifts
/// nothing takes every point to itself.
pub proof fn poses_turn_and_shift(g: Arithmetic, pose: Pose, p: Point3)
    requires
        forall|a: Point3, b: Point3| #[trigger]
            (g.vector_difference)((g.vector_sum)(a, b), b) == a,
        forall|a: Point3| #[trigger] (g.vector_sum)(a, Point3::origin_spec()) == a,
    ensures
        (g.vector_difference)(world_point_spec(g, pose, p), pose.translation)
            == (g.transformed)(pose.rotation, p),
        (g.transformed)(pose.rotation, p) == p && pose.translation == Point3::origin_spec()
            ==> world_point_spec(g, pose, p) == p,
        (g.transformed)(pose.rotation, p) == Point3::origin_spec() && (forall|a: Point3|
            #[trigger] (g.vector_sum)(Point3::origin_spec(), a) == a) ==> world_point_spec(
            g,
            pose,
            p,
        ) == pose.translation,
{
}

/// A transposed matrix has rows for columns, and transposing it again gives the matrix.
pub proof fn transposing_exchanges_rows_and_columns(m: Matrix3, wide: Matrix3d)
    ensures
        m.transposed_spec().transposed_spec() == m,
        m.transposed_spec().c0 == (Point3 { x: m.c0.x, y: m.c1.x, z: m.c2.x }),
        m.transposed_spec().c1.z == m.c2.y && m.transposed_spec().c2.y == m.c1.z,
        wide.transposed_spec().transposed_spec() == wide,
        wide.transposed_spec().c0 == (Point3d { x: wide.c0.x, y: wide.c1.x, z: wide.c2.x }),
        wide.transposed_spec().c1.z == wide.c2.y && wide.transposed_spec().c2.y == wide.c1.z,
{
}

/// Widening a pose and narrowing it gives the pose back, where this is so of numbers.
/// Every coordinate stays at its place.
pub proof fn widened_poses_narrow_back(g: Arithmetic, pose: Pose, wide: Pose64)
    requires
        forall|a: Float32| #[trigger] (g.narrow)((g.widen)(a)) == a,
    ensures
        narrow_pose_spec(g, widen_pose_spec(g, pose)) == pose,
        ({
            let (from, to) = (wide.rotation, narrow_pose_spec(g, wide).rotation);
            &&& to.c0.x == (g.narrow)(from.c0.x) && to.c0.y == (g.narrow)(from.c0.y) && to.c0.z
                == (g.narrow)(from.c0.z)
            &&& to.c1.x == (g.narrow)(from.c1.x) && to.c1.y == (g.narrow)(from.c1.y) && to.c1.z
                == (g.narrow)(from.c1.z)
            &&& to.c2.x == (g.narrow)(from.c2.x) && to.c2.y == (g.narrow)(from.c2.y) && to.c2.z
                == (g.narrow)(from.c2.z)
        }),
        ({
            let (from, to) = (wide.translation, narrow_pose_spec(g, wide).translation);
            &&& to.x == (g.narrow)(from.x)
            &&& to.y == (g.narrow)(from.y)
            &&& to.z == (g.narrow)(from.z)
        }),
{
    let back = narrow_pose_spec(g, widen_pose_spec(g, pose));
    assert(back.rotation.c0 == pose.rotation.c0);
    assert(back.rotation.c1 == pose.rotation.c1);
    assert(back.rotation.c2 == pose.rotation.c2);
    assert(back.translation == pose.translation);
}

/// The origin and the empty matrix are zero at every place, and a point or a matrix is
/// finite where each number of it is.
pub proof fn origins_are_zero_everywhere(p: Point3, m: Matrix3)
    ensures
        ({
            let zero = Float32 { bits: 0 };
            let o = Point3::origin_spec();
            let z = Matrix3::zeros_spec();
            &&& o.x == zero && o.y == zero && o.z == zero
            &&& z.c0 == o && z.c1 == o && z.c2 == o
        }),
        p.is_finite_spec() <==> p.x.is_finite_spec() && p.y.is_finite_spec()
            && p.z.is_finite_spec(),
        m.is_finite_spec() <==> m.c0.is_finite_spec() && m.c1.is_finite_spec()
            && m.c2.is_finite_spec(),
{
}

} // verus!
