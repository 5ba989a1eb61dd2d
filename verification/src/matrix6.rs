//! Vectors and matrices of dimension six.

use vstd::prelude::*;

use crate::float::Float32;

verus! {

/// Six numbers.
#[derive(Clone, Copy, Debug, PartialEq, Eq, Structural)]
pub struct Vector6 {
    pub e0: Float32,
    pub e1: Float32,
    pub e2: Float32,
    pub e3: Float32,
    pub e4: Float32,
    pub e5: Float32,
}

/// The vector whose entry `i` is `f(i)`.
pub open spec fn vector6_of(f: spec_fn(int) -> Float32) -> Vector6 {
    Vector6 { e0: f(0), e1: f(1), e2: f(2), e3: f(3), e4: f(4), e5: f(5) }
}

impl Vector6 {
    /// Entry `i`.
    pub open spec fn entry_spec(self, i: int) -> Float32 {
        if i == 0 {
            self.e0
        } else if i == 1 {
            self.e1
        } else if i == 2 {
            self.e2
        } else if i == 3 {
            self.e3
        } else if i == 4 {
            self.e4
        } else {
            self.e5
        }
    }

    pub fn entry(self, i: usize) -> (r: Float32)
        requires
            i < 6,
        ensures
            r == self.entry_spec(i as int),
    {
        if i == 0 {
            self.e0
        } else if i == 1 {
            self.e1
        } else if i == 2 {
            self.e2
        } else if i == 3 {
            self.e3
        } else if i == 4 {
            self.e4
        } else {
            self.e5
        }
    }

    pub open spec fn zeros_spec() -> Vector6 {
        vector6_of(|i: int| Float32::zero_spec())
    }

    #[verifier::when_used_as_spec(zeros_spec)]
    pub fn zeros() -> (r: Vector6)
        ensures
            r == Vector6::zeros_spec(),
    {
        let zero = Float32::zero();
        Vector6 { e0: zero, e1: zero, e2: zero, e3: zero, e4: zero, e5: zero }
    }

    pub open spec fn is_finite_spec(self) -> bool {
        self.e0.is_finite_spec() && self.e1.is_finite_spec() && self.e2.is_finite_spec() && self.e3.is_finite_spec() && self.e4.is_finite_spec() && self.e5.is_finite_spec()
    }

    #[verifier::when_used_as_spec(is_finite_spec)]
    pub fn is_finite(self) -> (r: bool)
        ensures
            r == self.is_finite_spec(),
    {
        self.e0.is_finite() && self.e1.is_finite() && self.e2.is_finite() && self.e3.is_finite() && self.e4.is_finite() && self.e5.is_finite()
    }
}

/// Six rows of six numbers.
#[derive(Clone, Copy, Debug, PartialEq, Eq, Structural)]
pub struct Matrix6 {
    pub r0: Vector6,
    pub r1: Vector6,
    pub r2: Vector6,
    pub r3: Vector6,
    pub r4: Vector6,
    pub r5: Vector6,
}

/// The matrix whose entry in row `i` and column `j` is `f(i, j)`.
pub open spec fn matrix6_of(f: spec_fn(int, int) -> Float32) -> Matrix6 {
    Matrix6 {
        r0: vector6_of(|j: int| f(0, j)),
        r1: vector6_of(|j: int| f(1, j)),
        r2: vector6_of(|j: int| f(2, j)),
        r3: vector6_of(|j: int| f(3, j)),
        r4: vector6_of(|j: int| f(4, j)),
        r5: vector6_of(|j: int| f(5, j)),
    }
}

impl Matrix6 {
    pub open spec fn row_spec(self, i: int) -> Vector6 {
        if i == 0 {
            self.r0
        } else if i == 1 {
            self.r1
        } else if i == 2 {
            self.r2
        } else if i == 3 {
            self.r3
        } else if i == 4 {
            self.r4
        } else {
            self.r5
        }
    }

    pub fn row(self, i: usize) -> (r: Vector6)
        requires
            i < 6,
        ensures
            r == self.row_spec(i as int),
    {
        if i == 0 {
            self.r0
        } else if i == 1 {
            self.r1
        } else if i == 2 {
            self.r2
        } else if i == 3 {
            self.r3
        } else if i == 4 {
            self.r4
        } else {
            self.r5
        }
    }

    /// The entry in row `i` and column `j`.
    pub open spec fn entry_spec(self, i: int, j: int) -> Float32 {
        self.row_spec(i).entry_spec(j)
    }

    pub fn entry(self, i: usize, j: usize) -> (r: Float32)
        requires
            i < 6,
            j < 6,
        ensures
            r == self.entry_spec(i as int, j as int),
    {
        self.row(i).entry(j)
    }

    pub open spec fn column_spec(self, j: int) -> Vector6 {
        vector6_of(|i: int| self.entry_spec(i, j))
    }

    pub fn column(self, j: usize) -> (r: Vector6)
        requires
            j < 6,
        ensures
            r == self.column_spec(j as int),
    {
        Vector6 {
            e0: self.entry(0, j),
            e1: self.entry(1, j),
            e2: self.entry(2, j),
            e3: self.entry(3, j),
            e4: self.entry(4, j),
            e5: self.entry(5, j),
        }
    }

    pub open spec fn zeros_spec() -> Matrix6 {
        matrix6_of(|i: int, j: int| Float32::zero_spec())
    }

    #[verifier::when_used_as_spec(zeros_spec)]
    pub fn zeros() -> (r: Matrix6)
        ensures
            r == Matrix6::zeros_spec(),
    {
        let zero = Vector6::zeros();
        Matrix6 { r0: zero, r1: zero, r2: zero, r3: zero, r4: zero, r5: zero }
    }

    pub open spec fn is_finite_spec(self) -> bool {
        self.r0.is_finite_spec() && self.r1.is_finite_spec() && self.r2.is_finite_spec() && self.r3.is_finite_spec() && self.r4.is_finite_spec() && self.r5.is_finite_spec()
    }

    #[verifier::when_used_as_spec(is_finite_spec)]
    pub fn is_finite(self) -> (r: bool)
        ensures
            r == self.is_finite_spec(),
    {
        self.r0.is_finite() && self.r1.is_finite() && self.r2.is_finite() && self.r3.is_finite() && self.r4.is_finite() && self.r5.is_finite()
    }
}

/// Six eigenvalues; column `i` of `vectors` belongs to entry `i` of `values`.
#[derive(Clone, Copy, Debug, PartialEq, Eq, Structural)]
pub struct Eigen6 {
    pub values: Vector6,
    pub vectors: Matrix6,
}

/// A vector or a matrix of given entries has these entries, and columns of a matrix have
/// the entries of its rows.
pub proof fn entries_are_the_given_ones(
    f: spec_fn(int) -> Float32,
    h: spec_fn(int, int) -> Float32,
    m: Matrix6,
    i: int,
    j: int,
)
    requires
        0 <= i < 6,
        0 <= j < 6,
    ensures
        vector6_of(f).entry_spec(i) == f(i),
        matrix6_of(h).entry_spec(i, j) == h(i, j),
        m.column_spec(j).entry_spec(i) == m.row_spec(i).entry_spec(j),
        m.entry_spec(i, j) == m.row_spec(i).entry_spec(j),
        (Vector6::zeros_spec()).entry_spec(i) == (Float32 { bits: 0 }),
        (Matrix6::zeros_spec()).entry_spec(i, j) == (Float32 { bits: 0 }),
        m.is_finite_spec() ==> m.entry_spec(i, j).is_finite_spec(),
{
}

} // verus!
