//! The scalar capability: what a numeric component type must provide so
//! that vectors and bounding boxes can be built over it.
//!
//! A scalar is modeled by a mathematical integer (`sval`). The base
//! capability [`Scalar`] asks for arithmetic, ordering and the named
//! constants zero, one and two; the refinement [`FloatingScalar`] adds a
//! square-root operation and an exact zero test, for the magnitude and
//! normalization operations that are meaningless on plain sums.

use vstd::prelude::*;
use vstd::arithmetic::div_mod::{
    lemma_div_multiples_vanish, lemma_div_nonincreasing, lemma_div_pos_is_pos,
};

verus! {

/// Division rounding toward zero, written over mathematical integers.
/// This is the division semantics of Rust's built-in signed integers.
pub open spec fn trunc_div(x: int, d: int) -> int
    recommends
        d != 0,
{
    if x == 0 {
        0
    } else if x > 0 && d > 0 {
        x / d
    } else if x < 0 && d < 0 {
        (x * -1) / (d * -1)
    } else if x < 0 {
        ((x * -1) / d) * -1
    } else {
        (x / (d * -1)) * -1
    }
}

/// The floor of the square root of `v` (and 0 for negative `v`).
pub open spec fn floor_sqrt(v: int) -> int
    decreases v,
{
    if v <= 0 {
        0
    } else {
        let r = floor_sqrt(v - 1);
        if (r + 1) * (r + 1) <= v {
            r + 1
        } else {
            r
        }
    }
}

/// `floor_sqrt(v)` is the unique nonnegative root with
/// `r * r <= v < (r + 1) * (r + 1)`.
pub proof fn lemma_floor_sqrt_bounds(v: int)
    requires
        v >= 0,
    ensures
        0 <= floor_sqrt(v),
        floor_sqrt(v) * floor_sqrt(v) <= v,
        v < (floor_sqrt(v) + 1) * (floor_sqrt(v) + 1),
    decreases v,
{
    if v > 0 {
        lemma_floor_sqrt_bounds(v - 1);
        let r = floor_sqrt(v - 1);
        if (r + 1) * (r + 1) <= v {
            assert((r + 2) * (r + 2) > (r + 1) * (r + 1)) by (nonlinear_arith)
                requires
                    r >= 0,
            ;
        }
    }
}

/// Any nonnegative `r` with `r * r <= v < (r + 1) * (r + 1)` equals
/// `floor_sqrt(v)`.
pub proof fn lemma_floor_sqrt_unique(v: int, r: int)
    requires
        v >= 0,
        r >= 0,
        r * r <= v,
        v < (r + 1) * (r + 1),
    ensures
        r == floor_sqrt(v),
{
    lemma_floor_sqrt_bounds(v);
    let s = floor_sqrt(v);
    if r < s {
        assert((r + 1) * (r + 1) <= s * s) by (nonlinear_arith)
            requires
                0 <= r + 1 <= s,
        ;
    } else if s < r {
        assert((s + 1) * (s + 1) <= r * r) by (nonlinear_arith)
            requires
                0 <= s + 1 <= r,
        ;
    }
}

/// Scaling by a nonzero integer and then dividing by it, rounding toward
/// zero, gives the original value back exactly.
pub proof fn lemma_trunc_div_exact(a: int, b: int)
    requires
        b != 0,
    ensures
        trunc_div(a * b, b) == a,
{
    if a == 0 {
        assert(a * b == 0) by (nonlinear_arith)
            requires
                a == 0,
        ;
    } else if a > 0 && b > 0 {
        assert(a * b > 0) by (nonlinear_arith)
            requires
                a > 0 && b > 0,
        ;
        lemma_div_multiples_vanish(a, b);
        assert(a * b == b * a) by (nonlinear_arith);
    } else if a < 0 && b > 0 {
        assert(a * b < 0 && (a * b) * -1 == (-a) * b) by (nonlinear_arith)
            requires
                a < 0 && b > 0,
        ;
        lemma_div_multiples_vanish(-a, b);
        assert((-a) * b == b * (-a)) by (nonlinear_arith);
    } else if a > 0 && b < 0 {
        assert(a * b < 0 && (a * b) * -1 == a * (-b)) by (nonlinear_arith)
            requires
                a > 0 && b < 0,
        ;
        lemma_div_multiples_vanish(a, -b);
        assert(a * (-b) == (-b) * a) by (nonlinear_arith);
    } else {
        assert(a * b > 0 && a * b == (-a) * (-b)) by (nonlinear_arith)
            requires
                a < 0 && b < 0,
        ;
        lemma_div_multiples_vanish(-a, -b);
        assert((-a) * (-b) == (-b) * (-a)) by (nonlinear_arith);
    }
}

/// Division rounding toward zero by a positive divisor keeps the result
/// between zero and the dividend.
pub proof fn lemma_trunc_div_pos_bounds(a: int, b: int)
    requires
        b >= 1,
    ensures
        a >= 0 ==> 0 <= trunc_div(a, b) <= a,
        a < 0 ==> a <= trunc_div(a, b) <= 0,
{
    if a > 0 {
        lemma_div_pos_is_pos(a, b);
        lemma_div_nonincreasing(a, b);
    } else if a < 0 {
        lemma_div_pos_is_pos(-a, b);
        lemma_div_nonincreasing(-a, b);
    }
}

/// Capability of a numeric component type. A scalar is modeled by the
/// mathematical integer `sval`; the representable integers form the set
/// `in_range`, and `spec_div` is the type's own division semantics.
///
/// The exec methods never panic: each arithmetic method requires its
/// mathematical result to be representable, and division requires a
/// nonzero divisor.
pub trait Scalar: Sized + Copy {
    /// The mathematical value of this scalar.
    spec fn sval(self) -> int;

    /// Whether a mathematical integer is representable as this type.
    spec fn in_range(v: int) -> bool;

    /// The type's own division semantics, on representable operands with
    /// a nonzero divisor.
    spec fn spec_div(a: int, b: int) -> int;

    /// Every value of the type is representable.
    proof fn lemma_in_range(self)
        ensures
            Self::in_range(self.sval()),
    ;

    /// Dividing by a positive divisor keeps a representable dividend
    /// representable.
    proof fn lemma_div_pos_in_range(a: int, b: int)
        requires
            Self::in_range(a),
            b >= 1,
        ensures
            Self::in_range(Self::spec_div(a, b)),
    ;

    /// Scaling by a nonzero scalar and dividing by it again is exact.
    proof fn lemma_mul_div_cancel(a: int, b: int)
        requires
            b != 0,
        ensures
            Self::spec_div(a * b, b) == a,
    ;

    /// The named constant zero.
    fn zero() -> (r: Self)
        ensures
            r.sval() == 0,
    ;

    /// The named constant one.
    fn one() -> (r: Self)
        ensures
            r.sval() == 1,
    ;

    /// The named constant two.
    fn two() -> (r: Self)
        ensures
            r.sval() == 2,
    ;

    /// Addition; the caller owes a representable sum.
    fn add(self, other: Self) -> (r: Self)
        requires
            Self::in_range(self.sval() + other.sval()),
        ensures
            r.sval() == self.sval() + other.sval(),
    ;

    /// Subtraction; the caller owes a representable difference.
    fn sub(self, other: Self) -> (r: Self)
        requires
            Self::in_range(self.sval() - other.sval()),
        ensures
            r.sval() == self.sval() - other.sval(),
    ;

    /// Multiplication; the caller owes a representable product.
    fn mul(self, other: Self) -> (r: Self)
        requires
            Self::in_range(self.sval() * other.sval()),
        ensures
            r.sval() == self.sval() * other.sval(),
    ;

    /// Division by a nonzero scalar, with the type's own semantics.
    fn div(self, other: Self) -> (r: Self)
        requires
            other.sval() != 0,
            Self::in_range(Self::spec_div(self.sval(), other.sval())),
        ensures
            r.sval() == Self::spec_div(self.sval(), other.sval()),
    ;

    /// Negation; the caller owes a representable opposite.
    fn neg(self) -> (r: Self)
        requires
            Self::in_range(-self.sval()),
        ensures
            r.sval() == -self.sval(),
    ;

    /// Strict ordering comparison.
    fn lt(self, other: Self) -> (r: bool)
        ensures
            r == (self.sval() < other.sval()),
    ;
}

/// Refinement of [`Scalar`] for component types on which magnitudes and
/// distances are meaningful: adds a square-root operation and an exact
/// zero test. In the integer model the square root is the floor root,
/// pinned by `lemma_sqrt_bounds`.
pub trait FloatingScalar: Scalar {
    /// The mathematical value of the type's square root on a
    /// representable nonnegative argument.
    spec fn spec_sqrt(v: int) -> int;

    /// The square root is the unique nonnegative floor root.
    proof fn lemma_sqrt_bounds(v: int)
        requires
            v >= 0,
        ensures
            0 <= Self::spec_sqrt(v),
            Self::spec_sqrt(v) * Self::spec_sqrt(v) <= v,
            v < (Self::spec_sqrt(v) + 1) * (Self::spec_sqrt(v) + 1),
    ;

    /// The square root of a nonnegative scalar.
    fn sqrt(self) -> (r: Self)
        requires
            self.sval() >= 0,
        ensures
            r.sval() == Self::spec_sqrt(self.sval()),
    ;

    /// Exact zero test.
    fn is_zero(self) -> (r: bool)
        ensures
            r == (self.sval() == 0),
    ;
}

impl Scalar for i64 {
    open spec fn sval(self) -> int {
        self as int
    }

    open spec fn in_range(v: int) -> bool {
        i64::MIN <= v <= i64::MAX
    }

    open spec fn spec_div(a: int, b: int) -> int {
        trunc_div(a, b)
    }

    proof fn lemma_in_range(self) {
    }

    proof fn lemma_div_pos_in_range(a: int, b: int) {
        lemma_trunc_div_pos_bounds(a, b);
    }

    proof fn lemma_mul_div_cancel(a: int, b: int) {
        lemma_trunc_div_exact(a, b);
    }

    fn zero() -> i64 {
        0
    }

    fn one() -> i64 {
        1
    }

    fn two() -> i64 {
        2
    }

    fn add(self, other: i64) -> i64 {
        self + other
    }

    fn sub(self, other: i64) -> i64 {
        self - other
    }

    fn mul(self, other: i64) -> i64 {
        self * other
    }

    fn div(self, other: i64) -> i64 {
        match self.checked_div(other) {
            Some(v) => v,
            None => vstd::pervasive::unreached(),
        }
    }

    fn neg(self) -> i64 {
        -self
    }

    fn lt(self, other: i64) -> bool {
        self < other
    }
}

impl FloatingScalar for i64 {
    open spec fn spec_sqrt(v: int) -> int {
        floor_sqrt(v)
    }

    proof fn lemma_sqrt_bounds(v: int) {
        lemma_floor_sqrt_bounds(v);
    }

    fn sqrt(self) -> (r: i64) {
        let mut r: i64 = 0;
        loop
            invariant
                0 <= r,
                r * r <= self as int,
            ensures
                0 <= r,
                r * r <= self as int,
                (self as int) < (r + 1) * (r + 1),
            decreases self as int - r * r,
        {
            proof {
                assert(r < 3037000500) by (nonlinear_arith)
                    requires
                        0 <= r,
                        r * r <= i64::MAX,
                ;
            }
            let next = r + 1;
            match next.checked_mul(next) {
                Some(sq) => {
                    if sq <= self {
                        proof {
                            assert(r * r < next * next) by (nonlinear_arith)
                                requires
                                    0 <= r && next == r + 1,
                            ;
                        }
                        r = next;
                    } else {
                        break;
                    }
                },
                None => {
                    break;
                },
            }
        }
        proof {
            lemma_floor_sqrt_unique(self as int, r as int);
        }
        r
    }

    fn is_zero(self) -> bool {
        self == 0
    }
}

impl Scalar for i32 {
    open spec fn sval(self) -> int {
        self as int
    }

    open spec fn in_range(v: int) -> bool {
        i32::MIN <= v <= i32::MAX
    }

    open spec fn spec_div(a: int, b: int) -> int {
        trunc_div(a, b)
    }

    proof fn lemma_in_range(self) {
    }

    proof fn lemma_div_pos_in_range(a: int, b: int) {
        lemma_trunc_div_pos_bounds(a, b);
    }

    proof fn lemma_mul_div_cancel(a: int, b: int) {
        lemma_trunc_div_exact(a, b);
    }

    fn zero() -> i32 {
        0
    }

    fn one() -> i32 {
        1
    }

    fn two() -> i32 {
        2
    }

    fn add(self, other: i32) -> i32 {
        self + other
    }

    fn sub(self, other: i32) -> i32 {
        self - other
    }

    fn mul(self, other: i32) -> i32 {
        self * other
    }

    fn div(self, other: i32) -> i32 {
        match self.checked_div(other) {
            Some(v) => v,
            None => vstd::pervasive::unreached(),
        }
    }

    fn neg(self) -> i32 {
        -self
    }

    fn lt(self, other: i32) -> bool {
        self < other
    }
}

impl FloatingScalar for i32 {
    open spec fn spec_sqrt(v: int) -> int {
        floor_sqrt(v)
    }

    proof fn lemma_sqrt_bounds(v: int) {
        lemma_floor_sqrt_bounds(v);
    }

    fn sqrt(self) -> (r: i32) {
        let mut r: i32 = 0;
        loop
            invariant
                0 <= r,
                r * r <= self as int,
            ensures
                0 <= r,
                r * r <= self as int,
                (self as int) < (r + 1) * (r + 1),
            decreases self as int - r * r,
        {
            proof {
                assert(r < 46341) by (nonlinear_arith)
                    requires
                        0 <= r,
                        r * r <= i32::MAX,
                ;
            }
            let next = r + 1;
            match next.checked_mul(next) {
                Some(sq) => {
                    if sq <= self {
                        proof {
                            assert(r * r < next * next) by (nonlinear_arith)
                                requires
                                    0 <= r && next == r + 1,
                            ;
                        }
                        r = next;
                    } else {
                        break;
                    }
                },
                None => {
                    break;
                },
            }
        }
        proof {
            lemma_floor_sqrt_unique(self as int, r as int);
        }
        r
    }

    fn is_zero(self) -> bool {
        self == 0
    }
}

} // verus!
