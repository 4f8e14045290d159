//! Traits for working with fixed-arity numeric tuples as geometric
//! primitives: componentwise vector arithmetic and axis-aligned
//! bounding boxes, together with named-dimension accessors.
//!
//! Every scalar component is modeled by its mathematical integer value
//! (see [`scalar::Scalar`]), a vector by the sequence of those values,
//! and every operation carries a contract that pins the result down
//! componentwise.

pub mod aabb;
pub mod scalar;

use vstd::prelude::*;
use crate::scalar::{FloatingScalar, Scalar};

verus! {

broadcast use vstd::array::group_array_axioms;

/// The all-zero sequence of length `n`: the model of a zero vector.
pub open spec fn zero_seq(n: nat) -> Seq<int> {
    Seq::new(n, |i: int| 0)
}

/// Componentwise sum of two equal-length sequences.
pub open spec fn add_seq(a: Seq<int>, b: Seq<int>) -> Seq<int>
    recommends
        a.len() == b.len(),
{
    Seq::new(a.len(), |i: int| a[i] + b[i])
}

/// Componentwise difference of two equal-length sequences.
pub open spec fn sub_seq(a: Seq<int>, b: Seq<int>) -> Seq<int>
    recommends
        a.len() == b.len(),
{
    Seq::new(a.len(), |i: int| a[i] - b[i])
}

/// Every component scaled by `s`.
pub open spec fn mul_seq(a: Seq<int>, s: int) -> Seq<int> {
    Seq::new(a.len(), |i: int| a[i] * s)
}

/// Every component divided by `s`, with the division semantics of the
/// scalar type `S`.
pub open spec fn div_seq<S: Scalar>(a: Seq<int>, s: int) -> Seq<int>
    recommends
        s != 0,
{
    Seq::new(a.len(), |i: int| S::spec_div(a[i], s))
}

/// Componentwise (Hadamard) product of two equal-length sequences.
pub open spec fn mul2_seq(a: Seq<int>, b: Seq<int>) -> Seq<int>
    recommends
        a.len() == b.len(),
{
    Seq::new(a.len(), |i: int| a[i] * b[i])
}

/// Componentwise (Hadamard) quotient of two equal-length sequences,
/// with the division semantics of the scalar type `S`.
pub open spec fn div2_seq<S: Scalar>(a: Seq<int>, b: Seq<int>) -> Seq<int>
    recommends
        a.len() == b.len(),
        forall|i: int| 0 <= i < b.len() ==> b[i] != 0,
{
    Seq::new(a.len(), |i: int| S::spec_div(a[i], b[i]))
}

/// Componentwise negation.
pub open spec fn neg_seq(a: Seq<int>) -> Seq<int> {
    Seq::new(a.len(), |i: int| -a[i])
}

/// Componentwise linear interpolation from `a` to `b` at parameter `t`:
/// `(1 - t) * a[i] + t * b[i]`. Values of `t` outside `[0, 1]`
/// extrapolate.
pub open spec fn lerp_seq(a: Seq<int>, b: Seq<int>, t: int) -> Seq<int>
    recommends
        a.len() == b.len(),
{
    Seq::new(a.len(), |i: int| (1 - t) * a[i] + t * b[i])
}

/// Sum of the squared components: the squared magnitude.
pub open spec fn sq_mag(s: Seq<int>) -> int
    decreases s.len(),
{
    if s.len() == 0 {
        0
    } else {
        sq_mag(s.drop_last()) + s.last() * s.last()
    }
}

/// Sum over matching components of the products: the dot product.
pub open spec fn dot_seq(a: Seq<int>, b: Seq<int>) -> int
    recommends
        a.len() == b.len(),
    decreases a.len(),
{
    if a.len() == 0 || b.len() == 0 {
        0
    } else {
        dot_seq(a.drop_last(), b.drop_last()) + a.last() * b.last()
    }
}

/// Extending a prefix by one component adds that component's square.
pub proof fn lemma_sq_mag_step(s: Seq<int>, k: int)
    requires
        0 <= k < s.len(),
    ensures
        sq_mag(s.take(k + 1)) == sq_mag(s.take(k)) + s[k] * s[k],
{
    assert(s.take(k + 1).drop_last() =~= s.take(k));
}

/// A sum of squares is nonnegative.
pub proof fn lemma_sq_mag_nonneg(s: Seq<int>)
    ensures
        sq_mag(s) >= 0,
    decreases s.len(),
{
    if s.len() > 0 {
        lemma_sq_mag_nonneg(s.drop_last());
        let l = s.last();
        assert(l * l >= 0) by (nonlinear_arith);
    }
}

/// Extending both prefixes by one component adds that product.
pub proof fn lemma_dot_seq_step(a: Seq<int>, b: Seq<int>, k: int)
    requires
        a.len() == b.len(),
        0 <= k < a.len(),
    ensures
        dot_seq(a.take(k + 1), b.take(k + 1)) == dot_seq(a.take(k), b.take(k)) + a[k] * b[k],
{
    assert(a.take(k + 1).drop_last() =~= a.take(k));
    assert(b.take(k + 1).drop_last() =~= b.take(k));
}

/// Trait for basic vector math operations over a fixed arity.
///
/// A vector is modeled by `vals`, the sequence of the mathematical
/// values of its components; its length is the arity, fixed at the type
/// level. Binary operations take a vector of the same type, so equal
/// arity is enforced by the type system.
pub trait VecN: Sized {
    /// The scalar component type.
    type Scalar: Scalar;

    /// The dimensionality of the vector.
    spec fn arity() -> nat;

    /// The model: the mathematical values of the components, in order.
    spec fn vals(self) -> Seq<int>;

    /// The model has exactly `arity` components, all representable.
    proof fn lemma_wf(self)
        ensures
            self.vals().len() == Self::arity(),
            forall|i: int|
                0 <= i < self.vals().len() ==> Self::Scalar::in_range(#[trigger] self.vals()[i]),
    ;

    /// The dimensionality of the vector, as a machine word.
    fn n() -> (r: usize)
        ensures
            r as nat == Self::arity(),
    ;

    /// The zero vector.
    fn zero() -> (r: Self)
        ensures
            r.vals() == zero_seq(Self::arity()),
    ;

    /// Get the value of a dimension.
    fn dim(&self, dim: usize) -> (r: Self::Scalar)
        requires
            (dim as nat) < Self::arity(),
        ensures
            r.sval() == self.vals()[dim as int],
    ;

    /// Set the value of a dimension.
    fn set_dim(&mut self, dim: usize, val: Self::Scalar)
        requires
            (dim as nat) < Self::arity(),
        ensures
            final(self).vals() == old(self).vals().update(dim as int, val.sval()),
    ;

    /// Add to the vector in place.
    fn add_assign(&mut self, other: Self)
        requires
            forall|j: int|
                0 <= j < Self::arity() ==> #[trigger] Self::Scalar::in_range(
                    old(self).vals()[j] + other.vals()[j],
                ),
        ensures
            final(self).vals() == add_seq(old(self).vals(), other.vals()),
    {
        proof {
            old(self).lemma_wf();
            other.lemma_wf();
        }
        let n = Self::n();
        let mut i: usize = 0;
        while i < n
            invariant
                n as nat == Self::arity(),
                i <= n,
                self.vals().len() == Self::arity(),
                other.vals().len() == Self::arity(),
                old(self).vals().len() == Self::arity(),
                forall|j: int| 0 <= j < i ==> self.vals()[j] == old(self).vals()[j] + other.vals()[j],
                forall|j: int| i <= j < n ==> self.vals()[j] == old(self).vals()[j],
                forall|j: int|
                    0 <= j < n ==> #[trigger] Self::Scalar::in_range(
                        old(self).vals()[j] + other.vals()[j],
                    ),
            decreases n - i,
        {
            let a = self.dim(i);
            let b = other.dim(i);
            self.set_dim(i, a.add(b));
            i = i + 1;
        }
        proof {
            assert(self.vals() =~= add_seq(old(self).vals(), other.vals()));
        }
    }

    /// Add the vector to another.
    fn add(self, other: Self) -> (r: Self)
        requires
            forall|j: int|
                0 <= j < Self::arity() ==> #[trigger] Self::Scalar::in_range(
                    self.vals()[j] + other.vals()[j],
                ),
        ensures
            r.vals() == add_seq(self.vals(), other.vals()),
    {
        let mut m = self;
        m.add_assign(other);
        m
    }

    /// Subtract from the vector in place.
    fn sub_assign(&mut self, other: Self)
        requires
            forall|j: int|
                0 <= j < Self::arity() ==> #[trigger] Self::Scalar::in_range(
                    old(self).vals()[j] - other.vals()[j],
                ),
        ensures
            final(self).vals() == sub_seq(old(self).vals(), other.vals()),
    {
        proof {
            old(self).lemma_wf();
            other.lemma_wf();
        }
        let n = Self::n();
        let mut i: usize = 0;
        while i < n
            invariant
                n as nat == Self::arity(),
                i <= n,
                self.vals().len() == Self::arity(),
                other.vals().len() == Self::arity(),
                old(self).vals().len() == Self::arity(),
                forall|j: int| 0 <= j < i ==> self.vals()[j] == old(self).vals()[j] - other.vals()[j],
                forall|j: int| i <= j < n ==> self.vals()[j] == old(self).vals()[j],
                forall|j: int|
                    0 <= j < n ==> #[trigger] Self::Scalar::in_range(
                        old(self).vals()[j] - other.vals()[j],
                    ),
            decreases n - i,
        {
            let a = self.dim(i);
            let b = other.dim(i);
            self.set_dim(i, a.sub(b));
            i = i + 1;
        }
        proof {
            assert(self.vals() =~= sub_seq(old(self).vals(), other.vals()));
        }
    }

    /// Subtract a vector from this one.
    fn sub(self, other: Self) -> (r: Self)
        requires
            forall|j: int|
                0 <= j < Self::arity() ==> #[trigger] Self::Scalar::in_range(
                    self.vals()[j] - other.vals()[j],
                ),
        ensures
            r.vals() == sub_seq(self.vals(), other.vals()),
    {
        let mut m = self;
        m.sub_assign(other);
        m
    }

    /// Multiply the vector by a scalar value in place.
    fn mul_assign(&mut self, by: Self::Scalar)
        requires
            forall|j: int|
                0 <= j < Self::arity() ==> #[trigger] Self::Scalar::in_range(
                    old(self).vals()[j] * by.sval(),
                ),
        ensures
            final(self).vals() == mul_seq(old(self).vals(), by.sval()),
    {
        proof {
            old(self).lemma_wf();
        }
        let n = Self::n();
        let mut i: usize = 0;
        while i < n
            invariant
                n as nat == Self::arity(),
                i <= n,
                self.vals().len() == Self::arity(),
                old(self).vals().len() == Self::arity(),
                forall|j: int| 0 <= j < i ==> self.vals()[j] == old(self).vals()[j] * by.sval(),
                forall|j: int| i <= j < n ==> self.vals()[j] == old(self).vals()[j],
                forall|j: int|
                    0 <= j < n ==> #[trigger] Self::Scalar::in_range(
                        old(self).vals()[j] * by.sval(),
                    ),
            decreases n - i,
        {
            let a = self.dim(i);
            self.set_dim(i, a.mul(by));
            i = i + 1;
        }
        proof {
            assert(self.vals() =~= mul_seq(old(self).vals(), by.sval()));
        }
    }

    /// Multiply the vector by a scalar value.
    fn mul(self, by: Self::Scalar) -> (r: Self)
        requires
            forall|j: int|
                0 <= j < Self::arity() ==> #[trigger] Self::Scalar::in_range(
                    self.vals()[j] * by.sval(),
                ),
        ensures
            r.vals() == mul_seq(self.vals(), by.sval()),
    {
        let mut m = self;
        m.mul_assign(by);
        m
    }

    /// Divide the vector by a nonzero scalar value in place.
    fn div_assign(&mut self, by: Self::Scalar)
        requires
            by.sval() != 0,
            forall|j: int|
                0 <= j < Self::arity() ==> #[trigger] Self::Scalar::in_range(
                    Self::Scalar::spec_div(old(self).vals()[j], by.sval()),
                ),
        ensures
            final(self).vals() == div_seq::<Self::Scalar>(old(self).vals(), by.sval()),
    {
        proof {
            old(self).lemma_wf();
        }
        let n = Self::n();
        let mut i: usize = 0;
        while i < n
            invariant
                n as nat == Self::arity(),
                i <= n,
                by.sval() != 0,
                self.vals().len() == Self::arity(),
                old(self).vals().len() == Self::arity(),
                forall|j: int|
                    0 <= j < i ==> self.vals()[j] == Self::Scalar::spec_div(
                        old(self).vals()[j],
                        by.sval(),
                    ),
                forall|j: int| i <= j < n ==> self.vals()[j] == old(self).vals()[j],
                forall|j: int|
                    0 <= j < n ==> #[trigger] Self::Scalar::in_range(
                        Self::Scalar::spec_div(old(self).vals()[j], by.sval()),
                    ),
            decreases n - i,
        {
            let a = self.dim(i);
            self.set_dim(i, a.div(by));
            i = i + 1;
        }
        proof {
            assert(self.vals() =~= div_seq::<Self::Scalar>(old(self).vals(), by.sval()));
        }
    }

    /// Divide the vector by a nonzero scalar value.
    fn div(self, by: Self::Scalar) -> (r: Self)
        requires
            by.sval() != 0,
            forall|j: int|
                0 <= j < Self::arity() ==> #[trigger] Self::Scalar::in_range(
                    Self::Scalar::spec_div(self.vals()[j], by.sval()),
                ),
        ensures
            r.vals() == div_seq::<Self::Scalar>(self.vals(), by.sval()),
    {
        let mut m = self;
        m.div_assign(by);
        m
    }

    /// Element-wise multiply the vector by another in place.
    fn mul2_assign(&mut self, other: Self)
        requires
            forall|j: int|
                0 <= j < Self::arity() ==> #[trigger] Self::Scalar::in_range(
                    old(self).vals()[j] * other.vals()[j],
                ),
        ensures
            final(self).vals() == mul2_seq(old(self).vals(), other.vals()),
    {
        proof {
            old(self).lemma_wf();
            other.lemma_wf();
        }
        let n = Self::n();
        let mut i: usize = 0;
        while i < n
            invariant
                n as nat == Self::arity(),
                i <= n,
                self.vals().len() == Self::arity(),
                other.vals().len() == Self::arity(),
                old(self).vals().len() == Self::arity(),
                forall|j: int| 0 <= j < i ==> self.vals()[j] == old(self).vals()[j] * other.vals()[j],
                forall|j: int| i <= j < n ==> self.vals()[j] == old(self).vals()[j],
                forall|j: int|
                    0 <= j < n ==> #[trigger] Self::Scalar::in_range(
                        old(self).vals()[j] * other.vals()[j],
                    ),
            decreases n - i,
        {
            let a = self.dim(i);
            let b = other.dim(i);
            self.set_dim(i, a.mul(b));
            i = i + 1;
        }
        proof {
            assert(self.vals() =~= mul2_seq(old(self).vals(), other.vals()));
        }
    }

    /// Element-wise multiply the vector by another.
    fn mul2(self, other: Self) -> (r: Self)
        requires
            forall|j: int|
                0 <= j < Self::arity() ==> #[trigger] Self::Scalar::in_range(
                    self.vals()[j] * other.vals()[j],
                ),
        ensures
            r.vals() == mul2_seq(self.vals(), other.vals()),
    {
        let mut m = self;
        m.mul2_assign(other);
        m
    }

    /// Element-wise divide the vector by another in place; every
    /// component of the divisor must be nonzero.
    fn div2_assign(&mut self, other: Self)
        requires
            forall|j: int| 0 <= j < Self::arity() ==> #[trigger] other.vals()[j] != 0,
            forall|j: int|
                0 <= j < Self::arity() ==> #[trigger] Self::Scalar::in_range(
                    Self::Scalar::spec_div(old(self).vals()[j], other.vals()[j]),
                ),
        ensures
            final(self).vals() == div2_seq::<Self::Scalar>(old(self).vals(), other.vals()),
    {
        proof {
            old(self).lemma_wf();
            other.lemma_wf();
        }
        let n = Self::n();
        let mut i: usize = 0;
        while i < n
            invariant
                n as nat == Self::arity(),
                i <= n,
                self.vals().len() == Self::arity(),
                other.vals().len() == Self::arity(),
                old(self).vals().len() == Self::arity(),
                forall|j: int| 0 <= j < n ==> #[trigger] other.vals()[j] != 0,
                forall|j: int|
                    0 <= j < i ==> self.vals()[j] == Self::Scalar::spec_div(
                        old(self).vals()[j],
                        other.vals()[j],
                    ),
                forall|j: int| i <= j < n ==> self.vals()[j] == old(self).vals()[j],
                forall|j: int|
                    0 <= j < n ==> #[trigger] Self::Scalar::in_range(
                        Self::Scalar::spec_div(old(self).vals()[j], other.vals()[j]),
                    ),
            decreases n - i,
        {
            let a = self.dim(i);
            let b = other.dim(i);
            self.set_dim(i, a.div(b));
            i = i + 1;
        }
        proof {
            assert(self.vals() =~= div2_seq::<Self::Scalar>(old(self).vals(), other.vals()));
        }
    }

    /// Element-wise divide the vector by another; every component of the
    /// divisor must be nonzero.
    fn div2(self, other: Self) -> (r: Self)
        requires
            forall|j: int| 0 <= j < Self::arity() ==> #[trigger] other.vals()[j] != 0,
            forall|j: int|
                0 <= j < Self::arity() ==> #[trigger] Self::Scalar::in_range(
                    Self::Scalar::spec_div(self.vals()[j], other.vals()[j]),
                ),
        ensures
            r.vals() == div2_seq::<Self::Scalar>(self.vals(), other.vals()),
    {
        let mut m = self;
        m.div2_assign(other);
        m
    }

    /// Negate the vector in place.
    fn neg_assign(&mut self)
        requires
            forall|j: int|
                0 <= j < Self::arity() ==> #[trigger] Self::Scalar::in_range(
                    -old(self).vals()[j],
                ),
        ensures
            final(self).vals() == neg_seq(old(self).vals()),
    {
        proof {
            old(self).lemma_wf();
        }
        let n = Self::n();
        let mut i: usize = 0;
        while i < n
            invariant
                n as nat == Self::arity(),
                i <= n,
                self.vals().len() == Self::arity(),
                old(self).vals().len() == Self::arity(),
                forall|j: int| 0 <= j < i ==> self.vals()[j] == -old(self).vals()[j],
                forall|j: int| i <= j < n ==> self.vals()[j] == old(self).vals()[j],
                forall|j: int|
                    0 <= j < n ==> #[trigger] Self::Scalar::in_range(-old(self).vals()[j]),
            decreases n - i,
        {
            let a = self.dim(i);
            self.set_dim(i, a.neg());
            i = i + 1;
        }
        proof {
            assert(self.vals() =~= neg_seq(old(self).vals()));
        }
    }

    /// Negate the vector.
    fn neg(self) -> (r: Self)
        requires
            forall|j: int|
                0 <= j < Self::arity() ==> #[trigger] Self::Scalar::in_range(-self.vals()[j]),
        ensures
            r.vals() == neg_seq(self.vals()),
    {
        let mut m = self;
        m.neg_assign();
        m
    }

    /// Linearly interpolate the vector with another in place; `t`
    /// outside `[0, 1]` extrapolates.
    fn lerp_assign(&mut self, other: Self, t: Self::Scalar)
        requires
            Self::Scalar::in_range(1 - t.sval()),
            forall|j: int|
                0 <= j < Self::arity() ==> #[trigger] Self::Scalar::in_range(
                    (1 - t.sval()) * old(self).vals()[j],
                ),
            forall|j: int|
                0 <= j < Self::arity() ==> #[trigger] Self::Scalar::in_range(
                    t.sval() * other.vals()[j],
                ),
            forall|j: int|
                0 <= j < Self::arity() ==> #[trigger] Self::Scalar::in_range(
                    (1 - t.sval()) * old(self).vals()[j] + t.sval() * other.vals()[j],
                ),
        ensures
            final(self).vals() == lerp_seq(old(self).vals(), other.vals(), t.sval()),
    {
        proof {
            old(self).lemma_wf();
            other.lemma_wf();
        }
        let nt = Self::Scalar::one().sub(t);
        let n = Self::n();
        let mut i: usize = 0;
        while i < n
            invariant
                n as nat == Self::arity(),
                i <= n,
                nt.sval() == 1 - t.sval(),
                self.vals().len() == Self::arity(),
                other.vals().len() == Self::arity(),
                old(self).vals().len() == Self::arity(),
                forall|j: int|
                    0 <= j < i ==> self.vals()[j] == (1 - t.sval()) * old(self).vals()[j] + t.sval()
                        * other.vals()[j],
                forall|j: int| i <= j < n ==> self.vals()[j] == old(self).vals()[j],
                forall|j: int|
                    0 <= j < n ==> #[trigger] Self::Scalar::in_range(
                        (1 - t.sval()) * old(self).vals()[j],
                    ),
                forall|j: int|
                    0 <= j < n ==> #[trigger] Self::Scalar::in_range(t.sval() * other.vals()[j]),
                forall|j: int|
                    0 <= j < n ==> #[trigger] Self::Scalar::in_range(
                        (1 - t.sval()) * old(self).vals()[j] + t.sval() * other.vals()[j],
                    ),
            decreases n - i,
        {
            let a = self.dim(i);
            let b = other.dim(i);
            self.set_dim(i, nt.mul(a).add(t.mul(b)));
            i = i + 1;
        }
        proof {
            assert(self.vals() =~= lerp_seq(old(self).vals(), other.vals(), t.sval()));
        }
    }

    /// Linearly interpolate the vector with another; `t` outside
    /// `[0, 1]` extrapolates.
    fn lerp(self, other: Self, t: Self::Scalar) -> (r: Self)
        requires
            Self::Scalar::in_range(1 - t.sval()),
            forall|j: int|
                0 <= j < Self::arity() ==> #[trigger] Self::Scalar::in_range(
                    (1 - t.sval()) * self.vals()[j],
                ),
            forall|j: int|
                0 <= j < Self::arity() ==> #[trigger] Self::Scalar::in_range(
                    t.sval() * other.vals()[j],
                ),
            forall|j: int|
                0 <= j < Self::arity() ==> #[trigger] Self::Scalar::in_range(
                    (1 - t.sval()) * self.vals()[j] + t.sval() * other.vals()[j],
                ),
        ensures
            r.vals() == lerp_seq(self.vals(), other.vals(), t.sval()),
    {
        let mut m = self;
        m.lerp_assign(other, t);
        m
    }

    /// Get the squared magnitude of the vector: the literal sum of its
    /// squared components. Avoids the square root where it is not
    /// needed, such as when comparing distances.
    fn squared_mag(&self) -> (r: Self::Scalar)
        requires
            forall|j: int|
                0 <= j < Self::arity() ==> #[trigger] Self::Scalar::in_range(
                    self.vals()[j] * self.vals()[j],
                ),
            forall|k: int|
                0 <= k <= Self::arity() ==> #[trigger] Self::Scalar::in_range(
                    sq_mag(self.vals().take(k)),
                ),
        ensures
            r.sval() == sq_mag(self.vals()),
    {
        proof {
            self.lemma_wf();
        }
        let n = Self::n();
        let mut acc = Self::Scalar::zero();
        let mut i: usize = 0;
        while i < n
            invariant
                n as nat == Self::arity(),
                i <= n,
                self.vals().len() == Self::arity(),
                acc.sval() == sq_mag(self.vals().take(i as int)),
                forall|j: int|
                    0 <= j < n ==> #[trigger] Self::Scalar::in_range(
                        self.vals()[j] * self.vals()[j],
                    ),
                forall|k: int|
                    0 <= k <= n ==> #[trigger] Self::Scalar::in_range(
                        sq_mag(self.vals().take(k)),
                    ),
            decreases n - i,
        {
            let d = self.dim(i);
            proof {
                lemma_sq_mag_step(self.vals(), i as int);
            }
            acc = acc.add(d.mul(d));
            i = i + 1;
        }
        proof {
            assert(self.vals().take(n as int) == self.vals());
        }
        acc
    }

    /// Get the squared distance between this vector and another: the
    /// squared magnitude of the componentwise difference.
    fn squared_dist(self, other: Self) -> (r: Self::Scalar)
        requires
            forall|j: int|
                0 <= j < Self::arity() ==> #[trigger] Self::Scalar::in_range(
                    self.vals()[j] - other.vals()[j],
                ),
            forall|j: int|
                0 <= j < Self::arity() ==> #[trigger] Self::Scalar::in_range(
                    (self.vals()[j] - other.vals()[j]) * (self.vals()[j] - other.vals()[j]),
                ),
            forall|k: int|
                0 <= k <= Self::arity() ==> #[trigger] Self::Scalar::in_range(
                    sq_mag(sub_seq(self.vals(), other.vals()).take(k)),
                ),
        ensures
            r.sval() == sq_mag(sub_seq(self.vals(), other.vals())),
    {
        proof {
            self.lemma_wf();
            other.lemma_wf();
            assert forall|j: int| 0 <= j < Self::arity() implies #[trigger] Self::Scalar::in_range(
                sub_seq(self.vals(), other.vals())[j] * sub_seq(self.vals(), other.vals())[j],
            ) by {
                assert(sub_seq(self.vals(), other.vals())[j] == self.vals()[j] - other.vals()[j]);
            }
        }
        let d = self.sub(other);
        d.squared_mag()
    }

    /// Get the minimum component value. The vector must have at least
    /// one dimension: there is no minimum of an empty set.
    fn min_dim(&self) -> (r: Self::Scalar)
        requires
            0 < Self::arity(),
        ensures
            exists|i: int| 0 <= i < Self::arity() && r.sval() == self.vals()[i],
            forall|i: int| 0 <= i < Self::arity() ==> r.sval() <= #[trigger] self.vals()[i],
    {
        proof {
            self.lemma_wf();
        }
        let n = Self::n();
        let mut best = self.dim(0);
        let mut i: usize = 1;
        while i < n
            invariant
                n as nat == Self::arity(),
                1 <= i <= n,
                self.vals().len() == Self::arity(),
                exists|k: int| 0 <= k < i && best.sval() == self.vals()[k],
                forall|k: int| 0 <= k < i ==> best.sval() <= #[trigger] self.vals()[k],
            decreases n - i,
        {
            let d = self.dim(i);
            if d.lt(best) {
                best = d;
            }
            i = i + 1;
        }
        best
    }

    /// Get the maximum component value. The vector must have at least
    /// one dimension: there is no maximum of an empty set.
    fn max_dim(&self) -> (r: Self::Scalar)
        requires
            0 < Self::arity(),
        ensures
            exists|i: int| 0 <= i < Self::arity() && r.sval() == self.vals()[i],
            forall|i: int| 0 <= i < Self::arity() ==> self.vals()[i] <= r.sval(),
    {
        proof {
            self.lemma_wf();
        }
        let n = Self::n();
        let mut best = self.dim(0);
        let mut i: usize = 1;
        while i < n
            invariant
                n as nat == Self::arity(),
                1 <= i <= n,
                self.vals().len() == Self::arity(),
                exists|k: int| 0 <= k < i && best.sval() == self.vals()[k],
                forall|k: int| 0 <= k < i ==> #[trigger] self.vals()[k] <= best.sval(),
            decreases n - i,
        {
            let d = self.dim(i);
            if best.lt(d) {
                best = d;
            }
            i = i + 1;
        }
        best
    }

    /// Dot the vector with another: the sum over the components of the
    /// products of matching components.
    fn dot(self, other: Self) -> (r: Self::Scalar)
        requires
            forall|j: int|
                0 <= j < Self::arity() ==> #[trigger] Self::Scalar::in_range(
                    self.vals()[j] * other.vals()[j],
                ),
            forall|k: int|
                0 <= k <= Self::arity() ==> #[trigger] Self::Scalar::in_range(
                    dot_seq(self.vals().take(k), other.vals().take(k)),
                ),
        ensures
            r.sval() == dot_seq(self.vals(), other.vals()),
    {
        proof {
            self.lemma_wf();
            other.lemma_wf();
        }
        let n = Self::n();
        let mut acc = Self::Scalar::zero();
        let mut i: usize = 0;
        while i < n
            invariant
                n as nat == Self::arity(),
                i <= n,
                self.vals().len() == Self::arity(),
                other.vals().len() == Self::arity(),
                acc.sval() == dot_seq(self.vals().take(i as int), other.vals().take(i as int)),
                forall|j: int|
                    0 <= j < n ==> #[trigger] Self::Scalar::in_range(
                        self.vals()[j] * other.vals()[j],
                    ),
                forall|k: int|
                    0 <= k <= n ==> #[trigger] Self::Scalar::in_range(
                        dot_seq(self.vals().take(k), other.vals().take(k)),
                    ),
            decreases n - i,
        {
            let a = self.dim(i);
            let b = other.dim(i);
            proof {
                lemma_dot_seq_step(self.vals(), other.vals(), i as int);
            }
            acc = acc.add(a.mul(b));
            i = i + 1;
        }
        proof {
            assert(self.vals().take(n as int) == self.vals());
            assert(other.vals().take(n as int) == other.vals());
        }
        acc
    }
}

/// Trait for vector operations that are only meaningful over a
/// [`FloatingScalar`]: magnitude, distance and normalization, each
/// pinned to the scalar type's square root `spec_sqrt`.
pub trait FloatingVecN: VecN where Self::Scalar: FloatingScalar {
    /// Get the magnitude of the vector: the scalar type's square root
    /// of the squared magnitude.
    fn mag(&self) -> (r: Self::Scalar)
        requires
            forall|j: int|
                0 <= j < Self::arity() ==> #[trigger] Self::Scalar::in_range(
                    self.vals()[j] * self.vals()[j],
                ),
            forall|k: int|
                0 <= k <= Self::arity() ==> #[trigger] Self::Scalar::in_range(
                    sq_mag(self.vals().take(k)),
                ),
        ensures
            r.sval() == Self::Scalar::spec_sqrt(sq_mag(self.vals())),
    {
        let sq = self.squared_mag();
        proof {
            lemma_sq_mag_nonneg(self.vals());
        }
        sq.sqrt()
    }

    /// Get the distance between the vector and another: the magnitude
    /// of the componentwise difference.
    fn dist(self, other: Self) -> (r: Self::Scalar)
        requires
            forall|j: int|
                0 <= j < Self::arity() ==> #[trigger] Self::Scalar::in_range(
                    self.vals()[j] - other.vals()[j],
                ),
            forall|j: int|
                0 <= j < Self::arity() ==> #[trigger] Self::Scalar::in_range(
                    (self.vals()[j] - other.vals()[j]) * (self.vals()[j] - other.vals()[j]),
                ),
            forall|k: int|
                0 <= k <= Self::arity() ==> #[trigger] Self::Scalar::in_range(
                    sq_mag(sub_seq(self.vals(), other.vals()).take(k)),
                ),
        ensures
            r.sval() == Self::Scalar::spec_sqrt(sq_mag(sub_seq(self.vals(), other.vals()))),
    {
        let sq = self.squared_dist(other);
        proof {
            lemma_sq_mag_nonneg(sub_seq(self.vals(), other.vals()));
        }
        sq.sqrt()
    }

    /// Get the unit vector: the vector divided by its magnitude, or the
    /// zero vector if the magnitude is exactly zero (instead of a
    /// division by zero).
    fn unit(self) -> (r: Self)
        requires
            forall|j: int|
                0 <= j < Self::arity() ==> #[trigger] Self::Scalar::in_range(
                    self.vals()[j] * self.vals()[j],
                ),
            forall|k: int|
                0 <= k <= Self::arity() ==> #[trigger] Self::Scalar::in_range(
                    sq_mag(self.vals().take(k)),
                ),
        ensures
            Self::Scalar::spec_sqrt(sq_mag(self.vals())) == 0 ==> r.vals() == zero_seq(
                Self::arity(),
            ),
            Self::Scalar::spec_sqrt(sq_mag(self.vals())) != 0 ==> r.vals() == div_seq::<
                Self::Scalar,
            >(self.vals(), Self::Scalar::spec_sqrt(sq_mag(self.vals()))),
    {
        let m = self.mag();
        if m.is_zero() {
            Self::zero()
        } else {
            proof {
                self.lemma_wf();
                lemma_sq_mag_nonneg(self.vals());
                Self::Scalar::lemma_sqrt_bounds(sq_mag(self.vals()));
                assert forall|j: int| 0 <= j < Self::arity() implies
                    #[trigger] Self::Scalar::in_range(
                    Self::Scalar::spec_div(self.vals()[j], m.sval()),
                ) by {
                    Self::Scalar::lemma_div_pos_in_range(self.vals()[j], m.sval());
                }
            }
            self.div(m)
        }
    }
}

impl<V: VecN> FloatingVecN for V where V::Scalar: FloatingScalar {

}

/// Trait for vectors with an X dimension: a pure alias for dimension 0.
pub trait XVec: VecN {
    /// Get the value of the dimension.
    fn x(&self) -> (r: Self::Scalar)
        requires
            0 < Self::arity(),
        ensures
            r.sval() == self.vals()[0],
    {
        self.dim(0)
    }

    /// Set the value of the dimension.
    fn set_x(&mut self, v: Self::Scalar)
        requires
            0 < Self::arity(),
        ensures
            final(self).vals() == old(self).vals().update(0, v.sval()),
    {
        self.set_dim(0, v);
    }
}

impl<V: VecN> XVec for V {

}

/// Trait for vectors with a Y dimension: a pure alias for dimension 1.
pub trait YVec: VecN {
    /// Get the value of the dimension.
    fn y(&self) -> (r: Self::Scalar)
        requires
            1 < Self::arity(),
        ensures
            r.sval() == self.vals()[1],
    {
        self.dim(1)
    }

    /// Set the value of the dimension.
    fn set_y(&mut self, v: Self::Scalar)
        requires
            1 < Self::arity(),
        ensures
            final(self).vals() == old(self).vals().update(1, v.sval()),
    {
        self.set_dim(1, v);
    }
}

impl<V: VecN> YVec for V {

}

/// Trait for vectors with a Z dimension: a pure alias for dimension 2.
pub trait ZVec: VecN {
    /// Get the value of the dimension.
    fn z(&self) -> (r: Self::Scalar)
        requires
            2 < Self::arity(),
        ensures
            r.sval() == self.vals()[2],
    {
        self.dim(2)
    }

    /// Set the value of the dimension.
    fn set_z(&mut self, v: Self::Scalar)
        requires
            2 < Self::arity(),
        ensures
            final(self).vals() == old(self).vals().update(2, v.sval()),
    {
        self.set_dim(2, v);
    }
}

impl<V: VecN> ZVec for V {

}

/// Trait for vectors with a W dimension: a pure alias for dimension 3.
pub trait WVec: VecN {
    /// Get the value of the dimension.
    fn w(&self) -> (r: Self::Scalar)
        requires
            3 < Self::arity(),
        ensures
            r.sval() == self.vals()[3],
    {
        self.dim(3)
    }

    /// Set the value of the dimension.
    fn set_w(&mut self, v: Self::Scalar)
        requires
            3 < Self::arity(),
        ensures
            final(self).vals() == old(self).vals().update(3, v.sval()),
    {
        self.set_dim(3, v);
    }
}

impl<V: VecN> WVec for V {

}

/// Adding a vector and then subtracting the same vector gives the
/// original vector back, componentwise, for equal-arity models.
pub proof fn lemma_add_sub_cancel(a: Seq<int>, b: Seq<int>)
    requires
        a.len() == b.len(),
    ensures
        sub_seq(add_seq(a, b), b) == a,
{
    assert(sub_seq(add_seq(a, b), b) =~= a);
}

/// Scaling a vector by a nonzero scalar and then dividing by the same
/// scalar gives the original vector back exactly, for any scalar type.
pub proof fn lemma_mul_div_cancel_seq<S: Scalar>(a: Seq<int>, s: int)
    requires
        s != 0,
    ensures
        div_seq::<S>(mul_seq(a, s), s) == a,
{
    assert forall|i: int| 0 <= i < a.len() implies #[trigger] div_seq::<S>(mul_seq(a, s), s)[i]
        == a[i] by {
        S::lemma_mul_div_cancel(a[i], s);
    }
    assert(div_seq::<S>(mul_seq(a, s), s) =~= a);
}

/// Interpolating at parameter zero gives the first vector exactly.
pub proof fn lemma_lerp_zero(a: Seq<int>, b: Seq<int>)
    requires
        a.len() == b.len(),
    ensures
        lerp_seq(a, b, 0) == a,
{
    assert(lerp_seq(a, b, 0) =~= a);
}

/// Interpolating at parameter one gives the second vector exactly.
pub proof fn lemma_lerp_one(a: Seq<int>, b: Seq<int>)
    requires
        a.len() == b.len(),
    ensures
        lerp_seq(a, b, 1) == b,
{
    assert(lerp_seq(a, b, 1) =~= b);
}

impl<T: Scalar, const N: usize> VecN for [T; N] {
    type Scalar = T;

    open spec fn arity() -> nat {
        N as nat
    }

    open spec fn vals(self) -> Seq<int> {
        self@.map(|i: int, t: T| t.sval())
    }

    proof fn lemma_wf(self) {
        assert forall|i: int| 0 <= i < self.vals().len() implies T::in_range(
            #[trigger] self.vals()[i],
        ) by {
            self@[i].lemma_in_range();
        }
    }

    fn n() -> usize {
        N
    }

    fn zero() -> (r: [T; N]) {
        let z: [T; N] = vstd::array::array_fill_for_copy_types(T::zero());
        proof {
            assert(z.vals() =~= zero_seq(N as nat));
        }
        z
    }

    fn dim(&self, dim: usize) -> (r: T) {
        self[dim]
    }

    fn set_dim(&mut self, dim: usize, val: T) {
        self[dim] = val;
        proof {
            assert(self.vals() =~= old(self).vals().update(dim as int, val.sval()));
        }
    }
}

} // verus!
