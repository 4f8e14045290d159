//! Axis-aligned bounding boxes: an origin vector paired with a size
//! vector of the same arity, with containment tests and bounding-box
//! computation over point sets.
//!
//! A box is modeled by the two sequences `origin_vals` and `size_vals`.
//! A size component is conventionally nonnegative, but this is not an
//! enforced invariant: a negative size simply gives an inverted (empty)
//! containment test, as the caller's responsibility.

use vstd::prelude::*;
use crate::scalar::Scalar;
use crate::{zero_seq, VecN};

verus! {

/// Whether a point lies in the box given by origin `o` and size `s`,
/// inclusive on both boundaries in every dimension.
pub open spec fn contains_spec(o: Seq<int>, s: Seq<int>, p: Seq<int>) -> bool {
    forall|i: int| 0 <= i < o.len() ==> o[i] <= #[trigger] p[i] <= o[i] + s[i]
}

/// The center of each dimension: the origin plus half the size, with
/// the division semantics of the scalar type `S`.
pub open spec fn center_seq<S: Scalar>(o: Seq<int>, s: Seq<int>) -> Seq<int>
    recommends
        o.len() == s.len(),
{
    Seq::new(o.len(), |i: int| o[i] + S::spec_div(s[i], 2))
}

/// Whether the value `v` occurs as coordinate `i` of one of the first
/// `bound` points of `ps`.
pub open spec fn coord_attained(v: int, ps: Seq<Seq<int>>, i: int, bound: int) -> bool {
    exists|j: int| 0 <= j < bound && v == #[trigger] ps[j][i]
}

/// A point index witnessing that `v` is attained as coordinate `i`.
pub proof fn lemma_coord_attained_witness(v: int, ps: Seq<Seq<int>>, i: int, bound: int) -> (j: int)
    requires
        coord_attained(v, ps, i, bound),
    ensures
        0 <= j < bound,
        v == ps[j][i],
{
    choose|j: int| 0 <= j < bound && v == #[trigger] ps[j][i]
}

/// A value attained among the first `b1` points is attained among the
/// first `b2 >= b1` points.
pub proof fn lemma_coord_attained_widen(v: int, ps: Seq<Seq<int>>, i: int, b1: int, b2: int)
    requires
        coord_attained(v, ps, i, b1),
        b1 <= b2,
    ensures
        coord_attained(v, ps, i, b2),
{
    let j0 = lemma_coord_attained_witness(v, ps, i, b1);
    assert(v == ps[j0][i]);
}

/// Whether the box given by origin `o` and size `s` is the minimal box
/// enclosing the nonempty point set `ps`: in every dimension the origin
/// is an attained lower bound of the coordinates and the end an
/// attained upper bound.
pub open spec fn is_bounding_of(o: Seq<int>, s: Seq<int>, ps: Seq<Seq<int>>) -> bool {
    &&& ps.len() > 0
    &&& forall|i: int, k: int|
        0 <= i < o.len() && 0 <= k < ps.len() ==> o[i] <= #[trigger] ps[k][i]
    &&& forall|i: int|
        0 <= i < o.len() ==> #[trigger] coord_attained(o[i], ps, i, ps.len() as int)
    &&& forall|i: int, k: int|
        0 <= i < o.len() && 0 <= k < ps.len() ==> #[trigger] ps[k][i] <= o[i] + s[i]
    &&& forall|i: int|
        0 <= i < o.len() ==> #[trigger] coord_attained(o[i] + s[i], ps, i, ps.len() as int)
}

/// Trait for axis-aligned bounding boxes over a [`VecN`] vector type.
pub trait Aabb: Sized {
    /// The vector type of the box's origin, size and points.
    type Vector: VecN + Copy;

    /// The model of the origin: the mathematical values of its
    /// components, in order.
    spec fn origin_vals(self) -> Seq<int>;

    /// The model of the size: the mathematical values of its
    /// components, in order.
    spec fn size_vals(self) -> Seq<int>;

    /// Both model sequences have exactly the vector arity as length,
    /// and every component is representable.
    proof fn lemma_wf(self)
        ensures
            self.origin_vals().len() == Self::Vector::arity(),
            self.size_vals().len() == Self::Vector::arity(),
            forall|i: int|
                0 <= i < self.origin_vals().len() ==> <Self::Vector as VecN>::Scalar::in_range(
                    #[trigger] self.origin_vals()[i],
                ),
            forall|i: int|
                0 <= i < self.size_vals().len() ==> <Self::Vector as VecN>::Scalar::in_range(
                    #[trigger] self.size_vals()[i],
                ),
    ;

    /// The origin-aligned box with zero volume.
    fn origin_zero_size() -> (r: Self)
        ensures
            r.origin_vals() == zero_seq(Self::Vector::arity()),
            r.size_vals() == zero_seq(Self::Vector::arity()),
    ;

    /// Get the origin value of a dimension.
    fn origin_dim(&self, dim: usize) -> (r: <Self::Vector as VecN>::Scalar)
        requires
            (dim as nat) < Self::Vector::arity(),
        ensures
            r.sval() == self.origin_vals()[dim as int],
    ;

    /// Get the size value of a dimension.
    fn size_dim(&self, dim: usize) -> (r: <Self::Vector as VecN>::Scalar)
        requires
            (dim as nat) < Self::Vector::arity(),
        ensures
            r.sval() == self.size_vals()[dim as int],
    ;

    /// Set the origin value of a dimension.
    fn set_origin_dim(&mut self, dim: usize, val: <Self::Vector as VecN>::Scalar)
        requires
            (dim as nat) < Self::Vector::arity(),
        ensures
            final(self).origin_vals() == old(self).origin_vals().update(dim as int, val.sval()),
            final(self).size_vals() == old(self).size_vals(),
    ;

    /// Set the size value of a dimension.
    fn set_size_dim(&mut self, dim: usize, val: <Self::Vector as VecN>::Scalar)
        requires
            (dim as nat) < Self::Vector::arity(),
        ensures
            final(self).size_vals() == old(self).size_vals().update(dim as int, val.sval()),
            final(self).origin_vals() == old(self).origin_vals(),
    ;

    /// Get the end value of a dimension: origin plus size.
    fn end_dim(&self, dim: usize) -> (r: <Self::Vector as VecN>::Scalar)
        requires
            (dim as nat) < Self::Vector::arity(),
            <Self::Vector as VecN>::Scalar::in_range(
                self.origin_vals()[dim as int] + self.size_vals()[dim as int],
            ),
        ensures
            r.sval() == self.origin_vals()[dim as int] + self.size_vals()[dim as int],
    {
        let o = self.origin_dim(dim);
        let s = self.size_dim(dim);
        o.add(s)
    }

    /// Get the center value of a dimension: origin plus half the size.
    fn center_dim(&self, dim: usize) -> (r: <Self::Vector as VecN>::Scalar)
        requires
            (dim as nat) < Self::Vector::arity(),
            <Self::Vector as VecN>::Scalar::in_range(
                self.origin_vals()[dim as int] + <Self::Vector as VecN>::Scalar::spec_div(
                    self.size_vals()[dim as int],
                    2,
                ),
            ),
        ensures
            r.sval() == self.origin_vals()[dim as int] + <Self::Vector as VecN>::Scalar::spec_div(
                self.size_vals()[dim as int],
                2,
            ),
    {
        proof {
            self.lemma_wf();
            <Self::Vector as VecN>::Scalar::lemma_div_pos_in_range(
                self.size_vals()[dim as int],
                2,
            );
        }
        let o = self.origin_dim(dim);
        let s = self.size_dim(dim);
        o.add(s.div(<Self::Vector as VecN>::Scalar::two()))
    }

    /// The center of the box, as a vector.
    fn center(&self) -> (r: Self::Vector)
        requires
            forall|j: int|
                0 <= j < Self::Vector::arity()
                    ==> #[trigger] <Self::Vector as VecN>::Scalar::in_range(
                    self.origin_vals()[j] + <Self::Vector as VecN>::Scalar::spec_div(
                        self.size_vals()[j],
                        2,
                    ),
                ),
        ensures
            r.vals() == center_seq::<<Self::Vector as VecN>::Scalar>(
                self.origin_vals(),
                self.size_vals(),
            ),
    {
        proof {
            self.lemma_wf();
        }
        let n = Self::Vector::n();
        let mut v = Self::Vector::zero();
        let mut i: usize = 0;
        while i < n
            invariant
                n as nat == Self::Vector::arity(),
                i <= n,
                v.vals().len() == Self::Vector::arity(),
                self.origin_vals().len() == Self::Vector::arity(),
                self.size_vals().len() == Self::Vector::arity(),
                forall|j: int|
                    0 <= j < i ==> v.vals()[j] == self.origin_vals()[j] + <Self::Vector as VecN>::Scalar::spec_div(
                        self.size_vals()[j],
                        2,
                    ),
                forall|j: int|
                    0 <= j < n ==> #[trigger] <Self::Vector as VecN>::Scalar::in_range(
                        self.origin_vals()[j] + <Self::Vector as VecN>::Scalar::spec_div(
                            self.size_vals()[j],
                            2,
                        ),
                    ),
            decreases n - i,
        {
            let c = self.center_dim(i);
            v.set_dim(i, c);
            i = i + 1;
        }
        proof {
            assert(v.vals() =~= center_seq::<<Self::Vector as VecN>::Scalar>(
                self.origin_vals(),
                self.size_vals(),
            ));
        }
        v
    }

    /// Check whether the box contains a vector, inclusive on both
    /// boundaries in every dimension.
    fn contains(&self, v: Self::Vector) -> (r: bool)
        requires
            forall|j: int|
                0 <= j < Self::Vector::arity()
                    ==> #[trigger] <Self::Vector as VecN>::Scalar::in_range(
                    self.origin_vals()[j] + self.size_vals()[j],
                ),
        ensures
            r == contains_spec(self.origin_vals(), self.size_vals(), v.vals()),
    {
        proof {
            self.lemma_wf();
            v.lemma_wf();
        }
        let n = Self::Vector::n();
        let mut i: usize = 0;
        while i < n
            invariant
                n as nat == Self::Vector::arity(),
                i <= n,
                v.vals().len() == Self::Vector::arity(),
                self.origin_vals().len() == Self::Vector::arity(),
                self.size_vals().len() == Self::Vector::arity(),
                forall|j: int|
                    0 <= j < i ==> self.origin_vals()[j] <= #[trigger] v.vals()[j]
                        <= self.origin_vals()[j] + self.size_vals()[j],
                forall|j: int|
                    0 <= j < n ==> #[trigger] <Self::Vector as VecN>::Scalar::in_range(
                        self.origin_vals()[j] + self.size_vals()[j],
                    ),
            decreases n - i,
        {
            let d = v.dim(i);
            let o = self.origin_dim(i);
            let e = self.end_dim(i);
            if d.lt(o) {
                return false;
            }
            if e.lt(d) {
                return false;
            }
            i = i + 1;
        }
        true
    }

    /// Get the minimal box that bounds a list of vectors: in every
    /// dimension the origin is the least coordinate over the points and
    /// the end the greatest. Returns `None` exactly when the list is
    /// empty, which distinguishes "no data" from the zero-size box of a
    /// single point.
    fn bounding(points: &Vec<Self::Vector>) -> (r: Option<Self>)
        requires
            forall|a: int, b: int, j: int|
                #![trigger points@[a].vals()[j], points@[b].vals()[j]]
                0 <= a < points@.len() && 0 <= b < points@.len() && 0 <= j
                    < Self::Vector::arity() ==> <Self::Vector as VecN>::Scalar::in_range(
                    points@[a].vals()[j] - points@[b].vals()[j],
                ),
        ensures
            r is Some <==> points@.len() > 0,
            r matches Some(bx) ==> is_bounding_of(
                bx.origin_vals(),
                bx.size_vals(),
                points@.map(|i: int, p: Self::Vector| p.vals()),
            ),
    {
        let len = points.len();
        if len == 0 {
            return None;
        }
        let ghost pv = points@.map(|i: int, p: Self::Vector| p.vals());
        let n = Self::Vector::n();
        let mut minv = points[0];
        let mut maxv = points[0];
        proof {
            VecN::lemma_wf(minv);
            assert(pv[0] == points@[0].vals());
            assert forall|i: int| 0 <= i < n implies #[trigger] coord_attained(
                minv.vals()[i],
                pv,
                i,
                1,
            ) by {
                assert(minv.vals()[i] == pv[0][i]);
            }
            assert forall|i: int| 0 <= i < n implies #[trigger] coord_attained(
                maxv.vals()[i],
                pv,
                i,
                1,
            ) by {
                assert(maxv.vals()[i] == pv[0][i]);
            }
        }
        let mut k: usize = 1;
        while k < len
            invariant
                n as nat == Self::Vector::arity(),
                len == points@.len(),
                1 <= k <= len,
                pv == points@.map(|i: int, p: Self::Vector| p.vals()),
                minv.vals().len() == n,
                maxv.vals().len() == n,
                forall|i: int, j: int|
                    0 <= i < n && 0 <= j < k ==> minv.vals()[i] <= #[trigger] pv[j][i],
                forall|i: int|
                    0 <= i < n ==> #[trigger] coord_attained(minv.vals()[i], pv, i, k as int),
                forall|i: int, j: int|
                    0 <= i < n && 0 <= j < k ==> #[trigger] pv[j][i] <= maxv.vals()[i],
                forall|i: int|
                    0 <= i < n ==> #[trigger] coord_attained(maxv.vals()[i], pv, i, k as int),
            decreases len - k,
        {
            let p = points[k];
            let mut i: usize = 0;
            while i < n
                invariant
                    n as nat == Self::Vector::arity(),
                    len == points@.len(),
                    pv == points@.map(|i2: int, q: Self::Vector| q.vals()),
                    1 <= k < len,
                    i <= n,
                    p == points@[k as int],
                    minv.vals().len() == n,
                    maxv.vals().len() == n,
                    forall|i2: int, j: int|
                        0 <= i2 < i && 0 <= j < k + 1 ==> minv.vals()[i2] <= #[trigger] pv[j][i2],
                    forall|i2: int, j: int|
                        i <= i2 < n && 0 <= j < k ==> minv.vals()[i2] <= #[trigger] pv[j][i2],
                    forall|i2: int|
                        0 <= i2 < i ==> #[trigger] coord_attained(minv.vals()[i2], pv, i2, k + 1),
                    forall|i2: int|
                        i <= i2 < n ==> #[trigger] coord_attained(minv.vals()[i2], pv, i2, k as int),
                    forall|i2: int, j: int|
                        0 <= i2 < i && 0 <= j < k + 1 ==> #[trigger] pv[j][i2] <= maxv.vals()[i2],
                    forall|i2: int, j: int|
                        i <= i2 < n && 0 <= j < k ==> #[trigger] pv[j][i2] <= maxv.vals()[i2],
                    forall|i2: int|
                        0 <= i2 < i ==> #[trigger] coord_attained(maxv.vals()[i2], pv, i2, k + 1),
                    forall|i2: int|
                        i <= i2 < n ==> #[trigger] coord_attained(maxv.vals()[i2], pv, i2, k as int),
                decreases n - i,
            {
                let d = p.dim(i);
                let ghost minv0 = minv;
                let ghost maxv0 = maxv;
                proof {
                    assert(pv[k as int] == points@[k as int].vals());
                }
                if d.lt(minv.dim(i)) {
                    minv.set_dim(i, d);
                } else {
                    let mx = maxv.dim(i);
                    if mx.lt(d) {
                        maxv.set_dim(i, d);
                    }
                }
                proof {
                    let iv = i as int;
                    if minv.vals()[iv] != minv0.vals()[iv] {
                        assert(minv.vals()[iv] == pv[k as int][iv]);
                        assert(coord_attained(minv.vals()[iv], pv, iv, k + 1));
                    } else {
                        lemma_coord_attained_widen(minv.vals()[iv], pv, iv, k as int, k + 1);
                    }
                    if maxv.vals()[iv] != maxv0.vals()[iv] {
                        assert(maxv.vals()[iv] == pv[k as int][iv]);
                        assert(coord_attained(maxv.vals()[iv], pv, iv, k + 1));
                    } else {
                        lemma_coord_attained_widen(maxv.vals()[iv], pv, iv, k as int, k + 1);
                    }
                    if d.sval() < minv0.vals()[iv] {
                        let j0 = lemma_coord_attained_witness(minv0.vals()[iv], pv, iv, k as int);
                        assert(pv[j0][iv] <= maxv0.vals()[iv]);
                    }
                }
                i = i + 1;
            }
            k = k + 1;
        }
        let mut res = Self::origin_zero_size();
        proof {
            Self::lemma_wf(res);
        }
        let mut i: usize = 0;
        while i < n
            invariant
                n as nat == Self::Vector::arity(),
                len == points@.len(),
                1 <= len,
                pv == points@.map(|i2: int, q: Self::Vector| q.vals()),
                i <= n,
                minv.vals().len() == n,
                maxv.vals().len() == n,
                res.origin_vals().len() == n,
                res.size_vals().len() == n,
                forall|a: int, b: int, j: int|
                    #![trigger points@[a].vals()[j], points@[b].vals()[j]]
                    0 <= a < points@.len() && 0 <= b < points@.len() && 0 <= j
                        < Self::Vector::arity() ==> <Self::Vector as VecN>::Scalar::in_range(
                        points@[a].vals()[j] - points@[b].vals()[j],
                    ),
                forall|i2: int, j: int|
                    0 <= i2 < n && 0 <= j < len ==> minv.vals()[i2] <= #[trigger] pv[j][i2],
                forall|i2: int|
                    0 <= i2 < n ==> #[trigger] coord_attained(minv.vals()[i2], pv, i2, len as int),
                forall|i2: int, j: int|
                    0 <= i2 < n && 0 <= j < len ==> #[trigger] pv[j][i2] <= maxv.vals()[i2],
                forall|i2: int|
                    0 <= i2 < n ==> #[trigger] coord_attained(maxv.vals()[i2], pv, i2, len as int),
                forall|j: int| 0 <= j < i ==> res.origin_vals()[j] == minv.vals()[j],
                forall|j: int|
                    0 <= j < i ==> res.size_vals()[j] == maxv.vals()[j] - minv.vals()[j],
            decreases n - i,
        {
            let mn = minv.dim(i);
            let mx = maxv.dim(i);
            proof {
                let j1 = lemma_coord_attained_witness(maxv.vals()[i as int], pv, i as int, len as int);
                let j2 = lemma_coord_attained_witness(minv.vals()[i as int], pv, i as int, len as int);
                assert(pv[j1] == points@[j1].vals());
                assert(pv[j2] == points@[j2].vals());
                assert(<Self::Vector as VecN>::Scalar::in_range(
                    points@[j1].vals()[i as int] - points@[j2].vals()[i as int],
                ));
            }
            res.set_origin_dim(i, mn);
            res.set_size_dim(i, mx.sub(mn));
            i = i + 1;
        }
        proof {
            let o = res.origin_vals();
            let s = res.size_vals();
            assert(pv.len() == len);
            assert forall|i2: int| 0 <= i2 < o.len() implies #[trigger] coord_attained(
                o[i2],
                pv,
                i2,
                pv.len() as int,
            ) by {
                assert(o[i2] == minv.vals()[i2]);
                assert(coord_attained(minv.vals()[i2], pv, i2, len as int));
            }
            assert forall|i2: int| 0 <= i2 < o.len() implies #[trigger] coord_attained(
                o[i2] + s[i2],
                pv,
                i2,
                pv.len() as int,
            ) by {
                assert(o[i2] + s[i2] == maxv.vals()[i2]);
                assert(coord_attained(maxv.vals()[i2], pv, i2, len as int));
            }
        }
        Some(res)
    }
}

/// Trait for axis-aligned bounding boxes with a width: pure aliases for
/// origin, size and end on axis 0.
pub trait XAabb: Aabb {
    /// Get the origin value of the dimension.
    fn left(&self) -> (r: <Self::Vector as VecN>::Scalar)
        requires
            0 < Self::Vector::arity(),
        ensures
            r.sval() == self.origin_vals()[0],
    {
        self.origin_dim(0)
    }

    /// Set the origin value of the dimension.
    fn set_left(&mut self, v: <Self::Vector as VecN>::Scalar)
        requires
            0 < Self::Vector::arity(),
        ensures
            final(self).origin_vals() == old(self).origin_vals().update(0, v.sval()),
            final(self).size_vals() == old(self).size_vals(),
    {
        self.set_origin_dim(0, v);
    }

    /// Get the size value of the dimension.
    fn width(&self) -> (r: <Self::Vector as VecN>::Scalar)
        requires
            0 < Self::Vector::arity(),
        ensures
            r.sval() == self.size_vals()[0],
    {
        self.size_dim(0)
    }

    /// Set the size value of the dimension.
    fn set_width(&mut self, v: <Self::Vector as VecN>::Scalar)
        requires
            0 < Self::Vector::arity(),
        ensures
            final(self).size_vals() == old(self).size_vals().update(0, v.sval()),
            final(self).origin_vals() == old(self).origin_vals(),
    {
        self.set_size_dim(0, v);
    }

    /// Get the end value of the dimension: origin plus size.
    fn right(&self) -> (r: <Self::Vector as VecN>::Scalar)
        requires
            0 < Self::Vector::arity(),
            <Self::Vector as VecN>::Scalar::in_range(self.origin_vals()[0] + self.size_vals()[0]),
        ensures
            r.sval() == self.origin_vals()[0] + self.size_vals()[0],
    {
        self.end_dim(0)
    }
}

impl<A: Aabb> XAabb for A {

}

/// Trait for axis-aligned bounding boxes with a height: pure aliases
/// for origin, size and end on axis 1.
pub trait YAabb: Aabb {
    /// Get the origin value of the dimension.
    fn top(&self) -> (r: <Self::Vector as VecN>::Scalar)
        requires
            1 < Self::Vector::arity(),
        ensures
            r.sval() == self.origin_vals()[1],
    {
        self.origin_dim(1)
    }

    /// Set the origin value of the dimension.
    fn set_top(&mut self, v: <Self::Vector as VecN>::Scalar)
        requires
            1 < Self::Vector::arity(),
        ensures
            final(self).origin_vals() == old(self).origin_vals().update(1, v.sval()),
            final(self).size_vals() == old(self).size_vals(),
    {
        self.set_origin_dim(1, v);
    }

    /// Get the size value of the dimension.
    fn height(&self) -> (r: <Self::Vector as VecN>::Scalar)
        requires
            1 < Self::Vector::arity(),
        ensures
            r.sval() == self.size_vals()[1],
    {
        self.size_dim(1)
    }

    /// Set the size value of the dimension.
    fn set_height(&mut self, v: <Self::Vector as VecN>::Scalar)
        requires
            1 < Self::Vector::arity(),
        ensures
            final(self).size_vals() == old(self).size_vals().update(1, v.sval()),
            final(self).origin_vals() == old(self).origin_vals(),
    {
        self.set_size_dim(1, v);
    }

    /// Get the end value of the dimension: origin plus size.
    fn bottom(&self) -> (r: <Self::Vector as VecN>::Scalar)
        requires
            1 < Self::Vector::arity(),
            <Self::Vector as VecN>::Scalar::in_range(self.origin_vals()[1] + self.size_vals()[1]),
        ensures
            r.sval() == self.origin_vals()[1] + self.size_vals()[1],
    {
        self.end_dim(1)
    }
}

impl<A: Aabb> YAabb for A {

}

/// Trait for axis-aligned bounding boxes with a depth: pure aliases for
/// origin, size and end on axis 2.
pub trait ZAabb: Aabb {
    /// Get the origin value of the dimension.
    fn back(&self) -> (r: <Self::Vector as VecN>::Scalar)
        requires
            2 < Self::Vector::arity(),
        ensures
            r.sval() == self.origin_vals()[2],
    {
        self.origin_dim(2)
    }

    /// Set the origin value of the dimension.
    fn set_back(&mut self, v: <Self::Vector as VecN>::Scalar)
        requires
            2 < Self::Vector::arity(),
        ensures
            final(self).origin_vals() == old(self).origin_vals().update(2, v.sval()),
            final(self).size_vals() == old(self).size_vals(),
    {
        self.set_origin_dim(2, v);
    }

    /// Get the size value of the dimension.
    fn depth(&self) -> (r: <Self::Vector as VecN>::Scalar)
        requires
            2 < Self::Vector::arity(),
        ensures
            r.sval() == self.size_vals()[2],
    {
        self.size_dim(2)
    }

    /// Set the size value of the dimension.
    fn set_depth(&mut self, v: <Self::Vector as VecN>::Scalar)
        requires
            2 < Self::Vector::arity(),
        ensures
            final(self).size_vals() == old(self).size_vals().update(2, v.sval()),
            final(self).origin_vals() == old(self).origin_vals(),
    {
        self.set_size_dim(2, v);
    }

    /// Get the end value of the dimension: origin plus size.
    fn front(&self) -> (r: <Self::Vector as VecN>::Scalar)
        requires
            2 < Self::Vector::arity(),
            <Self::Vector as VecN>::Scalar::in_range(self.origin_vals()[2] + self.size_vals()[2]),
        ensures
            r.sval() == self.origin_vals()[2] + self.size_vals()[2],
    {
        self.end_dim(2)
    }
}

impl<A: Aabb> ZAabb for A {

}

/// The bounding box of a single point is the zero-size box at that
/// point.
pub proof fn lemma_bounding_single(o: Seq<int>, s: Seq<int>, p: Seq<int>)
    requires
        is_bounding_of(o, s, seq![p]),
        o.len() == s.len(),
        o.len() == p.len(),
    ensures
        o == p,
        s == zero_seq(o.len()),
{
    assert forall|i: int| 0 <= i < o.len() implies o[i] == p[i] && s[i] == 0 by {
        let ps = seq![p];
        assert(coord_attained(o[i], ps, i, 1));
        let j0 = lemma_coord_attained_witness(o[i], ps, i, 1);
        assert(o[i] == p[i]);
        assert(coord_attained(o[i] + s[i], ps, i, 1));
        let j1 = lemma_coord_attained_witness(o[i] + s[i], ps, i, 1);
        assert(o[i] + s[i] == p[i]);
    }
    assert(o =~= p);
    assert(s =~= zero_seq(o.len()));
}

impl<T: Scalar, const N: usize> Aabb for [[T; N]; 2] {
    type Vector = [T; N];

    open spec fn origin_vals(self) -> Seq<int> {
        self@[0].vals()
    }

    open spec fn size_vals(self) -> Seq<int> {
        self@[1].vals()
    }

    proof fn lemma_wf(self) {
        VecN::lemma_wf(self@[0]);
        VecN::lemma_wf(self@[1]);
    }

    fn origin_zero_size() -> (r: [[T; N]; 2]) {
        let z: [T; N] = VecN::zero();
        [z, z]
    }

    fn origin_dim(&self, dim: usize) -> (r: T) {
        let row: [T; N] = self[0];
        row[dim]
    }

    fn size_dim(&self, dim: usize) -> (r: T) {
        let row: [T; N] = self[1];
        row[dim]
    }

    fn set_origin_dim(&mut self, dim: usize, val: T) {
        let mut row: [T; N] = self[0];
        row[dim] = val;
        self[0] = row;
        proof {
            assert(self.origin_vals() =~= old(self).origin_vals().update(dim as int, val.sval()));
        }
    }

    fn set_size_dim(&mut self, dim: usize, val: T) {
        let mut row: [T; N] = self[1];
        row[dim] = val;
        self[1] = row;
        proof {
            assert(self.size_vals() =~= old(self).size_vals().update(dim as int, val.sval()));
        }
    }
}

impl<T: Scalar> Aabb for [T; 2] {
    type Vector = [T; 1];

    open spec fn origin_vals(self) -> Seq<int> {
        VecN::vals(self).take(1)
    }

    open spec fn size_vals(self) -> Seq<int> {
        VecN::vals(self).skip(1)
    }

    proof fn lemma_wf(self) {
        VecN::lemma_wf(self);
        assert forall|i: int| 0 <= i < self.origin_vals().len() implies T::in_range(
            #[trigger] self.origin_vals()[i],
        ) by {
            assert(self.origin_vals()[i] == VecN::vals(self)[i]);
        }
        assert forall|i: int| 0 <= i < self.size_vals().len() implies T::in_range(
            #[trigger] self.size_vals()[i],
        ) by {
            assert(self.size_vals()[i] == VecN::vals(self)[i + 1]);
        }
    }

    fn origin_zero_size() -> (r: [T; 2]) {
        let z: [T; 2] = VecN::zero();
        proof {
            assert(z.origin_vals() =~= zero_seq(1));
            assert(z.size_vals() =~= zero_seq(1));
        }
        z
    }

    fn origin_dim(&self, dim: usize) -> (r: T) {
        self[dim]
    }

    fn size_dim(&self, dim: usize) -> (r: T) {
        self[1 + dim]
    }

    fn set_origin_dim(&mut self, dim: usize, val: T) {
        self[dim] = val;
        proof {
            assert(self.origin_vals() =~= old(self).origin_vals().update(dim as int, val.sval()));
            assert(self.size_vals() =~= old(self).size_vals());
        }
    }

    fn set_size_dim(&mut self, dim: usize, val: T) {
        self[1 + dim] = val;
        proof {
            assert(self.size_vals() =~= old(self).size_vals().update(dim as int, val.sval()));
            assert(self.origin_vals() =~= old(self).origin_vals());
        }
    }
}

impl<T: Scalar> Aabb for [T; 4] {
    type Vector = [T; 2];

    open spec fn origin_vals(self) -> Seq<int> {
        VecN::vals(self).take(2)
    }

    open spec fn size_vals(self) -> Seq<int> {
        VecN::vals(self).skip(2)
    }

    proof fn lemma_wf(self) {
        VecN::lemma_wf(self);
        assert forall|i: int| 0 <= i < self.origin_vals().len() implies T::in_range(
            #[trigger] self.origin_vals()[i],
        ) by {
            assert(self.origin_vals()[i] == VecN::vals(self)[i]);
        }
        assert forall|i: int| 0 <= i < self.size_vals().len() implies T::in_range(
            #[trigger] self.size_vals()[i],
        ) by {
            assert(self.size_vals()[i] == VecN::vals(self)[i + 2]);
        }
    }

    fn origin_zero_size() -> (r: [T; 4]) {
        let z: [T; 4] = VecN::zero();
        proof {
            assert(z.origin_vals() =~= zero_seq(2));
            assert(z.size_vals() =~= zero_seq(2));
        }
        z
    }

    fn origin_dim(&self, dim: usize) -> (r: T) {
        self[dim]
    }

    fn size_dim(&self, dim: usize) -> (r: T) {
        self[2 + dim]
    }

    fn set_origin_dim(&mut self, dim: usize, val: T) {
        self[dim] = val;
        proof {
            assert(self.origin_vals() =~= old(self).origin_vals().update(dim as int, val.sval()));
            assert(self.size_vals() =~= old(self).size_vals());
        }
    }

    fn set_size_dim(&mut self, dim: usize, val: T) {
        self[2 + dim] = val;
        proof {
            assert(self.size_vals() =~= old(self).size_vals().update(dim as int, val.sval()));
            assert(self.origin_vals() =~= old(self).origin_vals());
        }
    }
}

impl<T: Scalar> Aabb for [T; 6] {
    type Vector = [T; 3];

    open spec fn origin_vals(self) -> Seq<int> {
        VecN::vals(self).take(3)
    }

    open spec fn size_vals(self) -> Seq<int> {
        VecN::vals(self).skip(3)
    }

    proof fn lemma_wf(self) {
        VecN::lemma_wf(self);
        assert forall|i: int| 0 <= i < self.origin_vals().len() implies T::in_range(
            #[trigger] self.origin_vals()[i],
        ) by {
            assert(self.origin_vals()[i] == VecN::vals(self)[i]);
        }
        assert forall|i: int| 0 <= i < self.size_vals().len() implies T::in_range(
            #[trigger] self.size_vals()[i],
        ) by {
            assert(self.size_vals()[i] == VecN::vals(self)[i + 3]);
        }
    }

    fn origin_zero_size() -> (r: [T; 6]) {
        let z: [T; 6] = VecN::zero();
        proof {
            assert(z.origin_vals() =~= zero_seq(3));
            assert(z.size_vals() =~= zero_seq(3));
        }
        z
    }

    fn origin_dim(&self, dim: usize) -> (r: T) {
        self[dim]
    }

    fn size_dim(&self, dim: usize) -> (r: T) {
        self[3 + dim]
    }

    fn set_origin_dim(&mut self, dim: usize, val: T) {
        self[dim] = val;
        proof {
            assert(self.origin_vals() =~= old(self).origin_vals().update(dim as int, val.sval()));
            assert(self.size_vals() =~= old(self).size_vals());
        }
    }

    fn set_size_dim(&mut self, dim: usize, val: T) {
        self[3 + dim] = val;
        proof {
            assert(self.size_vals() =~= old(self).size_vals().update(dim as int, val.sval()));
            assert(self.origin_vals() =~= old(self).origin_vals());
        }
    }
}

impl<T: Scalar> Aabb for [T; 8] {
    type Vector = [T; 4];

    open spec fn origin_vals(self) -> Seq<int> {
        VecN::vals(self).take(4)
    }

    open spec fn size_vals(self) -> Seq<int> {
        VecN::vals(self).skip(4)
    }

    proof fn lemma_wf(self) {
        VecN::lemma_wf(self);
        assert forall|i: int| 0 <= i < self.origin_vals().len() implies T::in_range(
            #[trigger] self.origin_vals()[i],
        ) by {
            assert(self.origin_vals()[i] == VecN::vals(self)[i]);
        }
        assert forall|i: int| 0 <= i < self.size_vals().len() implies T::in_range(
            #[trigger] self.size_vals()[i],
        ) by {
            assert(self.size_vals()[i] == VecN::vals(self)[i + 4]);
        }
    }

    fn origin_zero_size() -> (r: [T; 8]) {
        let z: [T; 8] = VecN::zero();
        proof {
            assert(z.origin_vals() =~= zero_seq(4));
            assert(z.size_vals() =~= zero_seq(4));
        }
        z
    }

    fn origin_dim(&self, dim: usize) -> (r: T) {
        self[dim]
    }

    fn size_dim(&self, dim: usize) -> (r: T) {
        self[4 + dim]
    }

    fn set_origin_dim(&mut self, dim: usize, val: T) {
        self[dim] = val;
        proof {
            assert(self.origin_vals() =~= old(self).origin_vals().update(dim as int, val.sval()));
            assert(self.size_vals() =~= old(self).size_vals());
        }
    }

    fn set_size_dim(&mut self, dim: usize, val: T) {
        self[4 + dim] = val;
        proof {
            assert(self.size_vals() =~= old(self).size_vals().update(dim as int, val.sval()));
            assert(self.origin_vals() =~= old(self).origin_vals());
        }
    }
}

impl<T: Scalar> Aabb for [T; 10] {
    type Vector = [T; 5];

    open spec fn origin_vals(self) -> Seq<int> {
        VecN::vals(self).take(5)
    }

    open spec fn size_vals(self) -> Seq<int> {
        VecN::vals(self).skip(5)
    }

    proof fn lemma_wf(self) {
        VecN::lemma_wf(self);
        assert forall|i: int| 0 <= i < self.origin_vals().len() implies T::in_range(
            #[trigger] self.origin_vals()[i],
        ) by {
            assert(self.origin_vals()[i] == VecN::vals(self)[i]);
        }
        assert forall|i: int| 0 <= i < self.size_vals().len() implies T::in_range(
            #[trigger] self.size_vals()[i],
        ) by {
            assert(self.size_vals()[i] == VecN::vals(self)[i + 5]);
        }
    }

    fn origin_zero_size() -> (r: [T; 10]) {
        let z: [T; 10] = VecN::zero();
        proof {
            assert(z.origin_vals() =~= zero_seq(5));
            assert(z.size_vals() =~= zero_seq(5));
        }
        z
    }

    fn origin_dim(&self, dim: usize) -> (r: T) {
        self[dim]
    }

    fn size_dim(&self, dim: usize) -> (r: T) {
        self[5 + dim]
    }

    fn set_origin_dim(&mut self, dim: usize, val: T) {
        self[dim] = val;
        proof {
            assert(self.origin_vals() =~= old(self).origin_vals().update(dim as int, val.sval()));
            assert(self.size_vals() =~= old(self).size_vals());
        }
    }

    fn set_size_dim(&mut self, dim: usize, val: T) {
        self[5 + dim] = val;
        proof {
            assert(self.size_vals() =~= old(self).size_vals().update(dim as int, val.sval()));
            assert(self.origin_vals() =~= old(self).origin_vals());
        }
    }
}

impl<T: Scalar> Aabb for [T; 12] {
    type Vector = [T; 6];

    open spec fn origin_vals(self) -> Seq<int> {
        VecN::vals(self).take(6)
    }

    open spec fn size_vals(self) -> Seq<int> {
        VecN::vals(self).skip(6)
    }

    proof fn lemma_wf(self) {
        VecN::lemma_wf(self);
        assert forall|i: int| 0 <= i < self.origin_vals().len() implies T::in_range(
            #[trigger] self.origin_vals()[i],
        ) by {
            assert(self.origin_vals()[i] == VecN::vals(self)[i]);
        }
        assert forall|i: int| 0 <= i < self.size_vals().len() implies T::in_range(
            #[trigger] self.size_vals()[i],
        ) by {
            assert(self.size_vals()[i] == VecN::vals(self)[i + 6]);
        }
    }

    fn origin_zero_size() -> (r: [T; 12]) {
        let z: [T; 12] = VecN::zero();
        proof {
            assert(z.origin_vals() =~= zero_seq(6));
            assert(z.size_vals() =~= zero_seq(6));
        }
        z
    }

    fn origin_dim(&self, dim: usize) -> (r: T) {
        self[dim]
    }

    fn size_dim(&self, dim: usize) -> (r: T) {
        self[6 + dim]
    }

    fn set_origin_dim(&mut self, dim: usize, val: T) {
        self[dim] = val;
        proof {
            assert(self.origin_vals() =~= old(self).origin_vals().update(dim as int, val.sval()));
            assert(self.size_vals() =~= old(self).size_vals());
        }
    }

    fn set_size_dim(&mut self, dim: usize, val: T) {
        self[6 + dim] = val;
        proof {
            assert(self.size_vals() =~= old(self).size_vals().update(dim as int, val.sval()));
            assert(self.origin_vals() =~= old(self).origin_vals());
        }
    }
}

impl<T: Scalar> Aabb for [T; 14] {
    type Vector = [T; 7];

    open spec fn origin_vals(self) -> Seq<int> {
        VecN::vals(self).take(7)
    }

    open spec fn size_vals(self) -> Seq<int> {
        VecN::vals(self).skip(7)
    }

    proof fn lemma_wf(self) {
        VecN::lemma_wf(self);
        assert forall|i: int| 0 <= i < self.origin_vals().len() implies T::in_range(
            #[trigger] self.origin_vals()[i],
        ) by {
            assert(self.origin_vals()[i] == VecN::vals(self)[i]);
        }
        assert forall|i: int| 0 <= i < self.size_vals().len() implies T::in_range(
            #[trigger] self.size_vals()[i],
        ) by {
            assert(self.size_vals()[i] == VecN::vals(self)[i + 7]);
        }
    }

    fn origin_zero_size() -> (r: [T; 14]) {
        let z: [T; 14] = VecN::zero();
        proof {
            assert(z.origin_vals() =~= zero_seq(7));
            assert(z.size_vals() =~= zero_seq(7));
        }
        z
    }

    fn origin_dim(&self, dim: usize) -> (r: T) {
        self[dim]
    }

    fn size_dim(&self, dim: usize) -> (r: T) {
        self[7 + dim]
    }

    fn set_origin_dim(&mut self, dim: usize, val: T) {
        self[dim] = val;
        proof {
            assert(self.origin_vals() =~= old(self).origin_vals().update(dim as int, val.sval()));
            assert(self.size_vals() =~= old(self).size_vals());
        }
    }

    fn set_size_dim(&mut self, dim: usize, val: T) {
        self[7 + dim] = val;
        proof {
            assert(self.size_vals() =~= old(self).size_vals().update(dim as int, val.sval()));
            assert(self.origin_vals() =~= old(self).origin_vals());
        }
    }
}

impl<T: Scalar> Aabb for [T; 16] {
    type Vector = [T; 8];

    open spec fn origin_vals(self) -> Seq<int> {
        VecN::vals(self).take(8)
    }

    open spec fn size_vals(self) -> Seq<int> {
        VecN::vals(self).skip(8)
    }

    proof fn lemma_wf(self) {
        VecN::lemma_wf(self);
        assert forall|i: int| 0 <= i < self.origin_vals().len() implies T::in_range(
            #[trigger] self.origin_vals()[i],
        ) by {
            assert(self.origin_vals()[i] == VecN::vals(self)[i]);
        }
        assert forall|i: int| 0 <= i < self.size_vals().len() implies T::in_range(
            #[trigger] self.size_vals()[i],
        ) by {
            assert(self.size_vals()[i] == VecN::vals(self)[i + 8]);
        }
    }

    fn origin_zero_size() -> (r: [T; 16]) {
        let z: [T; 16] = VecN::zero();
        proof {
            assert(z.origin_vals() =~= zero_seq(8));
            assert(z.size_vals() =~= zero_seq(8));
        }
        z
    }

    fn origin_dim(&self, dim: usize) -> (r: T) {
        self[dim]
    }

    fn size_dim(&self, dim: usize) -> (r: T) {
        self[8 + dim]
    }

    fn set_origin_dim(&mut self, dim: usize, val: T) {
        self[dim] = val;
        proof {
            assert(self.origin_vals() =~= old(self).origin_vals().update(dim as int, val.sval()));
            assert(self.size_vals() =~= old(self).size_vals());
        }
    }

    fn set_size_dim(&mut self, dim: usize, val: T) {
        self[8 + dim] = val;
        proof {
            assert(self.size_vals() =~= old(self).size_vals().update(dim as int, val.sval()));
            assert(self.origin_vals() =~= old(self).origin_vals());
        }
    }
}

} // verus!
