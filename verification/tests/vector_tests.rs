use ndmath::scalar::{FloatingScalar, Scalar};
use ndmath::{FloatingVecN, VecN, WVec, XVec, YVec, ZVec};

#[test]
fn add_neg_small() {
    let a = [2i64, 5];
    let b = [3i64, -7];
    let c = a.add(b);
    let d = a.neg();
    assert_eq!(c, [5, -2]);
    assert_eq!(d, [-2, -5]);
}

#[test]
fn add_sub_mul_seven_dims() {
    let a = [1i64, 2, 3, 4, 5, 6, 7];
    let b = [9i64, 8, 7, 6, 5, 4, 3];
    let c = a.add(b);
    let d = a.sub(b);
    let e = a.mul(2);
    assert_eq!(c, [10; 7]);
    assert_eq!(d, [-8, -6, -4, -2, 0, 2, 4]);
    assert_eq!(e, [2, 4, 6, 8, 10, 12, 14]);
}

#[test]
fn add_then_sub_round_trip_i64() {
    let a = [17i64, -4, 0, 902];
    let b = [-3i64, 11, 27, -900];
    assert_eq!(a.add(b).sub(b), a);
}

#[test]
fn add_then_sub_round_trip_i32() {
    let a = [17i32, -4, 0, 902];
    let b = [-3i32, 11, 27, -900];
    assert_eq!(a.add(b).sub(b), a);
}

#[test]
fn mul_then_div_round_trip() {
    let a = [5i64, -7, 0, 13];
    let s = 3i64;
    assert_eq!(a.mul(s).div(s), a);
    let t = -4i64;
    assert_eq!(a.mul(t).div(t), a);
}

#[test]
fn in_place_forms_match_value_forms() {
    let a = [4i64, -2, 9];
    let b = [1i64, 5, -3];
    let mut m = a;
    m.add_assign(b);
    assert_eq!(m, a.add(b));
    let mut m = a;
    m.sub_assign(b);
    assert_eq!(m, a.sub(b));
    let mut m = a;
    m.mul_assign(6);
    assert_eq!(m, a.mul(6));
    let mut m = a;
    m.div_assign(2);
    assert_eq!(m, a.div(2));
    let mut m = a;
    m.neg_assign();
    assert_eq!(m, a.neg());
    let mut m = a;
    m.lerp_assign(b, 1);
    assert_eq!(m, b);
}

#[test]
fn scalar_division_truncates_toward_zero() {
    assert_eq!([7i64].div(2), [3]);
    assert_eq!([-7i64].div(2), [-3]);
    assert_eq!([7i64].div(-2), [-3]);
    assert_eq!([-7i64].div(-2), [3]);
}

#[test]
fn hadamard_product_and_quotient() {
    let a = [2i64, 3];
    let b = [4i64, 5];
    assert_eq!(a.mul2(b), [8, 15]);
    assert_eq!([8i64, 15].div2(b), [2, 3]);
    assert_eq!([7i64, -7].div2([2, 2]), [3, -3]);
}

#[test]
fn squared_mag_is_sum_of_squares() {
    assert_eq!([3i64, 4].squared_mag(), 25);
    assert_eq!([1i64, -2, 2].squared_mag(), 9);
    assert_eq!([0i64; 5].squared_mag(), 0);
}

#[test]
fn mag_of_three_four_is_five() {
    let a = [3i64, 4];
    assert_eq!(a.mag(), 5);
    let b = [3i32, 4];
    assert_eq!(b.mag(), 5);
}

#[test]
fn dist_matches_worked_examples() {
    let a = [3i64, 4];
    assert_eq!(a.dist([0, 0]), 5);
    assert_eq!(a.dist([3, 6]), 2);
}

#[test]
fn squared_dist() {
    assert_eq!([3i64, 4].squared_dist([3, 6]), 4);
    assert_eq!([1i64, 1].squared_dist([1, 1]), 0);
}

#[test]
fn min_and_max_dim() {
    let a = [3i64, -7, 5];
    assert_eq!(a.min_dim(), -7);
    assert_eq!(a.max_dim(), 5);
    let b = [42i64];
    assert_eq!(b.min_dim(), 42);
    assert_eq!(b.max_dim(), 42);
}

#[test]
fn dot_is_sum_of_products() {
    let a = [1i64, 2, 3];
    let b = [4i64, 5, 6];
    assert_eq!(a.dot(b), 32);
    assert_eq!([2i64, -3].dot([5, 5]), -5);
}

#[test]
fn lerp_at_zero_and_one_is_exact() {
    let a = [10i64, -6, 3];
    let b = [-2i64, 8, 41];
    assert_eq!(a.lerp(b, 0), a);
    assert_eq!(a.lerp(b, 1), b);
}

#[test]
fn lerp_extrapolates_outside_unit_interval() {
    let a = [1i64, 2];
    let b = [3i64, 4];
    assert_eq!(a.lerp(b, 2), [5, 6]);
}

#[test]
fn unit_vector_with_exact_division() {
    assert_eq!([5i64, 0].unit(), [1, 0]);
    assert_eq!([0i64, -9].unit(), [0, -1]);
    assert_eq!([0i64, 0].unit(), [0, 0]);
    // components smaller than the magnitude truncate to zero
    assert_eq!([3i64, 4].unit(), [0, 0]);
}

#[test]
fn zero_vector_and_dims() {
    let z: [i64; 3] = VecN::zero();
    assert_eq!(z, [0, 0, 0]);
    assert_eq!(<[i64; 3] as VecN>::n(), 3);
    let mut v = z;
    v.set_dim(1, 8);
    assert_eq!(v.dim(1), 8);
    assert_eq!(v, [0, 8, 0]);
}

#[test]
fn named_dimension_accessors_alias_dims() {
    let a = [1i64, 2];
    let b = [3i64, 4, 5];
    let c = [6i64, 7, 8, 9];
    assert_eq!(a.x(), 1);
    assert_eq!(a.y(), 2);
    assert_eq!(b.z(), 5);
    assert_eq!(c.w(), 9);
    assert_eq!(b.z(), b.dim(2));
    assert_eq!(c.w(), c.dim(3));
}

#[test]
fn named_dimension_setters() {
    let mut v = [0i64, 0, 0, 0];
    v.set_x(1);
    v.set_y(2);
    v.set_z(3);
    v.set_w(4);
    assert_eq!(v, [1, 2, 3, 4]);
}

#[test]
fn scalar_constants_and_ops() {
    assert_eq!(<i64 as Scalar>::zero(), 0);
    assert_eq!(<i64 as Scalar>::one(), 1);
    assert_eq!(<i64 as Scalar>::two(), 2);
    assert_eq!(Scalar::add(40i64, 2), 42);
    assert_eq!(Scalar::sub(40i64, 2), 38);
    assert_eq!(Scalar::mul(40i64, 2), 80);
    assert_eq!(Scalar::div(40i64, 2), 20);
    assert_eq!(Scalar::neg(40i64), -40);
    assert!(Scalar::lt(1i64, 2));
    assert!(!Scalar::lt(2i64, 2));
}

#[test]
fn floor_square_root() {
    assert_eq!(FloatingScalar::sqrt(0i64), 0);
    assert_eq!(FloatingScalar::sqrt(1i64), 1);
    assert_eq!(FloatingScalar::sqrt(24i64), 4);
    assert_eq!(FloatingScalar::sqrt(25i64), 5);
    assert_eq!(FloatingScalar::sqrt(26i64), 5);
    assert!(FloatingScalar::is_zero(0i32));
    assert!(!FloatingScalar::is_zero(3i32));
}
