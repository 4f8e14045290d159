use ndmath::aabb::{Aabb, XAabb, YAabb, ZAabb};

#[test]
fn contains_is_boundary_inclusive() {
    let aabb = [1i64, 0, 4, 5];
    assert!(aabb.contains([2, 2]));
    assert!(aabb.contains([1, 0]));
    assert!(aabb.contains([5, 5]));
    assert!(!aabb.contains([5, 6]));
    assert!(!aabb.contains([0, 2]));
    assert!(!aabb.contains([6, 2]));
}

#[test]
fn contains_on_pair_encoding() {
    let aabb = [[1i64, 0], [4, 5]];
    assert!(aabb.contains([2, 2]));
    assert!(aabb.contains([1, 0]));
    assert!(aabb.contains([5, 5]));
    assert!(!aabb.contains([5, 6]));
}

#[test]
fn contains_with_negative_size_is_inverted() {
    let aabb = [[0i64, 0], [-2, -2]];
    assert!(!aabb.contains([-1, -1]));
    assert!(!aabb.contains([0, 0]));
}

#[test]
fn bounding_of_empty_set_is_none() {
    let pts: Vec<[i64; 2]> = Vec::new();
    assert_eq!(<[i64; 4] as Aabb>::bounding(&pts), None);
    assert_eq!(<[[i64; 2]; 2] as Aabb>::bounding(&pts), None);
}

#[test]
fn bounding_of_single_point_is_zero_size_box() {
    let pts = vec![[2i64, 3]];
    assert_eq!(<[i64; 4] as Aabb>::bounding(&pts), Some([2, 3, 0, 0]));
    assert_eq!(<[[i64; 2]; 2] as Aabb>::bounding(&pts), Some([[2, 3], [0, 0]]));
}

#[test]
fn bounding_of_three_points() {
    let pts = vec![[0i64, 0], [2, 3], [-1, 5]];
    assert_eq!(<[i64; 4] as Aabb>::bounding(&pts), Some([-1, 0, 3, 5]));
    assert_eq!(
        <[[i64; 2]; 2] as Aabb>::bounding(&pts),
        Some([[-1, 0], [3, 5]])
    );
}

#[test]
fn end_and_center_dims() {
    let aabb = [[0i64, 1], [4, 6]];
    assert_eq!(aabb.end_dim(0), 4);
    assert_eq!(aabb.end_dim(1), 7);
    assert_eq!(aabb.center_dim(0), 2);
    assert_eq!(aabb.center_dim(1), 4);
    assert_eq!(aabb.center(), [2, 4]);
}

#[test]
fn center_with_odd_size_truncates() {
    let aabb = [1i64, 1, 3, 3];
    assert_eq!(aabb.center(), [2, 2]);
}

#[test]
fn named_dimension_accessors_on_boxes() {
    let aabb = [[0i64, 1, 2], [3, 4, 5]];
    assert_eq!(aabb.left(), 0);
    assert_eq!(aabb.top(), 1);
    assert_eq!(aabb.back(), 2);
    assert_eq!(aabb.right(), 3);
    assert_eq!(aabb.bottom(), 5);
    assert_eq!(aabb.front(), 7);
    assert_eq!(aabb.width(), 3);
    assert_eq!(aabb.height(), 4);
    assert_eq!(aabb.depth(), 5);
}

#[test]
fn ends_are_origin_plus_size() {
    let aabb = [2i64, -3, 10, 7, 6, 5];
    assert_eq!(aabb.right(), aabb.left() + aabb.width());
    assert_eq!(aabb.bottom(), aabb.top() + aabb.height());
    assert_eq!(aabb.front(), aabb.back() + aabb.depth());
}

#[test]
fn raw_dim_accessors_and_setters() {
    let mut aabb = [0i64, 0, 0, 0, 0, 0];
    aabb.set_origin_dim(0, 1);
    aabb.set_origin_dim(1, 2);
    aabb.set_origin_dim(2, 3);
    aabb.set_size_dim(0, 4);
    aabb.set_size_dim(1, 5);
    aabb.set_size_dim(2, 6);
    assert_eq!(aabb, [1, 2, 3, 4, 5, 6]);
    assert_eq!(aabb.origin_dim(2), 3);
    assert_eq!(aabb.size_dim(2), 6);
}

#[test]
fn named_dimension_setters_on_boxes() {
    let mut aabb = [[0i64, 0, 0], [0, 0, 0]];
    aabb.set_left(1);
    aabb.set_top(2);
    aabb.set_back(3);
    aabb.set_width(4);
    aabb.set_height(5);
    aabb.set_depth(6);
    assert_eq!(aabb, [[1, 2, 3], [4, 5, 6]]);
}

#[test]
fn origin_zero_size_is_all_zero() {
    let z: [i64; 8] = Aabb::origin_zero_size();
    assert_eq!(z, [0; 8]);
    let zp: [[i64; 3]; 2] = Aabb::origin_zero_size();
    assert_eq!(zp, [[0, 0, 0], [0, 0, 0]]);
}

#[test]
fn flat_encodings_of_larger_sizes() {
    let aabb = [1i64, 2, 3, 4, 10, 20, 30, 40];
    assert_eq!(aabb.origin_dim(3), 4);
    assert_eq!(aabb.size_dim(3), 40);
    assert_eq!(aabb.end_dim(3), 44);
    assert!(aabb.contains([2, 4, 20, 30]));
    assert!(!aabb.contains([0, 4, 20, 30]));
}

#[test]
fn largest_flat_encoding_eight_dims() {
    let aabb = [0i64, 0, 0, 0, 0, 0, 0, 0, 2, 2, 2, 2, 2, 2, 2, 2];
    assert!(aabb.contains([1, 1, 1, 1, 1, 1, 1, 1]));
    assert!(!aabb.contains([1, 1, 1, 1, 1, 1, 1, 3]));
    assert_eq!(aabb.end_dim(7), 2);
    assert_eq!(aabb.center(), [1; 8]);
}

#[test]
fn bounding_on_i32_points() {
    let pts = vec![[5i32, -2], [1, 7]];
    assert_eq!(<[i32; 4] as Aabb>::bounding(&pts), Some([1, -2, 4, 9]));
}
