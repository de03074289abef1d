use swept_collision::aabb::Aabb;
use swept_collision::vector::Vector2;

fn v(x: i64, y: i64) -> Vector2 {
    Vector2::new(x, y)
}

#[test]
fn union_covers_both_boxes() {
    let a = Aabb::new(v(0, 0), v(10, 10));
    let b = Aabb::new(v(20, -5), v(4, 8));
    let u = a.union(&b);
    assert_eq!(u, Aabb::new(v(0, -5), v(24, 15)));
    assert_eq!(Aabb::from_union(&a, &b), u);
    assert_eq!(b.union(&a), u);
    assert_eq!(a.union(&a), a);
}

#[test]
fn touching_boxes_intersect() {
    let a = Aabb::new(v(0, 0), v(10, 10));
    assert!(a.is_intersecting(&Aabb::new(v(10, 0), v(5, 5))));
    assert!(a.is_intersecting(&Aabb::new(v(10, 10), v(5, 5))));
    assert!(a.is_intersecting(&Aabb::new(v(-5, -5), v(5, 5))));
    assert!(a.is_intersecting(&Aabb::new(v(2, 2), v(1, 1))));
    assert!(!a.is_intersecting(&Aabb::new(v(11, 0), v(5, 5))));
    assert!(!a.is_intersecting(&Aabb::new(v(0, 11), v(5, 5))));
    assert!(!a.is_intersecting(&Aabb::new(v(-6, 0), v(5, 5))));
    assert!(!a.is_intersecting(&Aabb::new(v(0, -6), v(5, 5))));
}

#[test]
fn intersection_does_not_overflow() {
    let a = Aabb::new(v(i64::MAX, i64::MAX), v(i64::MAX, i64::MAX));
    let b = Aabb::new(v(i64::MIN, i64::MIN), v(0, 0));
    assert!(!a.is_intersecting(&b));
    assert!(a.is_intersecting(&a));
}

#[test]
fn quadrants_tile_a_box_of_even_size() {
    let a = Aabb::new(v(10, 20), v(8, 6));
    let q = a.split_four();
    assert_eq!(q.top_left, Aabb::new(v(10, 20), v(4, 3)));
    assert_eq!(q.top_right, Aabb::new(v(14, 20), v(4, 3)));
    assert_eq!(q.bottom_left, Aabb::new(v(10, 23), v(4, 3)));
    assert_eq!(q.bottom_right, Aabb::new(v(14, 23), v(4, 3)));
    assert_eq!(q.top_left.union(&q.bottom_right), a);
    assert_eq!(q.top_right.union(&q.bottom_left), a);
}

#[test]
fn quadrants_of_odd_size_are_rounded_down() {
    let a = Aabb::new(v(0, 0), v(7, 5));
    let q = a.split_four();
    assert_eq!(q.top_left.size(), v(3, 2));
    assert_eq!(q.bottom_right, Aabb::new(v(3, 2), v(3, 2)));
}

#[test]
fn doubling_keeps_the_centre() {
    let a = Aabb::new(v(10, 20), v(8, 6));
    assert_eq!(a.centre(), v(14, 23));
    let d = a.double_about_centre();
    assert_eq!(d, Aabb::new(v(6, 17), v(16, 12)));
    assert_eq!(d.centre(), a.centre());
    assert_eq!(d.top_left(), v(6, 17));
}

#[test]
fn box_from_centre_and_half_size() {
    let a = Aabb::from_centre_and_half_size(v(0, 0), v(3, 4));
    assert_eq!(a, Aabb::new(v(-3, -4), v(6, 8)));
    assert_eq!(a.centre(), v(0, 0));
}

#[test]
fn range_of_a_box() {
    assert!(Aabb::new(v(0, 0), v(10, 10)).is_in_range());
    assert!(Aabb::new(v(-100_000_000, 0), v(200_000_000, 10)).is_in_range());
    assert!(!Aabb::new(v(0, 0), v(-1, 10)).is_in_range());
    assert!(!Aabb::new(v(100_000_000, 0), v(1, 1)).is_in_range());
    assert!(!Aabb::new(v(i64::MAX, 0), v(i64::MAX, 1)).is_in_range());
}
