use swept_collision::arith::{
    ceil_sqrt, divide_away_from_zero, divide_toward_zero, floor_sqrt, mul_wide,
};
use swept_collision::ratio::Ratio;
use swept_collision::vector::Vector2;

#[test]
fn square_roots() {
    assert_eq!(floor_sqrt(0), 0);
    assert_eq!(floor_sqrt(1), 1);
    assert_eq!(floor_sqrt(8), 2);
    assert_eq!(floor_sqrt(9), 3);
    assert_eq!(floor_sqrt(8_000_000), 2828);
    assert_eq!(floor_sqrt(u64::MAX), 4_294_967_295);
    assert_eq!(ceil_sqrt(0), 0);
    assert_eq!(ceil_sqrt(1), 1);
    assert_eq!(ceil_sqrt(8), 3);
    assert_eq!(ceil_sqrt(9), 3);
    assert_eq!(ceil_sqrt(10), 4);
    assert_eq!(ceil_sqrt(u64::MAX), 4_294_967_296);
}

#[test]
fn rounded_division() {
    assert_eq!(divide_toward_zero(7, 2), 3);
    assert_eq!(divide_toward_zero(-7, 2), -3);
    assert_eq!(divide_toward_zero(6, 2), 3);
    assert_eq!(divide_toward_zero(0, 5), 0);
    assert_eq!(divide_away_from_zero(7, 2), 4);
    assert_eq!(divide_away_from_zero(-7, 2), -4);
    assert_eq!(divide_away_from_zero(6, 2), 3);
    assert_eq!(divide_away_from_zero(-6, 2), -3);
    assert_eq!(divide_away_from_zero(0, 5), 0);
    assert_eq!(divide_away_from_zero(1, 1_000_000), 1);
}

#[test]
fn wide_products() {
    assert_eq!(mul_wide(i64::MAX, i64::MAX), (i64::MAX as i128) * (i64::MAX as i128));
    assert_eq!(mul_wide(i64::MIN, i64::MIN), (i64::MIN as i128) * (i64::MIN as i128));
    assert_eq!(mul_wide(-3, 4), -12);
}

#[test]
fn ratios_compare_by_cross_multiplication() {
    let third = Ratio::new(1, 3);
    let two_sixths = Ratio::new(2, 6);
    let half = Ratio::new(1, 2);
    assert!(third.is_less_than(&half));
    assert!(half.is_greater_than(&third));
    assert!(!third.is_less_than(&two_sixths));
    assert!(!third.is_greater_than(&two_sixths));
    assert!(third.is_less_than_fraction(1, 2));
    assert!(!third.is_greater_than_fraction(1, 2));
    assert_eq!(third.numerator(), 1);
    assert_eq!(third.denominator(), 3);
    let negative = Ratio::new(-1, 3);
    assert!(negative.is_less_than(&third));
    let huge = Ratio::new(i64::MAX, 1);
    let tiny = Ratio::new(i64::MIN, 1);
    assert!(tiny.is_less_than(&huge));
}

#[test]
fn tie_window_is_open() {
    let a = Ratio::new(500, 1000);
    assert!(a.is_closer_than(&Ratio::new(500, 1000), 1000));
    assert!(a.is_closer_than(&Ratio::new(5009, 10000), 1000));
    assert!(!a.is_closer_than(&Ratio::new(501, 1000), 1000));
    assert!(!a.is_closer_than(&Ratio::new(499, 1000), 1000));
    assert!(a.is_closer_than(&Ratio::new(4991, 10000), 1000));
    assert!(Ratio::new(i64::MAX, 1).is_closer_than(&Ratio::new(i64::MAX, 1), 1000));
    assert!(!Ratio::new(i64::MAX, 1).is_closer_than(&Ratio::new(i64::MIN, 1), 1000));
}

#[test]
fn clamping_to_the_unit_interval() {
    let below = Ratio::new(-1, 1_000_000).clamp_to_unit();
    assert_eq!((below.numerator(), below.denominator()), (0, 1_000_000));
    let above = Ratio::new(1_000_001, 1_000_000).clamp_to_unit();
    assert_eq!((above.numerator(), above.denominator()), (1_000_000, 1_000_000));
    let inside = Ratio::new(3, 4).clamp_to_unit();
    assert_eq!((inside.numerator(), inside.denominator()), (3, 4));
}

#[test]
fn vector_arithmetic() {
    let a = Vector2::new(3, -4);
    let b = Vector2::new(-1, 2);
    assert_eq!(a.plus(b), Vector2::new(2, -2));
    assert_eq!(a.minus(b), Vector2::new(4, -6));
    assert_eq!(a.negated(), Vector2::new(-3, 4));
    assert_eq!(a.rot90(), Vector2::new(4, 3));
    assert_eq!(a.cross(b), 3 * 2 - (-4) * (-1));
    assert_eq!(a.dot(b), -3 - 8);
    assert_eq!(a.magnitude2(), 25);
    assert_eq!(Vector2::zero(), Vector2::new(0, 0));
    assert_eq!(
        Vector2::new(i64::MIN, i64::MIN).cross(Vector2::new(i64::MAX, i64::MIN)),
        (i64::MIN as i128) * (i64::MIN as i128) - (i64::MIN as i128) * (i64::MAX as i128)
    );
    assert!(Vector2::new(100_000_000, -100_000_000).is_in_range());
    assert!(!Vector2::new(100_000_001, 0).is_in_range());
}

#[test]
fn scaling_rounds_as_it_says() {
    let v = Vector2::new(10, -10);
    assert_eq!(v.scale_toward_zero(1, 3), Vector2::new(3, -3));
    assert_eq!(v.scale_toward_zero(3, 3), v);
    assert_eq!(v.scale_toward_zero(-1, 3), Vector2::new(-3, 3));
    assert_eq!(v.scale_by_quotient(7, 4), Vector2::new(17, -17));
}

#[test]
fn projection_on_a_line() {
    assert_eq!(
        Vector2::new(3000, 4000).project_on(Vector2::new(10, 0)),
        Vector2::new(3000, 0)
    );
    assert_eq!(
        Vector2::new(3000, 4000).project_on(Vector2::new(0, -7)),
        Vector2::new(0, 4000)
    );
    assert_eq!(
        Vector2::new(1000, 0).project_on(Vector2::new(1, 1)),
        Vector2::new(500, 500)
    );
    assert_eq!(
        Vector2::new(1001, 0).project_on(Vector2::new(1, 1)),
        Vector2::new(500, 500)
    );
    assert_eq!(
        Vector2::new(-1001, 0).project_on(Vector2::new(1, 1)),
        Vector2::new(-500, -500)
    );
    assert_eq!(
        Vector2::new(5, 5).project_on(Vector2::new(0, 0)),
        Vector2::new(0, 0)
    );
    assert_eq!(
        Vector2::new(5, 5).project_on(Vector2::new(1, -1)),
        Vector2::new(0, 0)
    );
}

#[test]
fn resizing_rounds_away_from_zero() {
    assert_eq!(Vector2::new(3, 4).resize(100), Vector2::new(60, 80));
    assert_eq!(Vector2::new(-3, 4).resize(100), Vector2::new(-60, 80));
    assert_eq!(Vector2::new(1, 1).resize(100), Vector2::new(71, 71));
    assert_eq!(Vector2::new(-1, -1).resize(100), Vector2::new(-71, -71));
    assert_eq!(Vector2::new(0, -5).resize(100), Vector2::new(0, -100));
    assert_eq!(Vector2::new(0, 0).resize(100), Vector2::new(0, 0));
    assert_eq!(Vector2::new(2000, 1000).resize(100), Vector2::new(90, 45));
    assert_eq!(Vector2::new(7, 0).resize(0), Vector2::new(0, 0));
}
