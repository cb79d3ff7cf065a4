use fieldchain::arith::{div_toward_zero, floor_div, isqrt, Fraction};
use fieldchain::point::Point;

#[test]
fn points_add_and_subtract_by_component() {
    let p: Point<i32, 2> = Point::new([3, -4]);
    let q: Point<i32, 2> = Point::new([10, 20]);
    assert_eq!(p + q, Point::new([13, 16]));
    assert_eq!(p - q, Point::new([-7, -24]));
    assert_eq!(q - p, Point::new([7, 24]));
}

#[test]
fn points_multiply_and_divide_by_component() {
    let p: Point<i64, 3> = Point::new([6, -9, 12]);
    let q: Point<i64, 3> = Point::new([2, 3, -4]);
    assert_eq!(p * q, Point::new([12, -27, -48]));
    assert_eq!(p / q, Point::new([3, -3, -3]));
}

#[test]
fn points_scale_by_a_number() {
    let p: Point<i64, 2> = Point::new([7, -7]);
    assert_eq!(p * 3, Point::new([21, -21]));
    assert_eq!(p / 2, Point::new([3, -3]));
}

#[test]
fn points_convert_from_and_to_arrays() {
    let p: Point<i32, 2> = [5, 6].into();
    assert_eq!(p, Point::new([5, 6]));
    let a: [i32; 2] = p.into();
    assert_eq!(a, [5, 6]);
    assert_eq!(p[0], 5);
    assert_eq!(p[1], 6);
}

#[test]
fn points_widen_their_components() {
    let p: Point<i32, 2> = Point::new([-3, 2_000_000_000]);
    let w: Point<i64, 2> = (p,).into();
    assert_eq!(w, Point::new([-3i64, 2_000_000_000i64]));
}

#[test]
fn lerp_weights_the_first_point_by_the_fraction() {
    let a: Point<i64, 2> = Point::new([0, 100]);
    let b: Point<i64, 2> = Point::new([80, 20]);
    assert_eq!(a.lerp(b, Fraction { num: 1, den: 1 }), a);
    assert_eq!(a.lerp(b, Fraction { num: 0, den: 1 }), b);
    assert_eq!(a.lerp(b, Fraction { num: 1, den: 4 }), Point::new([60, 40]));
    assert_eq!(a.lerp(b, Fraction { num: 1, den: 3 }), Point::new([53, 46]));
    assert_eq!(a.lerp(b, Fraction { num: -1, den: 2 }), Point::new([120, -20]));
}

#[test]
fn lerp_rounds_down() {
    let a: Point<i64, 1> = Point::new([0]);
    let b: Point<i64, 1> = Point::new([-5]);
    assert_eq!(a.lerp(b, Fraction { num: 1, den: 2 }), Point::new([-3]));
    let c: Point<i64, 1> = Point::new([5]);
    assert_eq!(a.lerp(c, Fraction { num: 1, den: 2 }), Point::new([2]));
}

#[test]
fn floor_div_rounds_towards_negative_infinity() {
    assert_eq!(floor_div(7, 2), 3);
    assert_eq!(floor_div(-7, 2), -4);
    assert_eq!(floor_div(-8, 2), -4);
    assert_eq!(floor_div(0, 5), 0);
    assert_eq!(floor_div(-1, 5), -1);
    assert_eq!(floor_div(i64::MIN, 1), i64::MIN);
    assert_eq!(floor_div(i64::MIN, 3), -3074457345618258603);
}

#[test]
fn div_toward_zero_rounds_towards_zero() {
    assert_eq!(div_toward_zero(7, 2), 3);
    assert_eq!(div_toward_zero(-7, 2), -3);
    assert_eq!(div_toward_zero(-8, 2), -4);
    assert_eq!(div_toward_zero(-1, 5), 0);
}

#[test]
fn isqrt_rounds_down() {
    assert_eq!(isqrt(0), 0);
    assert_eq!(isqrt(1), 1);
    assert_eq!(isqrt(24), 4);
    assert_eq!(isqrt(25), 5);
    assert_eq!(isqrt(26), 5);
    assert_eq!(isqrt(1_000_000_000_000), 1_000_000);
    assert_eq!(isqrt((1u128 << 126) - 1), (1u64 << 63) - 1);
}

#[test]
fn points_hold_any_numbers() {
    let p: Point<f64, 2> = Point::new([1.5, -2.0]);
    let q: Point<f64, 2> = Point::new([0.5, 4.0]);
    assert_eq!(p + q, Point::new([2.0, 2.0]));
    assert_eq!(p - q, Point::new([1.0, -6.0]));
    assert_eq!(p * q, Point::new([0.75, -8.0]));
    assert_eq!(p / q, Point::new([3.0, -0.5]));
    assert_eq!(p * 2.0, Point::new([3.0, -4.0]));
    assert_eq!(p / 2.0, Point::new([0.75, -1.0]));
    assert_eq!(p[1], -2.0);
}

#[test]
fn points_compare_by_their_components() {
    let p: Point<i32, 2> = Point::new([1, 2]);
    let q: Point<i32, 2> = Point::new([1, 3]);
    assert!(p < q);
    assert_ne!(p, q);
    assert_eq!(p, Point::new([1, 2]));
}
