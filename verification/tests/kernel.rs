use planar_intersects::{is_between, orientation, Coordinate, Orientation, Scalar};

fn c(x: i64, y: i64) -> Coordinate<i64> {
    Coordinate::new(x, y)
}

#[test]
fn orientation_of_small_triples() {
    assert_eq!(orientation(&c(0, 0), &c(4, 0), &c(4, 3)), Orientation::CounterClockwise);
    assert_eq!(orientation(&c(0, 0), &c(4, 0), &c(4, -3)), Orientation::Clockwise);
    assert_eq!(orientation(&c(0, 0), &c(4, 0), &c(9, 0)), Orientation::Collinear);
    assert_eq!(orientation(&c(1, 1), &c(3, 5), &c(2, 3)), Orientation::Collinear);
}

#[test]
fn orientation_reverses_with_the_first_two_points() {
    assert_eq!(orientation(&c(4, 0), &c(0, 0), &c(4, 3)), Orientation::Clockwise);
    assert_eq!(orientation(&c(4, 0), &c(0, 0), &c(4, -3)), Orientation::CounterClockwise);
}

#[test]
fn orientation_of_coincident_points_is_collinear() {
    assert_eq!(orientation(&c(7, 7), &c(7, 7), &c(1, 2)), Orientation::Collinear);
    assert_eq!(orientation(&c(7, 7), &c(1, 2), &c(7, 7)), Orientation::Collinear);
    assert_eq!(orientation(&c(7, 7), &c(7, 7), &c(7, 7)), Orientation::Collinear);
}

#[test]
fn orientation_is_exact_at_the_ends_of_the_range() {
    let lo = i64::MIN;
    let hi = i64::MAX;
    // The two products are (2^64 - 1)^2 and 0: more than 127 bits.
    assert_eq!(orientation(&c(lo, lo), &c(hi, hi), &c(hi, lo)), Orientation::Clockwise);
    assert_eq!(orientation(&c(lo, lo), &c(hi, hi), &c(lo, hi)), Orientation::CounterClockwise);
    assert_eq!(orientation(&c(lo, lo), &c(hi, hi), &c(0, 0)), Orientation::Collinear);
    assert_eq!(orientation(&c(lo, lo), &c(hi, hi), &c(-1, -1)), Orientation::Collinear);
    // The two products differ by one: D * (D - 2) against (D - 1)^2, D = 2^64 - 1.
    assert_eq!(
        orientation(&c(lo, lo), &c(hi, hi - 1), &c(hi - 1, hi - 2)),
        Orientation::Clockwise
    );
    assert_eq!(
        orientation(&c(lo, lo), &c(hi - 1, hi - 2), &c(hi, hi - 1)),
        Orientation::CounterClockwise
    );
}

#[test]
fn orientation_with_both_products_negative() {
    // (b - a) = (-3, 2), (c - a) = (5, 4): cross = -3 * 4 - 2 * 5 = -22.
    assert_eq!(orientation(&c(0, 0), &c(-3, 2), &c(5, 4)), Orientation::Clockwise);
    // (b - a) = (-3, 2), (c - a) = (-5, 1): cross = -3 * 1 - 2 * -5 = 7.
    assert_eq!(orientation(&c(0, 0), &c(-3, 2), &c(-5, 1)), Orientation::CounterClockwise);
    // (b - a) = (3, -2), (c - a) = (2, -5): cross = 3 * -5 - (-2) * 2 = -11.
    assert_eq!(orientation(&c(0, 0), &c(3, -2), &c(2, -5)), Orientation::Clockwise);
}

#[test]
fn orientation_for_thirty_two_bit_coordinates() {
    let a = Coordinate::new(i32::MIN, i32::MIN);
    let b = Coordinate::new(i32::MAX, i32::MAX);
    assert_eq!(orientation(&a, &b, &Coordinate::new(i32::MAX, i32::MIN)), Orientation::Clockwise);
    assert_eq!(
        orientation(&a, &b, &Coordinate::new(i32::MIN, i32::MAX)),
        Orientation::CounterClockwise
    );
    assert_eq!(orientation(&a, &b, &Coordinate::new(5, 5)), Orientation::Collinear);
}

#[test]
fn scalar_comparisons() {
    assert!(3i64.less_than(4));
    assert!(!4i64.less_than(4));
    assert!(!5i64.less_than(4));
    assert!(i64::MIN.less_than(i64::MAX));
    assert!(4i64.same(4));
    assert!(!4i64.same(-4));
    assert!((-7i32).less_than(-6));
    assert!(!(-6i32).less_than(-7));
    assert!(9i32.same(9));
    assert_eq!(
        <i64 as Scalar>::orient2d(0, 0, 1, 0, 0, 1),
        Orientation::CounterClockwise
    );
    assert_eq!(<i32 as Scalar>::orient2d(0, 0, 1, 0, 0, -1), Orientation::Clockwise);
}

#[test]
fn between_needs_the_line_and_the_span() {
    assert!(is_between(&c(0, 0), &c(4, 4), &c(2, 2)));
    assert!(is_between(&c(4, 4), &c(0, 0), &c(2, 2)));
    assert!(is_between(&c(0, 0), &c(4, 4), &c(0, 0)));
    assert!(is_between(&c(0, 0), &c(4, 4), &c(4, 4)));
    assert!(!is_between(&c(0, 0), &c(4, 4), &c(5, 5)));
    assert!(!is_between(&c(0, 0), &c(4, 4), &c(-1, -1)));
    assert!(!is_between(&c(0, 0), &c(4, 4), &c(2, 3)));
    assert!(is_between(&c(0, 3), &c(9, 3), &c(5, 3)));
    assert!(is_between(&c(3, 0), &c(3, 9), &c(3, 5)));
}

#[test]
fn between_the_ends_of_a_degenerate_segment_lies_only_its_point() {
    assert!(is_between(&c(3, 3), &c(3, 3), &c(3, 3)));
    assert!(!is_between(&c(3, 3), &c(3, 3), &c(3, 4)));
    assert!(!is_between(&c(3, 3), &c(3, 3), &c(0, 0)));
}

#[test]
fn coordinates_compare_by_value() {
    assert!(c(1, 2).same_as(&c(1, 2)));
    assert!(!c(1, 2).same_as(&c(2, 1)));
    assert!(!c(1, 2).same_as(&c(1, 3)));
}
