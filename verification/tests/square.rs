use planar_intersects::{Coordinate, Intersects, Line, LineString, Point, Polygon, Rect};

fn square() -> Polygon<i64> {
    Polygon::new(
        LineString::from_pairs(vec![(0, 0), (0, 10), (10, 10), (10, 0), (0, 0)]),
        vec![],
    )
}

fn square_with_hole() -> Polygon<i64> {
    Polygon::new(
        LineString::from_pairs(vec![(0, 0), (0, 10), (10, 10), (10, 0), (0, 0)]),
        vec![LineString::from_pairs(vec![(4, 4), (4, 6), (6, 6), (6, 4), (4, 4)])],
    )
}

fn line(ax: i64, ay: i64, bx: i64, by: i64) -> Line<i64> {
    Line::new(Coordinate::new(ax, ay), Coordinate::new(bx, by))
}

#[test]
fn square_meets_a_point_of_its_interior() {
    assert!(square().intersects(&Point::new(5, 5)));
    assert!(square().intersects(&Coordinate::new(5, 5)));
}

#[test]
fn square_misses_a_point_outside() {
    assert!(!square().intersects(&Point::new(20, 20)));
    assert!(!square().intersects(&Coordinate::new(20, 20)));
}

#[test]
fn square_meets_a_point_of_its_edge() {
    assert!(square().intersects(&Point::new(0, 5)));
    assert!(square().intersects(&Coordinate::new(0, 5)));
}

#[test]
fn square_meets_a_segment_across_two_edges() {
    assert!(square().intersects(&line(-5, 5, 15, 5)));
}

#[test]
fn square_meets_a_segment_in_its_interior() {
    assert!(square().intersects(&line(2, 2, 8, 8)));
}

#[test]
fn square_misses_a_rectangle_apart() {
    let rect = Rect::new(Coordinate::new(20, 20), Coordinate::new(30, 30));
    assert!(!square().intersects(&rect));
}

#[test]
fn square_with_hole_misses_a_point_in_the_hole() {
    assert!(!square_with_hole().intersects(&Point::new(5, 5)));
    assert!(!square_with_hole().intersects(&Coordinate::new(5, 5)));
}
