use planar_intersects::{Coordinate, Intersects, Line, LineString, Point};

fn line(ax: i64, ay: i64, bx: i64, by: i64) -> Line<i64> {
    Line::new(Coordinate::new(ax, ay), Coordinate::new(bx, by))
}

fn both_ways(a: &Line<i64>, b: &Line<i64>) -> bool {
    let forth = a.intersects(b);
    assert_eq!(forth, b.intersects(a));
    forth
}

#[test]
fn crossing_segments_intersect() {
    assert!(both_ways(&line(0, 0, 4, 4), &line(0, 4, 4, 0)));
    assert!(both_ways(&line(-5, 5, 15, 5), &line(0, 0, 0, 10)));
}

#[test]
fn touching_segments_intersect() {
    // The end of one on the inside of the other.
    assert!(both_ways(&line(0, 0, 4, 0), &line(2, 0, 2, 5)));
    // A shared end.
    assert!(both_ways(&line(0, 0, 2, 2), &line(2, 2, 4, 0)));
}

#[test]
fn segments_whose_lines_cross_elsewhere_do_not_intersect() {
    assert!(!both_ways(&line(0, 0, 1, 1), &line(3, 0, 0, 3)));
    assert!(!both_ways(&line(0, 0, 4, 0), &line(2, 1, 2, 5)));
}

#[test]
fn parallel_segments_do_not_intersect() {
    assert!(!both_ways(&line(0, 0, 4, 0), &line(0, 1, 4, 1)));
    assert!(!both_ways(&line(0, 0, 4, 4), &line(1, 0, 5, 4)));
}

#[test]
fn collinear_segments_intersect_where_they_overlap() {
    assert!(both_ways(&line(0, 0, 4, 0), &line(2, 0, 6, 0)));
    assert!(both_ways(&line(0, 0, 4, 0), &line(4, 0, 6, 0)));
    assert!(both_ways(&line(0, 0, 9, 9), &line(3, 3, 5, 5)));
    assert!(!both_ways(&line(0, 0, 1, 0), &line(2, 0, 3, 0)));
    assert!(!both_ways(&line(0, 0, 1, 1), &line(2, 2, 3, 3)));
}

#[test]
fn a_degenerate_segment_behaves_as_its_point() {
    assert!(both_ways(&line(2, 2, 2, 2), &line(0, 0, 4, 4)));
    assert!(!both_ways(&line(2, 2, 2, 2), &line(0, 1, 4, 5)));
    assert!(!both_ways(&line(5, 5, 5, 5), &line(0, 0, 4, 4)));
    assert!(both_ways(&line(2, 2, 2, 2), &line(2, 2, 2, 2)));
    assert!(!both_ways(&line(2, 2, 2, 2), &line(2, 3, 2, 3)));
}

#[test]
fn segments_at_the_ends_of_the_range() {
    let lo = i64::MIN;
    let hi = i64::MAX;
    assert!(both_ways(&line(lo, lo, hi, hi), &line(lo, hi, hi, lo)));
    assert!(!both_ways(&line(lo, lo, hi, lo), &line(lo, hi, hi, hi)));
    assert!(both_ways(&line(lo, lo, hi, hi), &line(0, 0, hi, lo)));
    assert!(!both_ways(&line(lo, lo, hi, hi), &line(1, 0, hi, lo)));
}

#[test]
fn point_on_segment() {
    assert!(line(0, 0, 4, 4).intersects(&Point::new(2, 2)));
    assert!(line(0, 0, 4, 4).intersects(&Point::new(0, 0)));
    assert!(line(0, 0, 4, 4).intersects(&Coordinate::new(4, 4)));
    assert!(!line(0, 0, 4, 4).intersects(&Point::new(2, 3)));
    assert!(!line(0, 0, 4, 4).intersects(&Point::new(5, 5)));
}

#[test]
fn points_intersect_where_they_coincide() {
    assert!(Point::new(3i64, 4).intersects(&Point::new(3, 4)));
    assert!(!Point::new(3i64, 4).intersects(&Point::new(4, 3)));
    assert!(Coordinate::new(3i64, 4).intersects(&Coordinate::new(3, 4)));
    assert!(!Coordinate::new(3i64, 4).intersects(&Coordinate::new(3, 5)));
}

#[test]
fn polyline_against_point_segment_and_polyline() {
    let zigzag = LineString::from_pairs(vec![(0i64, 0i64), (4, 4), (8, 0), (12, 4)]);
    assert!(zigzag.intersects(&Point::new(6, 2)));
    assert!(zigzag.intersects(&Coordinate::new(12, 4)));
    assert!(!zigzag.intersects(&Point::new(6, 3)));
    assert!(zigzag.intersects(&line(0, 2, 12, 2)));
    assert!(zigzag.intersects(&line(10, 0, 10, 9)));
    assert!(!zigzag.intersects(&line(0, 5, 12, 5)));
    let other = LineString::from_pairs(vec![(0i64, 3i64), (2, 3), (2, 0)]);
    assert!(zigzag.intersects(&other));
    assert!(other.intersects(&zigzag));
    let apart = LineString::from_pairs(vec![(0i64, 5i64), (12, 5), (12, 9)]);
    assert!(!zigzag.intersects(&apart));
    assert!(!apart.intersects(&zigzag));
}

#[test]
fn a_polyline_without_an_edge_meets_nothing() {
    let empty: LineString<i64> = LineString::new(vec![]);
    let single = LineString::from_pairs(vec![(2i64, 2i64)]);
    let diagonal = LineString::from_pairs(vec![(0i64, 0i64), (4, 4)]);
    assert_eq!(empty.edge_count(), 0);
    assert_eq!(single.edge_count(), 0);
    assert_eq!(diagonal.edge_count(), 1);
    assert!(!empty.intersects(&Point::new(0, 0)));
    assert!(!single.intersects(&Point::new(2, 2)));
    assert!(!single.intersects(&line(0, 0, 4, 4)));
    assert!(!single.intersects(&diagonal));
    assert!(!diagonal.intersects(&single));
    assert!(!empty.intersects(&empty));
    assert!(diagonal.intersects(&diagonal));
}

#[test]
fn edges_of_a_polyline() {
    let path = LineString::from_pairs(vec![(0i64, 1i64), (2, 3), (4, 5)]);
    let first = path.edge(0);
    let second = path.edge(1);
    assert_eq!((first.start.x, first.start.y, first.end.x, first.end.y), (0, 1, 2, 3));
    assert_eq!((second.start.x, second.start.y, second.end.x, second.end.y), (2, 3, 4, 5));
}
