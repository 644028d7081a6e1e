use planar_intersects::{Contains, Coordinate, Intersects, Line, LineString, Point, Polygon};

fn ring(pairs: Vec<(i64, i64)>) -> LineString<i64> {
    LineString::from_pairs(pairs)
}

fn box_ring(x0: i64, y0: i64, x1: i64, y1: i64) -> LineString<i64> {
    ring(vec![(x0, y0), (x0, y1), (x1, y1), (x1, y0), (x0, y0)])
}

fn plain(x0: i64, y0: i64, x1: i64, y1: i64) -> Polygon<i64> {
    Polygon::new(box_ring(x0, y0, x1, y1), vec![])
}

/// The square from (0, 0) to (10, 10) with the hole from (2, 2) to (8, 8).
fn frame() -> Polygon<i64> {
    Polygon::new(box_ring(0, 0, 10, 10), vec![box_ring(2, 2, 8, 8)])
}

fn line(ax: i64, ay: i64, bx: i64, by: i64) -> Line<i64> {
    Line::new(Coordinate::new(ax, ay), Coordinate::new(bx, by))
}

fn meet(a: &Polygon<i64>, b: &Polygon<i64>) -> bool {
    let forth = a.intersects(b);
    assert_eq!(forth, b.intersects(a));
    forth
}

#[test]
fn polygon_keeps_its_rings() {
    let p = frame();
    assert_eq!(p.exterior().0.len(), 5);
    assert_eq!(p.interiors().len(), 1);
    assert_eq!((p.interiors()[0].0[2].x, p.interiors()[0].0[2].y), (8, 8));
    let q = p.clone();
    assert_eq!(q.exterior().0.len(), 5);
    assert_eq!((q.interiors()[0].0[1].x, q.interiors()[0].0[1].y), (2, 8));
}

#[test]
fn containment_is_strict() {
    let p = frame();
    assert!(p.contains(&Coordinate::new(1, 1)));
    assert!(p.contains(&Point::new(9, 5)));
    assert!(!p.contains(&Coordinate::new(0, 5)));
    assert!(!p.contains(&Coordinate::new(2, 5)));
    assert!(!p.contains(&Coordinate::new(5, 5)));
    assert!(!p.contains(&Point::new(11, 5)));
}

#[test]
fn points_against_a_polygon_with_a_hole() {
    let p = frame();
    assert!(p.intersects(&Point::new(1, 1)));
    assert!(p.intersects(&Point::new(0, 0)));
    // On the boundary of the hole.
    assert!(p.intersects(&Point::new(2, 5)));
    assert!(p.intersects(&Point::new(8, 8)));
    // Strictly inside the hole.
    assert!(!p.intersects(&Point::new(5, 5)));
    assert!(!p.intersects(&Point::new(3, 7)));
    assert!(!p.intersects(&Point::new(-1, 5)));
}

#[test]
fn points_against_a_polygon_with_two_holes() {
    let p = Polygon::new(
        box_ring(0, 0, 20, 10),
        vec![box_ring(2, 2, 8, 8), box_ring(12, 2, 18, 8)],
    );
    assert!(!p.intersects(&Point::new(5, 5)));
    assert!(!p.intersects(&Point::new(15, 5)));
    assert!(p.intersects(&Point::new(10, 5)));
    assert!(p.intersects(&Point::new(12, 5)));
    assert!(p.contains(&Point::new(10, 5)));
    assert!(!p.contains(&Point::new(15, 5)));
}

#[test]
fn segments_against_a_polygon() {
    let p = plain(0, 0, 10, 10);
    assert!(p.intersects(&line(-5, 5, 15, 5)));
    assert!(p.intersects(&line(2, 2, 8, 8)));
    assert!(p.intersects(&line(5, 5, 50, 50)));
    assert!(!p.intersects(&line(20, 0, 30, 5)));
    assert!(!p.intersects(&line(-5, 15, 5, 15)));
    // Touching from outside: at a vertex, and on the inside of an edge.
    assert!(p.intersects(&line(-5, 5, 0, 10)));
    assert!(p.intersects(&line(-3, 5, 0, 5)));
    // Along an edge.
    assert!(p.intersects(&line(0, -5, 0, 15)));
    // Past a corner.
    assert!(!p.intersects(&line(-2, 11, 1, 14)));
}

#[test]
fn segments_against_a_polygon_with_a_hole() {
    let p = frame();
    // Wholly inside the hole.
    assert!(!p.intersects(&line(4, 4, 6, 6)));
    // Across the boundary of the hole.
    assert!(p.intersects(&line(1, 5, 5, 5)));
    // Between the exterior ring and the hole.
    assert!(p.intersects(&line(1, 1, 1, 9)));
    // From inside the hole onto its boundary.
    assert!(p.intersects(&line(5, 5, 8, 5)));
}

#[test]
fn degenerate_segments_against_a_polygon() {
    let p = frame();
    assert!(p.intersects(&line(1, 1, 1, 1)));
    assert!(p.intersects(&line(0, 5, 0, 5)));
    assert!(p.intersects(&line(2, 2, 2, 2)));
    assert!(!p.intersects(&line(5, 5, 5, 5)));
    assert!(!p.intersects(&line(20, 20, 20, 20)));
}

#[test]
fn polylines_against_a_polygon() {
    let p = plain(0, 0, 10, 10);
    // A closed loop in the interior that touches no ring.
    assert!(p.intersects(&box_ring(3, 3, 7, 7)));
    assert!(p.intersects(&ring(vec![(-5, 5), (5, 5), (5, 20)])));
    assert!(p.intersects(&ring(vec![(-5, -5), (-1, -1), (0, 0)])));
    assert!(!p.intersects(&ring(vec![(20, 0), (30, 0), (30, 10)])));
    // A loop around the polygon is a curve, not an area.
    assert!(!p.intersects(&box_ring(-5, -5, 15, 15)));
}

#[test]
fn polylines_against_a_polygon_with_a_hole() {
    let p = frame();
    assert!(!p.intersects(&box_ring(4, 4, 6, 6)));
    assert!(p.intersects(&box_ring(1, 1, 9, 9)));
    assert!(p.intersects(&ring(vec![(5, 5), (5, 9)])));
    assert!(!p.intersects(&ring(vec![(3, 3), (7, 3), (7, 7)])));
}

#[test]
fn polylines_without_an_edge_against_a_polygon() {
    let p = plain(0, 0, 10, 10);
    let empty: LineString<i64> = LineString::new(vec![]);
    assert!(!p.intersects(&empty));
    // A single vertex has no edge: it counts where it is strictly inside.
    assert!(p.intersects(&ring(vec![(5, 5)])));
    assert!(!p.intersects(&ring(vec![(0, 5)])));
    assert!(!p.intersects(&ring(vec![(20, 5)])));
}

#[test]
fn overlapping_and_separate_polygons() {
    assert!(meet(&plain(0, 0, 10, 10), &plain(5, 5, 15, 15)));
    assert!(!meet(&plain(0, 0, 10, 10), &plain(20, 20, 30, 30)));
    assert!(!meet(&plain(0, 0, 10, 10), &plain(11, 0, 20, 10)));
}

#[test]
fn touching_polygons() {
    assert!(meet(&plain(0, 0, 10, 10), &plain(10, 10, 20, 20)));
    assert!(meet(&plain(0, 0, 10, 10), &plain(10, 0, 20, 10)));
    assert!(meet(&plain(0, 0, 10, 10), &plain(10, 3, 20, 7)));
}

#[test]
fn nested_polygons() {
    // One wholly inside the other, no ring touching: found from either side.
    assert!(meet(&plain(0, 0, 10, 10), &plain(3, 3, 7, 7)));
    assert!(meet(&plain(-5, -5, 15, 15), &frame()));
    assert!(meet(&frame(), &plain(1, 1, 9, 9)));
}

#[test]
fn a_polygon_in_the_hole_of_another() {
    assert!(!meet(&frame(), &plain(4, 4, 6, 6)));
    assert!(meet(&frame(), &plain(1, 1, 5, 5)));
    assert!(meet(&frame(), &plain(2, 2, 8, 8)));
    // A frame in the hole of a frame.
    let inner = Polygon::new(box_ring(3, 3, 7, 7), vec![box_ring(4, 4, 6, 6)]);
    assert!(!meet(&frame(), &inner));
}

#[test]
fn polygons_meet_themselves() {
    let p = plain(0, 0, 10, 10);
    assert!(p.intersects(&p));
    let f = frame();
    assert!(f.intersects(&f));
    let sliver = Polygon::new(ring(vec![(0, 0), (5, 5)]), vec![]);
    assert!(sliver.intersects(&sliver));
}

#[test]
fn a_polygon_without_vertices_meets_nothing() {
    let nothing: Polygon<i64> = Polygon::new(LineString::new(vec![]), vec![]);
    assert!(!nothing.intersects(&Point::new(0, 0)));
    assert!(!nothing.intersects(&line(-5, -5, 5, 5)));
    assert!(!nothing.intersects(&box_ring(-1, -1, 1, 1)));
    assert!(!meet(&nothing, &plain(-5, -5, 5, 5)));
    assert!(!nothing.intersects(&nothing));
    assert!(!nothing.contains(&Point::new(0, 0)));
    let speck = Polygon::new(ring(vec![(3, 3)]), vec![]);
    assert!(!speck.intersects(&speck));
    assert!(!speck.intersects(&Point::new(3, 3)));
}

#[test]
fn a_hole_outside_its_polygon_is_seen_from_one_side_only() {
    // Not a well-formed polygon: its hole lies apart from its exterior ring.
    let odd = Polygon::new(box_ring(100, 100, 110, 110), vec![box_ring(4, 4, 6, 6)]);
    let square = plain(0, 0, 10, 10);
    assert!(square.intersects(&odd));
    assert!(!odd.intersects(&square));
}

#[test]
fn thirty_two_bit_polygons() {
    let p = Polygon::new(
        LineString::from_pairs(vec![(0i32, 0i32), (0, 10), (10, 10), (10, 0), (0, 0)]),
        vec![LineString::from_pairs(vec![(4i32, 4i32), (4, 6), (6, 6), (6, 4), (4, 4)])],
    );
    assert!(p.intersects(&Point::new(1, 1)));
    assert!(!p.intersects(&Point::new(5, 5)));
    assert!(p.intersects(&Line::new(Coordinate::new(-5, 5), Coordinate::new(15, 5))));
    assert!(p.intersects(&p));
}
