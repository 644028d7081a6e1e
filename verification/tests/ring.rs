use planar_intersects::{coord_pos_relative_to_ring, Coordinate, CoordPos, LineString};

fn ring(pairs: Vec<(i64, i64)>) -> LineString<i64> {
    LineString::from_pairs(pairs)
}

fn pos(x: i64, y: i64, ring: &LineString<i64>) -> CoordPos {
    coord_pos_relative_to_ring(Coordinate::new(x, y), ring)
}

fn square() -> LineString<i64> {
    ring(vec![(0, 0), (0, 10), (10, 10), (10, 0), (0, 0)])
}

#[test]
fn inside_a_square() {
    assert_eq!(pos(5, 5, &square()), CoordPos::Inside);
    assert_eq!(pos(1, 9, &square()), CoordPos::Inside);
    assert_eq!(pos(9, 1, &square()), CoordPos::Inside);
}

#[test]
fn outside_a_square() {
    assert_eq!(pos(20, 20, &square()), CoordPos::Outside);
    assert_eq!(pos(-1, 5, &square()), CoordPos::Outside);
    assert_eq!(pos(15, 5, &square()), CoordPos::Outside);
    assert_eq!(pos(5, -1, &square()), CoordPos::Outside);
    assert_eq!(pos(5, 11, &square()), CoordPos::Outside);
    // Level with the top and the bottom edge, but beyond them.
    assert_eq!(pos(-3, 10, &square()), CoordPos::Outside);
    assert_eq!(pos(-3, 0, &square()), CoordPos::Outside);
    assert_eq!(pos(13, 10, &square()), CoordPos::Outside);
}

#[test]
fn on_the_boundary_of_a_square() {
    assert_eq!(pos(0, 5, &square()), CoordPos::OnBoundary);
    assert_eq!(pos(10, 5, &square()), CoordPos::OnBoundary);
    assert_eq!(pos(5, 0, &square()), CoordPos::OnBoundary);
    assert_eq!(pos(5, 10, &square()), CoordPos::OnBoundary);
    assert_eq!(pos(0, 0, &square()), CoordPos::OnBoundary);
    assert_eq!(pos(10, 10, &square()), CoordPos::OnBoundary);
    assert_eq!(pos(0, 10, &square()), CoordPos::OnBoundary);
    assert_eq!(pos(10, 0, &square()), CoordPos::OnBoundary);
}

#[test]
fn the_direction_of_the_ring_does_not_matter() {
    let reversed = ring(vec![(0, 0), (10, 0), (10, 10), (0, 10), (0, 0)]);
    assert_eq!(pos(5, 5, &reversed), CoordPos::Inside);
    assert_eq!(pos(-1, 5, &reversed), CoordPos::Outside);
    assert_eq!(pos(10, 5, &reversed), CoordPos::OnBoundary);
}

#[test]
fn a_ray_through_a_vertex_counts_once() {
    let diamond = ring(vec![(0, -5), (5, 0), (0, 5), (-5, 0), (0, -5)]);
    // The ray from the centre leaves through the vertex (5, 0).
    assert_eq!(pos(0, 0, &diamond), CoordPos::Inside);
    // The ray from the left passes through the vertices (-5, 0) and (5, 0).
    assert_eq!(pos(-10, 0, &diamond), CoordPos::Outside);
    assert_eq!(pos(10, 0, &diamond), CoordPos::Outside);
    // The ray touches the top and the bottom vertex from outside.
    assert_eq!(pos(-3, 5, &diamond), CoordPos::Outside);
    assert_eq!(pos(-3, -5, &diamond), CoordPos::Outside);
    assert_eq!(pos(-5, 0, &diamond), CoordPos::OnBoundary);
    assert_eq!(pos(2, 3, &diamond), CoordPos::OnBoundary);
    assert_eq!(pos(2, 2, &diamond), CoordPos::Inside);
    assert_eq!(pos(3, 3, &diamond), CoordPos::Outside);
}

#[test]
fn a_ray_along_an_edge_does_not_count_it() {
    // The ray from (-1, 5) runs along the edge from (0, 5) to (5, 5).
    let step = ring(vec![(0, 0), (0, 5), (5, 5), (5, 10), (10, 10), (10, 0), (0, 0)]);
    assert_eq!(pos(-1, 5, &step), CoordPos::Outside);
    assert_eq!(pos(2, 5, &step), CoordPos::OnBoundary);
    assert_eq!(pos(7, 5, &step), CoordPos::Inside);
    assert_eq!(pos(2, 7, &step), CoordPos::Outside);
    assert_eq!(pos(2, 3, &step), CoordPos::Inside);
    assert_eq!(pos(11, 5, &step), CoordPos::Outside);
}

#[test]
fn a_ring_with_a_notch() {
    let ell = ring(vec![(0, 0), (0, 10), (5, 10), (5, 5), (10, 5), (10, 0), (0, 0)]);
    assert_eq!(pos(7, 7, &ell), CoordPos::Outside);
    assert_eq!(pos(2, 7, &ell), CoordPos::Inside);
    assert_eq!(pos(7, 2, &ell), CoordPos::Inside);
    assert_eq!(pos(5, 7, &ell), CoordPos::OnBoundary);
    assert_eq!(pos(7, 5, &ell), CoordPos::OnBoundary);
    assert_eq!(pos(5, 5, &ell), CoordPos::OnBoundary);
}

#[test]
fn every_point_is_outside_an_empty_ring() {
    let empty: LineString<i64> = LineString::new(vec![]);
    assert_eq!(pos(0, 0, &empty), CoordPos::Outside);
    assert_eq!(pos(5, -5, &empty), CoordPos::Outside);
}

#[test]
fn every_point_is_outside_a_ring_without_three_distinct_vertices() {
    let single = ring(vec![(1, 1)]);
    assert_eq!(pos(1, 1, &single), CoordPos::Outside);
    assert_eq!(pos(0, 0, &single), CoordPos::Outside);
    let repeated = ring(vec![(1, 1), (1, 1), (1, 1), (1, 1)]);
    assert_eq!(pos(1, 1, &repeated), CoordPos::Outside);
    let there_and_back = ring(vec![(0, 0), (2, 2), (0, 0)]);
    assert_eq!(pos(1, 1, &there_and_back), CoordPos::Outside);
    assert_eq!(pos(0, 0, &there_and_back), CoordPos::Outside);
    assert_eq!(pos(5, 1, &there_and_back), CoordPos::Outside);
    let two_values = ring(vec![(0, 0), (2, 2), (0, 0), (2, 2), (2, 2), (0, 0)]);
    assert_eq!(pos(1, 1, &two_values), CoordPos::Outside);
}

#[test]
fn three_distinct_vertices_on_one_line_have_a_boundary_and_no_inside() {
    let flat = ring(vec![(0, 0), (1, 1), (2, 2), (0, 0)]);
    assert_eq!(pos(1, 1, &flat), CoordPos::OnBoundary);
    assert_eq!(pos(2, 2, &flat), CoordPos::OnBoundary);
    assert_eq!(pos(0, 1, &flat), CoordPos::Outside);
    assert_eq!(pos(1, 0, &flat), CoordPos::Outside);
    assert_eq!(pos(3, 3, &flat), CoordPos::Outside);
}

#[test]
fn the_third_distinct_vertex_may_come_late() {
    let late = ring(vec![(0, 0), (0, 0), (0, 10), (0, 0), (0, 10), (10, 10), (10, 0), (0, 0)]);
    assert_eq!(pos(0, 5, &late), CoordPos::OnBoundary);
    assert_eq!(pos(20, 5, &late), CoordPos::Outside);
}

#[test]
fn a_ring_is_closed_whether_or_not_its_first_vertex_is_repeated() {
    let open = ring(vec![(0, 0), (0, 10), (10, 10), (10, 0)]);
    assert_eq!(pos(5, 5, &open), CoordPos::Inside);
    assert_eq!(pos(5, 0, &open), CoordPos::OnBoundary);
    assert_eq!(pos(5, -1, &open), CoordPos::Outside);
    let triangle = ring(vec![(0, 0), (10, 0), (0, 10)]);
    assert_eq!(pos(2, 2, &triangle), CoordPos::Inside);
    assert_eq!(pos(5, 5, &triangle), CoordPos::OnBoundary);
    assert_eq!(pos(0, 5, &triangle), CoordPos::OnBoundary);
    assert_eq!(pos(6, 6, &triangle), CoordPos::Outside);
}

#[test]
fn a_triangle_at_the_ends_of_the_range() {
    let lo = i64::MIN;
    let hi = i64::MAX;
    let big = ring(vec![(lo, lo), (hi, lo), (lo, hi), (lo, lo)]);
    // The long edge runs from (hi, lo) to (lo, hi): x + y = -1 along it, and
    // less than that inside.
    assert_eq!(pos(-1, -1, &big), CoordPos::Inside);
    assert_eq!(pos(0, -2, &big), CoordPos::Inside);
    assert_eq!(pos(0, 0, &big), CoordPos::Outside);
    assert_eq!(pos(hi, hi, &big), CoordPos::Outside);
    assert_eq!(pos(0, -1, &big), CoordPos::OnBoundary);
    assert_eq!(pos(-1, 0, &big), CoordPos::OnBoundary);
    assert_eq!(pos(lo, 0, &big), CoordPos::OnBoundary);
}

#[test]
fn thirty_two_bit_rings() {
    let square = LineString::from_pairs(vec![(0i32, 0i32), (0, 10), (10, 10), (10, 0), (0, 0)]);
    assert_eq!(coord_pos_relative_to_ring(Coordinate::new(5, 5), &square), CoordPos::Inside);
    assert_eq!(coord_pos_relative_to_ring(Coordinate::new(0, 5), &square), CoordPos::OnBoundary);
    assert_eq!(coord_pos_relative_to_ring(Coordinate::new(20, 20), &square), CoordPos::Outside);
}
