use planar_intersects::{
    coord_pos_relative_to_ring, is_between, orientation, Contains, Coordinate, CoordPos,
    Intersects, Line, LineString, Orientation, Point, Polygon, Rect,
};

fn ring(pairs: Vec<(i64, i64)>) -> LineString<i64> {
    LineString::from_pairs(pairs)
}

fn box_ring(x0: i64, y0: i64, x1: i64, y1: i64) -> LineString<i64> {
    ring(vec![(x0, y0), (x0, y1), (x1, y1), (x1, y0), (x0, y0)])
}

fn frame() -> Polygon<i64> {
    Polygon::new(box_ring(0, 0, 10, 10), vec![box_ring(3, 3, 7, 7)])
}

fn positions(ring: &LineString<i64>) -> Vec<CoordPos> {
    let mut all = Vec::new();
    for x in -2..13 {
        for y in -2..13 {
            all.push(coord_pos_relative_to_ring(Coordinate::new(x, y), ring));
        }
    }
    all
}

#[test]
fn a_point_asks_as_it_is_asked() {
    let square = Polygon::new(box_ring(0, 0, 10, 10), vec![]);
    let rect = Rect::new(Coordinate::new(0, 0), Coordinate::new(10, 10));
    let diagonal = Line::new(Coordinate::new(0, 0), Coordinate::new(10, 10));
    let bend = ring(vec![(0, 10), (5, 5), (10, 10)]);
    for x in -1..12 {
        for y in -1..12 {
            let c = Coordinate::new(x, y);
            let p = Point::new(x, y);
            assert_eq!(c.intersects(&square), square.intersects(&c));
            assert_eq!(p.intersects(&square), square.intersects(&p));
            assert_eq!(c.intersects(&frame()), frame().intersects(&c));
            assert_eq!(p.intersects(&frame()), frame().intersects(&p));
            assert_eq!(c.intersects(&rect), rect.intersects(&c));
            assert_eq!(p.intersects(&rect), rect.intersects(&p));
            assert_eq!(c.intersects(&diagonal), diagonal.intersects(&c));
            assert_eq!(p.intersects(&diagonal), diagonal.intersects(&p));
            assert_eq!(c.intersects(&bend), bend.intersects(&c));
            assert_eq!(p.intersects(&bend), bend.intersects(&p));
            assert_eq!(c.intersects(&p), p.intersects(&c));
            assert!(c.intersects(&p));
        }
    }
    assert!(Point::new(5i64, 5).intersects(&square));
    assert!(!Point::new(5i64, 5).intersects(&frame()));
    assert!(Coordinate::new(5i64, 5).intersects(&diagonal));
    assert!(!Coordinate::new(5i64, 6).intersects(&diagonal));
    assert!(!Coordinate::new(5i64, 6).intersects(&Point::new(5, 5)));
}

#[test]
fn a_segment_and_a_polyline_ask_as_they_are_asked() {
    let square = Polygon::new(box_ring(0, 0, 10, 10), vec![]);
    let rect = Rect::new(Coordinate::new(2, 2), Coordinate::new(8, 8));
    let bend = ring(vec![(0, 10), (5, 5), (10, 10)]);
    let lines = vec![
        Line::new(Coordinate::new(-5, 5), Coordinate::new(15, 5)),
        Line::new(Coordinate::new(4, 4), Coordinate::new(6, 6)),
        Line::new(Coordinate::new(1, 1), Coordinate::new(1, 9)),
        Line::new(Coordinate::new(20, 0), Coordinate::new(30, 5)),
        Line::new(Coordinate::new(5, 0), Coordinate::new(5, 20)),
        Line::new(Coordinate::new(5, 5), Coordinate::new(5, 5)),
    ];
    for l in lines.iter() {
        assert_eq!(l.intersects(&square), square.intersects(l));
        assert_eq!(l.intersects(&frame()), frame().intersects(l));
        assert_eq!(l.intersects(&rect), rect.intersects(l));
        assert_eq!(l.intersects(&bend), bend.intersects(l));
    }
    assert!(lines[0].intersects(&square));
    assert!(!lines[1].intersects(&frame()));
    assert!(!lines[3].intersects(&rect));
    assert!(lines[4].intersects(&bend));
    let paths = vec![
        box_ring(4, 4, 6, 6),
        box_ring(1, 1, 9, 9),
        box_ring(-5, -5, 15, 15),
        ring(vec![(20, 0), (30, 0)]),
        ring(vec![(5, 5)]),
    ];
    for path in paths.iter() {
        assert_eq!(path.intersects(&square), square.intersects(path));
        assert_eq!(path.intersects(&frame()), frame().intersects(path));
        assert_eq!(path.intersects(&rect), rect.intersects(path));
    }
    assert!(paths[0].intersects(&square));
    assert!(!paths[0].intersects(&frame()));
    assert!(!paths[2].intersects(&square));
    assert!(paths[4].intersects(&rect));
}

#[test]
fn the_first_vertex_of_a_ring_may_be_any() {
    let ell = vec![(0, 0), (0, 10), (5, 10), (5, 5), (10, 5), (10, 0)];
    let expected = positions(&ring(ell.clone()));
    for start in 1..ell.len() {
        let mut turned = ell[start..].to_vec();
        turned.extend_from_slice(&ell[..start]);
        assert_eq!(positions(&ring(turned)), expected);
    }
    assert_eq!(expected[(2 + 2) * 15 + (2 + 2)], CoordPos::Inside);
    assert_eq!(expected[(7 + 2) * 15 + (7 + 2)], CoordPos::Outside);
    assert_eq!(expected[(5 + 2) * 15 + (7 + 2)], CoordPos::OnBoundary);
}

#[test]
fn a_ring_may_be_walked_either_way() {
    let ell = vec![(0, 0), (0, 10), (5, 10), (5, 5), (10, 5), (10, 0), (0, 0)];
    let mut back = ell.clone();
    back.reverse();
    assert_eq!(positions(&ring(back)), positions(&ring(ell)));
}

#[test]
fn a_ring_may_repeat_its_first_vertex_or_not() {
    let open = vec![(0, 0), (0, 10), (5, 10), (5, 5), (10, 5), (10, 0)];
    let mut closed = open.clone();
    closed.push(open[0]);
    assert_eq!(positions(&ring(closed)), positions(&ring(open)));
}

#[test]
fn a_rectangle_with_an_area_holds_what_is_within_its_bounds() {
    let rect = Rect::new(Coordinate::new(8, 9), Coordinate::new(2, 3));
    let as_polygon = rect.to_polygon();
    for x in 0..11 {
        for y in 0..12 {
            let within = 2 <= x && x <= 8 && 3 <= y && y <= 9;
            let strictly = 2 < x && x < 8 && 3 < y && y < 9;
            assert_eq!(rect.intersects(&Point::new(x, y)), within);
            assert_eq!(as_polygon.contains(&Point::new(x, y)), strictly);
        }
    }
}

#[test]
fn a_degenerate_segment_answers_as_its_point() {
    let polygon = frame();
    for x in -1..12 {
        for y in -1..12 {
            let dot = Line::new(Coordinate::new(x, y), Coordinate::new(x, y));
            assert_eq!(polygon.intersects(&dot), polygon.intersects(&Point::new(x, y)));
        }
    }
}

#[test]
fn what_a_polygon_contains_it_meets() {
    let polygon = frame();
    for x in -1..12 {
        for y in -1..12 {
            let p = Point::new(x, y);
            if polygon.contains(&p) {
                assert!(polygon.intersects(&p));
                let out = Line::new(Coordinate::new(x, y), Coordinate::new(x + 100, y + 1));
                assert!(polygon.intersects(&out));
                assert!(polygon.intersects(&ring(vec![(50, 50), (x, y)])));
            }
        }
    }
    assert!(polygon.contains(&Point::new(1, 1)));
}

#[test]
fn points_of_the_rings_belong_to_a_polygon() {
    let polygon = frame();
    for t in 0..11 {
        assert!(polygon.intersects(&Point::new(t, 0)));
        assert!(polygon.intersects(&Point::new(t, 10)));
        assert!(polygon.intersects(&Point::new(0, t)));
        assert!(polygon.intersects(&Point::new(10, t)));
    }
    for t in 3..8 {
        assert!(polygon.intersects(&Point::new(t, 3)));
        assert!(polygon.intersects(&Point::new(t, 7)));
        assert!(polygon.intersects(&Point::new(3, t)));
        assert!(polygon.intersects(&Point::new(7, t)));
    }
    for x in 4..7 {
        for y in 4..7 {
            assert!(!polygon.intersects(&Point::new(x, y)));
        }
    }
}

#[test]
fn segments_meet_where_they_share_a_point() {
    // Crossing in (5/2, 5/2): no point with whole coordinates is shared.
    let rising = Line::new(Coordinate::new(0i64, 0), Coordinate::new(5, 5));
    let falling = Line::new(Coordinate::new(0i64, 5), Coordinate::new(5, 0));
    assert!(rising.intersects(&falling));
    let mut shared = 0;
    for x in 0..6 {
        for y in 0..6 {
            let c = Coordinate::new(x, y);
            if rising.intersects(&c) && falling.intersects(&c) {
                shared += 1;
            }
        }
    }
    assert_eq!(shared, 0);
    // Ending just short of the other: the lines cross, the segments do not.
    let short = Line::new(Coordinate::new(0i64, 5), Coordinate::new(2, 3));
    assert!(!rising.intersects(&short));
    assert!(!short.intersects(&rising));
}

fn in_triangle_by_sides(p: (i64, i64), t: &[(i64, i64); 3]) -> CoordPos {
    let c = |q: (i64, i64)| Coordinate::new(q.0, q.1);
    let mut turns = Vec::new();
    for k in 0..3 {
        let (u, v) = (t[k], t[(k + 1) % 3]);
        if is_between(&c(u), &c(v), &c(p)) {
            return CoordPos::OnBoundary;
        }
        turns.push(orientation(&c(u), &c(v), &c(p)));
    }
    let all = |o: Orientation| turns.iter().all(|t| *t == o);
    if all(Orientation::CounterClockwise) || all(Orientation::Clockwise) {
        CoordPos::Inside
    } else {
        CoordPos::Outside
    }
}

#[test]
fn a_point_is_inside_a_triangle_where_it_is_on_one_side_of_all_sides() {
    let triangles = [
        [(0, 0), (10, 0), (0, 10)],
        [(0, 0), (0, 10), (10, 0)],
        [(1, 1), (9, 4), (4, 9)],
        [(4, 9), (9, 4), (1, 1)],
        [(0, 5), (10, 5), (5, 0)],
        [(0, 5), (10, 5), (5, 10)],
        [(0, 0), (10, 1), (3, 2)],
        [(-3, 7), (12, 6), (5, -4)],
    ];
    let mut inside = 0;
    for t in triangles.iter() {
        let ring = LineString::from_pairs(t.to_vec());
        for x in -5..15 {
            for y in -5..15 {
                let by_ray = coord_pos_relative_to_ring(Coordinate::new(x, y), &ring);
                assert_eq!(by_ray, in_triangle_by_sides((x, y), t), "{:?} in {:?}", (x, y), t);
                if by_ray == CoordPos::Inside {
                    inside += 1;
                }
            }
        }
    }
    assert!(inside > 100);
}

/// Whether the segment from `a` to `b` has a point in the box, found by
/// cutting the segment down to the box side by side.
fn segment_reaches_box(a: (i64, i64), b: (i64, i64), lo: (i64, i64), hi: (i64, i64)) -> bool {
    let (ax, ay, bx, by) = (a.0 as f64, a.1 as f64, b.0 as f64, b.1 as f64);
    let (dx, dy) = (bx - ax, by - ay);
    let (mut t0, mut t1) = (0.0f64, 1.0f64);
    let sides = [
        (-dx, ax - lo.0 as f64),
        (dx, hi.0 as f64 - ax),
        (-dy, ay - lo.1 as f64),
        (dy, hi.1 as f64 - ay),
    ];
    for (p, q) in sides.iter() {
        if *p == 0.0 {
            if *q < 0.0 {
                return false;
            }
        } else if *p < 0.0 {
            t0 = t0.max(q / p);
        } else {
            t1 = t1.min(q / p);
        }
    }
    t0 <= t1
}

#[test]
fn a_rectangle_meets_the_segments_that_reach_its_bounds() {
    let rect = Rect::new(Coordinate::new(2, 3), Coordinate::new(6, 5));
    let ends: Vec<(i64, i64)> = vec![
        (0, 0), (4, 0), (8, 0), (0, 4), (3, 4), (5, 4), (8, 4), (0, 8), (4, 8), (8, 8), (2, 3),
        (6, 5), (2, 5), (4, 3), (1, 6), (7, 2), (1, 2), (7, 6), (4, 6), (4, 2),
    ];
    let mut met = 0;
    for a in ends.iter() {
        for b in ends.iter() {
            let line = Line::new(Coordinate::new(a.0, a.1), Coordinate::new(b.0, b.1));
            let expected = segment_reaches_box(*a, *b, (2, 3), (6, 5));
            assert_eq!(rect.intersects(&line), expected, "{:?} to {:?}", a, b);
            if expected {
                met += 1;
            }
        }
    }
    assert!(met > 50 && met < 400);
}

#[test]
fn rectangles_with_an_area_meet_where_their_bounds_overlap() {
    for x0 in 0..6 {
        for y0 in 0..6 {
            for w in 1..4 {
                for h in 1..4 {
                    let a = Rect::new(Coordinate::new(2, 2), Coordinate::new(4, 5));
                    let b = Rect::new(Coordinate::new(x0, y0), Coordinate::new(x0 + w, y0 + h));
                    let overlap = x0 <= 4 && 2 <= x0 + w && y0 <= 5 && 2 <= y0 + h;
                    assert_eq!(a.intersects(&b), overlap);
                    assert_eq!(b.intersects(&a), overlap);
                }
            }
        }
    }
}
