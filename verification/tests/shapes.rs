use planar_intersects::{Coordinate, Intersects, Line, LineString, Point, Polygon, Rect, Shape};

fn box_ring(x0: i64, y0: i64, x1: i64, y1: i64) -> LineString<i64> {
    LineString::from_pairs(vec![(x0, y0), (x0, y1), (x1, y1), (x1, y0), (x0, y0)])
}

fn point(x: i64, y: i64) -> Shape<i64> {
    Shape::Point(Point::new(x, y))
}

fn line(ax: i64, ay: i64, bx: i64, by: i64) -> Shape<i64> {
    Shape::Line(Line::new(Coordinate::new(ax, ay), Coordinate::new(bx, by)))
}

fn path(pairs: Vec<(i64, i64)>) -> Shape<i64> {
    Shape::LineString(LineString::from_pairs(pairs))
}

fn polygon(x0: i64, y0: i64, x1: i64, y1: i64) -> Shape<i64> {
    Shape::Polygon(Polygon::new(box_ring(x0, y0, x1, y1), vec![]))
}

fn frame() -> Shape<i64> {
    Shape::Polygon(Polygon::new(box_ring(0, 0, 10, 10), vec![box_ring(2, 2, 8, 8)]))
}

fn rect(x0: i64, y0: i64, x1: i64, y1: i64) -> Shape<i64> {
    Shape::Rect(Rect::new(Coordinate::new(x0, y0), Coordinate::new(x1, y1)))
}

fn samples() -> Vec<Shape<i64>> {
    vec![
        point(5, 5),
        point(0, 5),
        point(1, 1),
        point(20, 20),
        line(-5, 5, 15, 5),
        line(2, 2, 8, 8),
        line(4, 4, 6, 6),
        line(20, 0, 30, 5),
        line(1, 1, 1, 1),
        path(vec![(3, 3), (3, 7), (7, 7), (7, 3), (3, 3)]),
        path(vec![(-5, -5), (-5, 15), (15, 15), (15, -5), (-5, -5)]),
        path(vec![(1, 1), (9, 1), (9, 9)]),
        path(vec![(5, 5)]),
        path(vec![]),
        polygon(0, 0, 10, 10),
        polygon(3, 3, 7, 7),
        polygon(20, 20, 30, 30),
        polygon(10, 10, 20, 20),
        frame(),
        Shape::Polygon(Polygon::new(LineString::new(vec![]), vec![])),
        rect(20, 20, 30, 30),
        rect(4, 4, 6, 6),
        rect(-5, -5, 15, 15),
        rect(5, 5, 15, 15),
        rect(3, 0, 3, 10),
    ]
}

#[test]
fn every_pair_of_shapes_agrees_whichever_is_asked() {
    let shapes = samples();
    for a in shapes.iter() {
        for b in shapes.iter() {
            assert_eq!(a.intersects(b), b.intersects(a), "{:?} against {:?}", a, b);
        }
    }
}

#[test]
fn shapes_meet_themselves() {
    assert!(point(5, 5).intersects(&point(5, 5)));
    assert!(line(0, 0, 4, 4).intersects(&line(0, 0, 4, 4)));
    assert!(line(1, 1, 1, 1).intersects(&line(1, 1, 1, 1)));
    assert!(path(vec![(0, 0), (4, 4), (8, 0)]).intersects(&path(vec![(0, 0), (4, 4), (8, 0)])));
    assert!(polygon(0, 0, 10, 10).intersects(&polygon(0, 0, 10, 10)));
    assert!(frame().intersects(&frame()));
    assert!(rect(0, 0, 10, 10).intersects(&rect(0, 0, 10, 10)));
}

#[test]
fn a_shape_answers_as_the_shape_inside_it_does() {
    let square = Polygon::new(box_ring(0, 0, 10, 10), vec![]);
    let inner = Point::new(5i64, 5);
    let outer = Point::new(20i64, 20);
    assert!(square.intersects(&Shape::Point(inner)));
    assert!(!square.intersects(&Shape::Point(outer)));
    assert!(inner.intersects(&Shape::Polygon(square.clone())));
    assert!(!outer.intersects(&Shape::Polygon(square.clone())));
    let diagonal = Line::new(Coordinate::new(2i64, 2), Coordinate::new(8, 8));
    assert!(diagonal.intersects(&Shape::Polygon(square.clone())));
    assert!(diagonal.intersects(&Shape::Point(inner)));
    assert!(!diagonal.intersects(&Shape::Point(outer)));
    let bend = LineString::from_pairs(vec![(20i64, 0i64), (20, 20), (0, 20)]);
    assert!(bend.intersects(&Shape::Point(outer)));
    assert!(!bend.intersects(&Shape::Polygon(square.clone())));
    assert!(!bend.intersects(&Shape::Line(diagonal)));
    let far = Rect::new(Coordinate::new(20i64, 20), Coordinate::new(30, 30));
    assert!(far.intersects(&Shape::Point(outer)));
    assert!(far.intersects(&Shape::LineString(bend)));
    assert!(!far.intersects(&Shape::Polygon(square)));
}

#[test]
fn shapes_of_each_kind_against_a_square() {
    let square = polygon(0, 0, 10, 10);
    assert!(square.intersects(&point(5, 5)));
    assert!(!square.intersects(&point(20, 20)));
    assert!(square.intersects(&point(0, 5)));
    assert!(square.intersects(&line(-5, 5, 15, 5)));
    assert!(square.intersects(&line(2, 2, 8, 8)));
    assert!(!square.intersects(&rect(20, 20, 30, 30)));
    assert!(square.intersects(&rect(5, 5, 15, 15)));
    assert!(square.intersects(&path(vec![(3, 3), (3, 7), (7, 7), (7, 3), (3, 3)])));
    assert!(!frame().intersects(&point(5, 5)));
}
