use blockmap::coord::Point;

fn p(x: i64, y: i64) -> Point {
    Point { x, y }
}

#[test]
fn point_componentwise_arithmetic() {
    assert_eq!(p(3, 4).add(p(10, -2)), p(13, 2));
    assert_eq!(p(3, 4).sub(p(10, -2)), p(-7, 6));
}

#[test]
fn point_componentwise_extremes() {
    assert_eq!(p(3, 9).min(p(5, -2)), p(3, -2));
    assert_eq!(p(3, 9).max(p(5, -2)), p(5, 9));
    assert_eq!(p(0, 0).min(p(0, 0)), p(0, 0));
}

#[test]
fn point_new_carries_components() {
    let q = Point::new(-17, 42);
    assert_eq!((q.x, q.y), (-17, 42));
}
