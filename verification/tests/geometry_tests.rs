use blockmap::coord::Point;
use blockmap::geometry::{segments_intersect, tile_accepts_exec, Tile};

fn p(x: i64, y: i64) -> Point {
    Point { x, y }
}

#[test]
fn segments_cross() {
    assert!(segments_intersect(p(0, 0), p(10, 10), p(0, 10), p(10, 0)));
}

#[test]
fn segments_touch_at_endpoint() {
    assert!(segments_intersect(p(0, 0), p(10, 0), p(10, 0), p(10, 10)));
}

#[test]
fn segments_collinear_overlap() {
    assert!(segments_intersect(p(0, 0), p(10, 0), p(5, 0), p(20, 0)));
}

#[test]
fn segments_collinear_disjoint() {
    assert!(!segments_intersect(p(0, 0), p(10, 0), p(11, 0), p(20, 0)));
}

#[test]
fn segments_parallel_disjoint() {
    assert!(!segments_intersect(p(0, 0), p(10, 0), p(0, 1), p(10, 1)));
}

#[test]
fn tile_corners() {
    let t = Tile { top_left: p(0, 0), bottom_right: p(100, 200) };
    assert_eq!(t.top_right(), p(100, 0));
    assert_eq!(t.bottom_left(), p(0, 200));
}

#[test]
fn tile_contains_is_strict() {
    let t = Tile { top_left: p(0, 0), bottom_right: p(100, 100) };
    assert!(t.contains(p(50, 50)));
    assert!(!t.contains(p(0, 50)));
    assert!(!t.contains(p(100, 50)));
    assert!(!t.contains(p(50, 100)));
}

#[test]
fn accepts_way_with_vertex_inside() {
    let t = Tile { top_left: p(0, 0), bottom_right: p(100, 100) };
    let pts = vec![p(50, 50)];
    assert!(tile_accepts_exec(&t, &pts));
}

#[test]
fn accepts_way_crossing_border_without_vertex_inside() {
    let t = Tile { top_left: p(0, 0), bottom_right: p(100, 100) };
    let pts = vec![p(-50, 50), p(150, 50)];
    assert!(tile_accepts_exec(&t, &pts));
}

#[test]
fn rejects_way_fully_outside() {
    let t = Tile { top_left: p(0, 0), bottom_right: p(100, 100) };
    let pts = vec![p(200, 200), p(300, 200), p(300, 300)];
    assert!(!tile_accepts_exec(&t, &pts));
}

// The membership test is a deliberate heuristic: a way that fully
// surrounds the tile, with no vertex inside and no segment touching the
// border, is missed. This pins that accepted scope limitation.
#[test]
fn rejects_way_fully_surrounding_tile() {
    let t = Tile { top_left: p(0, 0), bottom_right: p(100, 100) };
    let pts = vec![
        p(-100, -100),
        p(200, -100),
        p(200, 200),
        p(-100, 200),
        p(-100, -100),
    ];
    assert!(!tile_accepts_exec(&t, &pts));
}

#[test]
fn rejects_way_with_no_points() {
    let t = Tile { top_left: p(0, 0), bottom_right: p(100, 100) };
    let pts: Vec<Point> = Vec::new();
    assert!(!tile_accepts_exec(&t, &pts));
}

#[test]
fn accepts_way_touching_border_from_outside() {
    let t = Tile { top_left: p(0, 0), bottom_right: p(100, 100) };
    let pts = vec![p(100, 50), p(200, 50)];
    assert!(tile_accepts_exec(&t, &pts));
}
