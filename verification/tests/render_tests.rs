use blockmap::coord::Point;
use blockmap::geometry::Tile;
use blockmap::quantize::Pixel;
use blockmap::render::{build_path, render};
use blockmap::store::{Store, Way, WayKind};

fn p(x: i64, y: i64) -> Point {
    Point { x, y }
}

fn sample_store() -> Store {
    let mut s = Store::default();
    s.insert_node(1, p(1000, 1000));
    s.insert_node(2, p(2000, 1000));
    s.insert_node(3, p(2000, 2000));
    s.insert_node(4, p(1000, 2000));
    s.insert_node(10, p(0, 1500));
    s.insert_node(11, p(3000, 1500));
    s.insert_way(Way { id: 100, node_ids: vec![1, 2, 3, 4, 1] });
    s.tag_way(100, WayKind::Building);
    s.insert_way(Way { id: 200, node_ids: vec![10, 11] });
    s.tag_way(200, WayKind::Highway);
    s.insert_way(Way { id: 300, node_ids: vec![999] });
    s.tag_way(300, WayKind::Building);
    s
}

#[test]
fn build_path_offsets_vertices_to_tile_corner() {
    let s = sample_store();
    let tile = Tile { top_left: p(500, 500), bottom_right: p(4000, 4000) };
    let path = build_path(&s, &tile, 100).expect("path");
    assert_eq!(path.way_id, 100);
    assert_eq!(
        path.vertices,
        vec![p(500, 500), p(1500, 500), p(1500, 1500), p(500, 1500), p(500, 500)]
    );
}

#[test]
fn build_path_skips_unresolved_and_absent() {
    let s = sample_store();
    let tile = Tile { top_left: p(0, 0), bottom_right: p(4000, 4000) };
    // Way 300 resolves to no points: no path.
    assert!(build_path(&s, &tile, 300).is_none());
    // No such way: no path.
    assert!(build_path(&s, &tile, 12345).is_none());
}

#[test]
fn render_plan_styles_and_paths() {
    let s = sample_store();
    let tile = Tile { top_left: p(500, 500), bottom_right: p(4000, 4000) };
    let plan = render(&s, &tile, 3);
    assert_eq!(plan.width, 512);
    assert_eq!(plan.height, 512);
    assert_eq!(plan.background, Pixel(255, 255, 255));
    assert_eq!(plan.area_fill, Pixel(255, 0, 0));
    assert_eq!(plan.area_outline, Pixel(0, 255, 0));
    assert_eq!(plan.line_color, Pixel(0, 255, 0));
    assert_eq!(plan.line_width, 3);
    // The building is the only area path; way 300 has no resolved points.
    assert_eq!(plan.area_paths.len(), 1);
    assert_eq!(plan.area_paths[0].way_id, 100);
    // The highway crosses the tile: one line path.
    assert_eq!(plan.line_paths.len(), 1);
    assert_eq!(plan.line_paths[0].way_id, 200);
    assert_eq!(plan.line_paths[0].vertices, vec![p(-500, 1000), p(2500, 1000)]);
}

#[test]
fn render_plan_empty_when_nothing_matches() {
    let s = sample_store();
    let tile = Tile {
        top_left: p(1_000_000, 1_000_000),
        bottom_right: p(1_100_000, 1_100_000),
    };
    let plan = render(&s, &tile, 3);
    assert!(plan.area_paths.is_empty());
    assert!(plan.line_paths.is_empty());
}
