use blockmap::coord::Point;
use blockmap::geometry::Tile;
use blockmap::store::{way_kind_of_tag, Store, Way, WayKind};

fn p(x: i64, y: i64) -> Point {
    Point { x, y }
}

fn store_with_two_ways() -> Store {
    let mut s = Store::default();
    s.insert_node(1, p(10, 10));
    s.insert_node(2, p(20, 10));
    s.insert_node(3, p(20, 20));
    s.insert_node(4, p(10, 20));
    s.insert_node(5, p(500, 500));
    s.insert_node(6, p(600, 500));
    s.insert_way(Way { id: 100, node_ids: vec![1, 2, 3, 4, 1] });
    s.tag_way(100, WayKind::Building);
    s.insert_way(Way { id: 200, node_ids: vec![5, 6] });
    s.tag_way(200, WayKind::Highway);
    s
}

#[test]
fn bounding_box_tracks_all_nodes_seen() {
    let mut s = Store::default();
    s.insert_node(1, p(10, -5));
    assert_eq!((s.min_point, s.max_point), (p(10, -5), p(10, -5)));
    s.insert_node(2, p(-3, 40));
    assert_eq!(s.min_point, p(-3, -5));
    assert_eq!(s.max_point, p(10, 40));
    // Replacing a node keeps the box of everything seen.
    s.insert_node(1, p(0, 0));
    assert_eq!(s.min_point, p(-3, -5));
    assert_eq!(s.max_point, p(10, 40));
    assert_eq!(s.nodes.len(), 2);
}

#[test]
fn find_node_hit_and_miss() {
    let s = store_with_two_ways();
    assert_eq!(s.find_node(3).map(|n| n.point), Some(p(20, 20)));
    assert!(s.find_node(99).is_none());
}

#[test]
fn resolve_skips_dangling_references() {
    let s = store_with_two_ways();
    let pts = s.resolve_points_of(&vec![1, 777, 2]);
    assert_eq!(pts, vec![p(10, 10), p(20, 10)]);
}

#[test]
fn ways_in_tile_filters_by_type() {
    let s = store_with_two_ways();
    let tile = Tile { top_left: p(0, 0), bottom_right: p(100, 100) };
    assert_eq!(s.ways_in_tile_by_type(&tile, Some(WayKind::Building)), vec![100]);
    assert_eq!(
        s.ways_in_tile_by_type(&tile, Some(WayKind::Highway)),
        Vec::<i64>::new()
    );
    assert_eq!(s.ways_in_tile_by_type(&tile, None), vec![100]);
}

#[test]
fn ways_in_tile_accepts_crossing_way() {
    let s = store_with_two_ways();
    // The highway from (500,500) to (600,500) crosses this tile's border.
    let tile = Tile { top_left: p(550, 400), bottom_right: p(650, 600) };
    assert_eq!(s.ways_in_tile_by_type(&tile, Some(WayKind::Highway)), vec![200]);
    assert_eq!(s.ways_in_tile_by_type(&tile, None), vec![200]);
}

#[test]
fn ways_in_tile_empty_kind_yields_nothing() {
    let s = store_with_two_ways();
    let tile = Tile { top_left: p(0, 0), bottom_right: p(1000, 1000) };
    assert_eq!(
        s.ways_in_tile_by_type(&tile, Some(WayKind::Water)),
        Vec::<i64>::new()
    );
}

#[test]
fn way_kind_of_tag_recognizes_the_three_kinds() {
    assert_eq!(way_kind_of_tag(&"building".to_string()), Some(WayKind::Building));
    assert_eq!(way_kind_of_tag(&"highway".to_string()), Some(WayKind::Highway));
    assert_eq!(way_kind_of_tag(&"water".to_string()), Some(WayKind::Water));
    assert_eq!(way_kind_of_tag(&"park".to_string()), None);
    assert_eq!(way_kind_of_tag(&"".to_string()), None);
}

// The query returns an ordered set: a way whose id appears twice in the
// type index is still reported once.
#[test]
fn ways_in_tile_reports_each_way_once() {
    let mut s = store_with_two_ways();
    s.tag_way(100, WayKind::Building);
    let tile = Tile { top_left: p(0, 0), bottom_right: p(100, 100) };
    assert_eq!(s.ways_in_tile_by_type(&tile, Some(WayKind::Building)), vec![100]);
}
