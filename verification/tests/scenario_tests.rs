use blockmap::coord::Point;
use blockmap::geometry::Tile;
use blockmap::quantize::{block_index, Pixel};
use blockmap::render::{render, RenderPlan};
use blockmap::store::{Store, Way, WayKind};
use tiny_skia::{Color, FillRule, Paint, PathBuilder, Pixmap, Stroke, Transform};

fn p(x: i64, y: i64) -> Point {
    Point { x, y }
}

// Fixed-point units per pixel, as the library defines them.
const SUB: i64 = 256;

/// Runs a render plan through the real rasterization engine, the way the
/// application shell does: background fill, then area fills and outlines,
/// then line strokes, anti-aliasing off so only plan colors appear.
fn rasterize(plan: &RenderPlan) -> Pixmap {
    let mut pixmap = Pixmap::new(plan.width, plan.height).unwrap();
    pixmap.fill(Color::from_rgba8(
        plan.background.0,
        plan.background.1,
        plan.background.2,
        255,
    ));
    let mut fill = Paint::default();
    fill.set_color_rgba8(plan.area_fill.0, plan.area_fill.1, plan.area_fill.2, 255);
    fill.anti_alias = false;
    let mut outline = Paint::default();
    outline.set_color_rgba8(
        plan.area_outline.0,
        plan.area_outline.1,
        plan.area_outline.2,
        255,
    );
    outline.anti_alias = false;
    let mut line = Paint::default();
    line.set_color_rgba8(plan.line_color.0, plan.line_color.1, plan.line_color.2, 255);
    line.anti_alias = false;
    for path_spec in &plan.area_paths {
        if let Some(path) = skia_path(&path_spec.vertices) {
            pixmap.fill_path(&path, &fill, FillRule::Winding, Transform::identity(), None);
            let stroke = Stroke { width: 1.0, ..Default::default() };
            pixmap.stroke_path(&path, &outline, &stroke, Transform::identity(), None);
        }
    }
    for path_spec in &plan.line_paths {
        if let Some(path) = skia_path(&path_spec.vertices) {
            let stroke = Stroke { width: plan.line_width as f32, ..Default::default() };
            pixmap.stroke_path(&path, &line, &stroke, Transform::identity(), None);
        }
    }
    pixmap
}

fn skia_path(vertices: &[Point]) -> Option<tiny_skia::Path> {
    let mut pb = PathBuilder::new();
    for (i, v) in vertices.iter().enumerate() {
        let x = v.x as f32 / SUB as f32;
        let y = v.y as f32 / SUB as f32;
        if i == 0 {
            pb.move_to(x, y);
        } else {
            pb.line_to(x, y);
        }
    }
    pb.finish()
}

fn quantize_pixmap(pixmap: &Pixmap) -> Vec<u8> {
    let mut out = Vec::new();
    for y in 0..pixmap.height() {
        for x in 0..pixmap.width() {
            let c = pixmap.pixel(x, y).unwrap();
            out.push(block_index(Pixel(c.red(), c.green(), c.blue())));
        }
    }
    out
}

// End-to-end: a store with one rectangular building way fully inside the
// tile must rasterize so that interior pixels quantize to the area index,
// border pixels to the outline index, and everything else to background.
#[test]
fn rectangular_building_quantizes_by_role() {
    let mut s = Store::default();
    // A building from pixel (100,100) to (200,200) of the tile.
    s.insert_node(1, p(100 * SUB, 100 * SUB));
    s.insert_node(2, p(200 * SUB, 100 * SUB));
    s.insert_node(3, p(200 * SUB, 200 * SUB));
    s.insert_node(4, p(100 * SUB, 200 * SUB));
    s.insert_way(Way { id: 1, node_ids: vec![1, 2, 3, 4, 1] });
    s.tag_way(1, WayKind::Building);

    let tile = Tile { top_left: p(0, 0), bottom_right: p(512 * SUB, 512 * SUB) };
    let plan = render(&s, &tile, 3);
    assert_eq!(plan.area_paths.len(), 1);
    assert!(plan.line_paths.is_empty());

    let pixmap = rasterize(&plan);
    let q = quantize_pixmap(&pixmap);
    let at = |x: usize, y: usize| q[y * 512 + x];

    // With anti-aliasing off, every pixel carries a palette color.
    assert!(q.iter().all(|&i| i <= 2), "unexpected blended color");
    // Interior pixels: the area-fill index.
    for &(x, y) in &[(150, 150), (110, 110), (190, 190), (150, 105)] {
        assert_eq!(at(x, y), 1, "interior pixel ({}, {})", x, y);
    }
    // Pixels away from the building: the background index.
    for &(x, y) in &[(10, 10), (400, 150), (150, 400), (500, 500), (95, 95)] {
        assert_eq!(at(x, y), 0, "background pixel ({}, {})", x, y);
    }
    // Border pixels: the outline index appears along each of the four
    // sides of the rectangle.
    let near = |c: usize| (c - 2)..(c + 3);
    assert!(near(100).any(|x| at(x, 150) == 2), "left border");
    assert!(near(200).any(|x| at(x, 150) == 2), "right border");
    assert!(near(100).any(|y| at(150, y) == 2), "top border");
    assert!(near(200).any(|y| at(150, y) == 2), "bottom border");
}

// Rasterization is deterministic: the same plan yields byte-identical
// pixel buffers, so region outputs do not depend on when a task ran.
#[test]
fn rasterizing_same_plan_twice_is_identical() {
    let mut s = Store::default();
    s.insert_node(1, p(10 * SUB, 10 * SUB));
    s.insert_node(2, p(300 * SUB, 240 * SUB));
    s.insert_way(Way { id: 1, node_ids: vec![1, 2] });
    s.tag_way(1, WayKind::Highway);
    let tile = Tile { top_left: p(0, 0), bottom_right: p(512 * SUB, 512 * SUB) };
    let plan = render(&s, &tile, 3);
    let a = rasterize(&plan);
    let b = rasterize(&plan);
    assert_eq!(a.data(), b.data());
}

// The external projection is deterministic: repeated calls with the same
// coordinate and zoom give bit-identical results.
#[test]
fn projection_is_deterministic() {
    let coords = [(13.377, 52.516), (-0.1278, 51.5074), (0.0, 0.0), (179.9, -85.0)];
    for &(lon, lat) in &coords {
        for zoom in [0usize, 10, 17] {
            let a = googleprojection::from_ll_to_subpixel(&(lon, lat), zoom).unwrap();
            let b = googleprojection::from_ll_to_subpixel(&(lon, lat), zoom).unwrap();
            assert_eq!(a.0.to_bits(), b.0.to_bits());
            assert_eq!(a.1.to_bits(), b.1.to_bits());
        }
    }
}
