//! The raster adapter's decision core: selects the ways to draw for one
//! tile, resolves each to an ordered vertex path relative to the tile's
//! corner, and fixes the draw order and styles — background fill first,
//! then area features (fill plus outline), then line strokes. The pixel
//! production itself is delegated to the external rasterization engine,
//! which receives exactly this plan.
use vstd::prelude::*;

use crate::coord::Point;
use crate::geometry::Tile;
use crate::quantize::{spec_material_color, Pixel};
use crate::store::{Store, WayKind};

verus! {

/// One drawable path: a way's resolved vertices in way order, relative to
/// the tile's top-left corner, in fixed-point units.
#[derive(Debug)]
pub struct PathSpec {
    pub way_id: i64,
    pub vertices: Vec<Point>,
}

/// Everything the external rasterization engine needs for one tile:
/// raster size, draw colors, stroke width, and the area and line paths in
/// draw order.
#[derive(Debug)]
pub struct RenderPlan {
    pub width: u32,
    pub height: u32,
    pub background: Pixel,
    pub area_fill: Pixel,
    pub area_outline: Pixel,
    pub line_color: Pixel,
    pub line_width: u32,
    pub area_paths: Vec<PathSpec>,
    pub line_paths: Vec<PathSpec>,
}

/// The vertices of `pts` relative to `origin`.
pub open spec fn spec_offsets(pts: Seq<Point>, origin: Point) -> Seq<Point> {
    pts.map_values(
        |p: Point| Point { x: (p.x - origin.x) as i64, y: (p.y - origin.y) as i64 },
    )
}

/// The drawable path of one way for a tile: its resolved points, relative
/// to the tile's corner; a way with no resolved points yields no path.
pub fn build_path(store: &Store, tile: &Tile, id: i64) -> (r: Option<PathSpec>)
    requires
        store.wf(),
        tile.wf(),
    ensures
        match r {
            Some(p) => {
                &&& store.has_way(id)
                &&& store.resolved_points(store.way_at(id).node_ids@).len() > 0
                &&& p.way_id == id
                &&& p.vertices@ == spec_offsets(
                    store.resolved_points(store.way_at(id).node_ids@),
                    tile.top_left,
                )
            },
            None => !store.has_way(id) || store.resolved_points(
                store.way_at(id).node_ids@,
            ).len() == 0,
        },
{
    let w = match store.find_way(id) {
        Some(w) => w,
        None => {
            return None;
        },
    };
    let pts = store.resolve_points_of(&w.node_ids);
    if pts.len() == 0 {
        return None;
    }
    proof {
        store.lemma_resolved_points_in_range(w.node_ids@);
    }
    let mut vertices: Vec<Point> = Vec::new();
    let mut i: usize = 0;
    while i < pts.len()
        invariant
            0 <= i <= pts@.len(),
            tile.wf(),
            forall|k: int| 0 <= k < pts@.len() ==> (#[trigger] pts@[k]).in_range(),
            vertices@.len() == i,
            forall|k: int|
                0 <= k < i ==> (#[trigger] vertices@[k]) == (Point {
                    x: (pts@[k].x - tile.top_left.x) as i64,
                    y: (pts@[k].y - tile.top_left.y) as i64,
                }),
        decreases pts@.len() - i,
    {
        let p = pts[i];
        vertices.push(Point { x: p.x - tile.top_left.x, y: p.y - tile.top_left.y });
        i = i + 1;
    }
    proof {
        assert(vertices@ =~= spec_offsets(pts@, tile.top_left));
    }
    Some(PathSpec { way_id: id, vertices })
}

/// The paths drawn for an ordered list of selected way ids: one for each
/// id whose way resolves to at least one point, in list order.
pub open spec fn spec_paths(store: Store, tile: Tile, ids: Seq<i64>) -> Seq<(i64, Seq<Point>)>
    decreases ids.len(),
{
    if ids.len() == 0 {
        Seq::empty()
    } else {
        let rest = spec_paths(store, tile, ids.drop_last());
        let id = ids.last();
        if store.has_way(id) && store.resolved_points(store.way_at(id).node_ids@).len() > 0 {
            rest.push(
                (
                    id,
                    spec_offsets(
                        store.resolved_points(store.way_at(id).node_ids@),
                        tile.top_left,
                    ),
                ),
            )
        } else {
            rest
        }
    }
}

/// The model of an executable path list.
pub open spec fn paths_model(paths: Seq<PathSpec>) -> Seq<(i64, Seq<Point>)> {
    paths.map_values(|p: PathSpec| (p.way_id, p.vertices@))
}

/// Builds the paths for a list of selected way ids.
fn build_paths(store: &Store, tile: &Tile, ids: &Vec<i64>) -> (paths: Vec<PathSpec>)
    requires
        store.wf(),
        tile.wf(),
    ensures
        paths_model(paths@) == spec_paths(*store, *tile, ids@),
{
    let mut paths: Vec<PathSpec> = Vec::new();
    let mut i: usize = 0;
    proof {
        assert(paths_model(paths@) =~= spec_paths(*store, *tile, ids@.subrange(0, 0)));
    }
    while i < ids.len()
        invariant
            store.wf(),
            tile.wf(),
            0 <= i <= ids@.len(),
            paths_model(paths@) == spec_paths(*store, *tile, ids@.subrange(0, i as int)),
        decreases ids@.len() - i,
    {
        match build_path(store, tile, ids[i]) {
            Some(p) => {
                paths.push(p);
            },
            None => (),
        }
        proof {
            assert(ids@.subrange(0, i + 1).drop_last() =~= ids@.subrange(0, i as int));
            assert(ids@.subrange(0, i + 1).last() == ids@[i as int]);
            assert(paths_model(paths@) =~= spec_paths(*store, *tile, ids@.subrange(0, i + 1)));
        }
        i = i + 1;
    }
    proof {
        assert(ids@.subrange(0, ids@.len() as int) =~= ids@);
    }
    paths
}

/// Plans one tile's raster: buildings as area features (fill plus
/// outline), highways as line strokes of the caller's width, over the
/// background, at the region's fixed resolution. The colors are exactly
/// the quantizer's material colors, so the finished raster quantizes back
/// to the materials drawn.
pub fn render(store: &Store, tile: &Tile, line_width: u32) -> (plan: RenderPlan)
    requires
        store.wf(),
        tile.wf(),
    ensures
        plan.width == crate::REGION_BLOCK_SIZE,
        plan.height == crate::REGION_BLOCK_SIZE,
        plan.background == spec_material_color(0),
        plan.area_fill == spec_material_color(1),
        plan.area_outline == spec_material_color(2),
        plan.line_color == spec_material_color(2),
        plan.line_width == line_width,
        paths_model(plan.area_paths@) == spec_paths(
            *store,
            *tile,
            store.spec_ways_in_tile(*tile, Some(WayKind::Building)),
        ),
        paths_model(plan.line_paths@) == spec_paths(
            *store,
            *tile,
            store.spec_ways_in_tile(*tile, Some(WayKind::Highway)),
        ),
{
    let building_ids = store.ways_in_tile_by_type(tile, Some(WayKind::Building));
    let highway_ids = store.ways_in_tile_by_type(tile, Some(WayKind::Highway));
    let area_paths = build_paths(store, tile, &building_ids);
    let line_paths = build_paths(store, tile, &highway_ids);
    RenderPlan {
        width: crate::REGION_BLOCK_SIZE,
        height: crate::REGION_BLOCK_SIZE,
        background: Pixel(255, 255, 255),
        area_fill: Pixel(255, 0, 0),
        area_outline: Pixel(0, 255, 0),
        line_color: Pixel(0, 255, 0),
        line_width,
        area_paths,
        line_paths,
    }
}

} // verus!
