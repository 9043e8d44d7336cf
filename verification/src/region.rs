//! The region orchestrator's pure core: partitioning the store's bounding
//! box into region tiles, the per-region jobs the workers run, and the
//! proof that the set of outputs does not depend on how those jobs are
//! scheduled — each region's output is a function of its coordinates and
//! raster alone, so one worker or sixteen produce the same region files.
use vstd::prelude::*;

use crate::chunk::spec_region_model;
use crate::quantize::Pixel;
use crate::coord::{Point, COORD_LIMIT};
use crate::geometry::Tile;

verus! {

/// Span of one region tile in fixed-point coordinate units: 512 pixels of
/// `SUBPIXEL` units each.
pub const REGION_SPAN: i64 = 131072;

/// Regions needed to cover the span from `lo` to `hi`: the ceiling of the
/// span over the region span.
pub open spec fn spec_region_count(lo: int, hi: int) -> int {
    (hi - lo + REGION_SPAN - 1) / (REGION_SPAN as int)
}

/// Regions needed to cover the span from `lo` to `hi`.
pub fn region_count(lo: i64, hi: i64) -> (c: u64)
    requires
        lo <= hi,
        -COORD_LIMIT <= lo,
        hi <= COORD_LIMIT,
    ensures
        c == spec_region_count(lo as int, hi as int),
        c <= 0x200_0000,
{
    let d: u64 = (hi - lo) as u64;
    let span: u64 = REGION_SPAN as u64;
    proof {
        vstd::arithmetic::div_mod::lemma_div_is_ordered(
            d + span - 1,
            0x400_0000_0000 + REGION_SPAN - 1,
            span as int,
        );
    }
    (d + span - 1) / span
}

/// The query rectangle of the region at grid position `(x, y)` of the
/// partition that starts at `min`.
pub open spec fn spec_region_tile(min: Point, x: int, y: int) -> Tile {
    Tile {
        top_left: Point {
            x: (min.x + x * REGION_SPAN) as i64,
            y: (min.y + y * REGION_SPAN) as i64,
        },
        bottom_right: Point {
            x: (min.x + (x + 1) * REGION_SPAN) as i64,
            y: (min.y + (y + 1) * REGION_SPAN) as i64,
        },
    }
}

/// One region task: its grid position and its query tile.
#[derive(Clone, Copy, Debug, PartialEq, Eq, Structural)]
pub struct RegionJob {
    pub x: i32,
    pub y: i32,
    pub tile: Tile,
}

/// Builds the query tile of the region at `(x, y)`.
pub fn region_tile(min: Point, x: i64, y: i64) -> (t: Tile)
    requires
        min.in_ingest_range(),
        0 <= x,
        0 <= y,
        min.x + (x + 1) * REGION_SPAN <= COORD_LIMIT,
        min.y + (y + 1) * REGION_SPAN <= COORD_LIMIT,
    ensures
        t == spec_region_tile(min, x as int, y as int),
        t.wf(),
{
    let t = Tile {
        top_left: Point { x: min.x + x * REGION_SPAN, y: min.y + y * REGION_SPAN },
        bottom_right: Point {
            x: min.x + (x + 1) * REGION_SPAN,
            y: min.y + (y + 1) * REGION_SPAN,
        },
    };
    proof {
        assert(0 <= x * REGION_SPAN <= (x + 1) * REGION_SPAN) by (nonlinear_arith)
            requires
                0 <= x,
        ;
        assert(0 <= y * REGION_SPAN <= (y + 1) * REGION_SPAN) by (nonlinear_arith)
            requires
                0 <= y,
        ;
    }
    t
}

/// The full partition of the bounding box from `min` to `max` into region
/// jobs, in row-major order: job `j` covers grid position
/// `(j / count_y, j % count_y)`.
pub fn plan_regions(min: Point, max: Point) -> (jobs: Vec<RegionJob>)
    requires
        min.in_ingest_range(),
        max.in_ingest_range(),
        min.x <= max.x,
        min.y <= max.y,
    ensures
        jobs@.len() == spec_region_count(min.x as int, max.x as int) * spec_region_count(
            min.y as int,
            max.y as int,
        ),
        forall|j: int|
            0 <= j < jobs@.len() ==> {
                let cy = spec_region_count(min.y as int, max.y as int);
                &&& (#[trigger] jobs@[j]).x == j / cy
                &&& jobs@[j].y == j % cy
                &&& jobs@[j].tile == spec_region_tile(min, j / cy, j % cy)
                &&& jobs@[j].tile.wf()
            },
{
    let cx: u64 = region_count(min.x, max.x);
    let cy: u64 = region_count(min.y, max.y);
    proof {
        lemma_count_covers(min.x as int, max.x as int);
        lemma_count_covers(min.y as int, max.y as int);
    }
    let mut jobs: Vec<RegionJob> = Vec::new();
    let mut xi: u64 = 0;
    proof {
        assert(jobs@.len() * cy == 0) by (nonlinear_arith)
            requires
                jobs@.len() == 0,
        ;
    }
    while xi < cx
        invariant
            min.in_ingest_range(),
            max.in_ingest_range(),
            min.x <= max.x,
            min.y <= max.y,
            cx == spec_region_count(min.x as int, max.x as int),
            cy == spec_region_count(min.y as int, max.y as int),
            cx <= 0x200_0000,
            cy <= 0x200_0000,
            (cx as int) * REGION_SPAN <= max.x - min.x + REGION_SPAN,
            (cy as int) * REGION_SPAN <= max.y - min.y + REGION_SPAN,
            0 <= xi <= cx,
            jobs@.len() == xi * cy,
            forall|j: int|
                0 <= j < jobs@.len() ==> {
                    &&& (#[trigger] jobs@[j]).x == j / (cy as int)
                    &&& jobs@[j].y == j % (cy as int)
                    &&& jobs@[j].tile == spec_region_tile(min, j / (cy as int), j % (cy as int))
                    &&& jobs@[j].tile.wf()
                },
        decreases cx - xi,
    {
        let mut yi: u64 = 0;
        while yi < cy
            invariant
                min.in_ingest_range(),
                max.in_ingest_range(),
                min.x <= max.x,
                min.y <= max.y,
                cx == spec_region_count(min.x as int, max.x as int),
                cy == spec_region_count(min.y as int, max.y as int),
                cx <= 0x200_0000,
                cy <= 0x200_0000,
                (cx as int) * REGION_SPAN <= max.x - min.x + REGION_SPAN,
                (cy as int) * REGION_SPAN <= max.y - min.y + REGION_SPAN,
                0 <= xi < cx,
                0 <= yi <= cy,
                jobs@.len() == xi * cy + yi,
                forall|j: int|
                    0 <= j < jobs@.len() ==> {
                        &&& (#[trigger] jobs@[j]).x == j / (cy as int)
                        &&& jobs@[j].y == j % (cy as int)
                        &&& jobs@[j].tile == spec_region_tile(
                            min,
                            j / (cy as int),
                            j % (cy as int),
                        )
                        &&& jobs@[j].tile.wf()
                    },
            decreases cy - yi,
        {
            proof {
                assert((xi as int + 1) * REGION_SPAN <= (cx as int) * REGION_SPAN && (yi as int
                    + 1) * REGION_SPAN <= (cy as int) * REGION_SPAN) by (nonlinear_arith)
                    requires
                        0 <= xi < cx,
                        0 <= yi < cy,
                        REGION_SPAN > 0,
                ;
            }
            let tile = region_tile(min, xi as i64, yi as i64);
            let job = RegionJob { x: xi as i32, y: yi as i32, tile };
            jobs.push(job);
            proof {
                let j = jobs@.len() - 1;
                vstd::arithmetic::div_mod::lemma_div_multiples_vanish_fancy(
                    xi as int,
                    yi as int,
                    cy as int,
                );
                assert(j == (cy as int) * (xi as int) + (yi as int)) by (nonlinear_arith)
                    requires
                        j == xi * cy + yi,
                ;
                vstd::arithmetic::div_mod::lemma_fundamental_div_mod_converse_mod(
                    j,
                    cy as int,
                    xi as int,
                    yi as int,
                );
                assert(j / (cy as int) == xi as int && j % (cy as int) == yi as int);
            }
            yi = yi + 1;
        }
        xi = xi + 1;
        proof {
            assert(xi * cy == (xi - 1) * cy + cy) by (nonlinear_arith)
                requires
                    xi >= 1,
            ;
        }
    }
    jobs
}

/// The region partition covers the whole bounding box: `count` region
/// spans reach at least `hi`, and no fewer would.
proof fn lemma_count_covers(lo: int, hi: int)
    requires
        lo <= hi,
    ensures
        spec_region_count(lo, hi) * REGION_SPAN >= hi - lo,
        spec_region_count(lo, hi) * REGION_SPAN <= hi - lo + REGION_SPAN,
        spec_region_count(lo, hi) >= 0,
{
    let d = hi - lo;
    let c = spec_region_count(lo, hi);
    let span = REGION_SPAN as int;
    vstd::arithmetic::div_mod::lemma_fundamental_div_mod(d + span - 1, span);
    vstd::arithmetic::div_mod::lemma_mod_division_less_than_divisor(d + span - 1, span);
    let r = (d + span - 1) % span;
    assert(d + span - 1 == span * c + r);
    assert(c * span == span * c) by (nonlinear_arith);
    assert(c >= 0) by (nonlinear_arith)
        requires
            span * c == d + span - 1 - r,
            d >= 0,
            0 <= r < span,
            span > 0,
    ;
}

/// Total chunks the run will produce: 1024 for each region of the
/// partition. The progress indicator's denominator.
pub fn total_chunk_count(min: Point, max: Point) -> (n: u64)
    requires
        min.in_ingest_range(),
        max.in_ingest_range(),
        min.x <= max.x,
        min.y <= max.y,
    ensures
        n == spec_region_count(min.x as int, max.x as int) * spec_region_count(
            min.y as int,
            max.y as int,
        ) * 1024,
{
    let cx: u64 = region_count(min.x, max.x);
    let cy: u64 = region_count(min.y, max.y);
    proof {
        lemma_count_covers(min.x as int, max.x as int);
        lemma_count_covers(min.y as int, max.y as int);
        assert(cx * cy <= 0x200_0000 * 0x200_0000) by (nonlinear_arith)
            requires
                0 <= cx <= 0x200_0000,
                0 <= cy <= 0x200_0000,
        ;
        assert(cx * cy * 1024 <= 0x200_0000 * 0x200_0000 * 1024) by (nonlinear_arith)
            requires
                0 <= cx * cy <= 0x200_0000 * 0x200_0000,
        ;
    }
    cx * cy * 1024
}

/// The outputs a schedule of region jobs produces: for each job, keyed by
/// its region coordinates, the functional model of its encoded region.
/// Scheduling order only affects the order of insertion, never a value.
pub open spec fn scheduled_outputs(
    jobs: Seq<(int, int)>,
    rasters: Map<(int, int), Seq<Pixel>>,
) -> Map<(int, int), Seq<(int, int, Seq<u64>)>>
    decreases jobs.len(),
{
    if jobs.len() == 0 {
        Map::empty()
    } else {
        scheduled_outputs(jobs.drop_last(), rasters).insert(
            jobs.last(),
            spec_region_model(jobs.last().0, jobs.last().1, rasters[jobs.last()]),
        )
    }
}

/// Whatever order the jobs ran in, the output map is the pointwise map of
/// the jobs' coordinates.
proof fn lemma_scheduled_outputs_pointwise(
    jobs: Seq<(int, int)>,
    rasters: Map<(int, int), Seq<Pixel>>,
)
    ensures
        scheduled_outputs(jobs, rasters) =~= Map::new(
            |c: (int, int)| jobs.contains(c),
            |c: (int, int)| spec_region_model(c.0, c.1, rasters[c]),
        ),
    decreases jobs.len(),
{
    if jobs.len() > 0 {
        lemma_scheduled_outputs_pointwise(jobs.drop_last(), rasters);
        assert forall|c: (int, int)| #[trigger] jobs.contains(c) implies jobs.drop_last().contains(
            c,
        ) || jobs.last() == c by {
            let i = choose|i: int| 0 <= i < jobs.len() && jobs[i] == c;
            if i < jobs.len() - 1 {
                assert(jobs.drop_last()[i] == c);
            }
        }
        assert forall|c: (int, int)| jobs.drop_last().contains(c) implies jobs.contains(c) by {
            let i = choose|i: int| 0 <= i < jobs.drop_last().len() && jobs.drop_last()[i] == c;
            assert(jobs[i] == c);
        }
        assert(jobs.contains(jobs.last())) by {
            assert(jobs[jobs.len() - 1] == jobs.last());
        }
    }
}

/// Determinism is independent of the parallelism degree: two runs that
/// complete the same set of regions — in any order, split over any number
/// of workers — produce identical region outputs, because each region's
/// output is a function of its coordinates and its raster alone.
pub proof fn lemma_outputs_schedule_independent(
    jobs1: Seq<(int, int)>,
    jobs2: Seq<(int, int)>,
    rasters: Map<(int, int), Seq<Pixel>>,
)
    requires
        forall|c: (int, int)| jobs1.contains(c) <==> jobs2.contains(c),
    ensures
        scheduled_outputs(jobs1, rasters) == scheduled_outputs(jobs2, rasters),
{
    lemma_scheduled_outputs_pointwise(jobs1, rasters);
    lemma_scheduled_outputs_pointwise(jobs2, rasters);
    assert(Map::new(
        |c: (int, int)| jobs1.contains(c),
        |c: (int, int)| spec_region_model(c.0, c.1, rasters[c]),
    ) =~= Map::new(
        |c: (int, int)| jobs2.contains(c),
        |c: (int, int)| spec_region_model(c.0, c.1, rasters[c]),
    ));
}

} // verus!
