use blockmap::coord::Point;
use blockmap::progress::ProgressAggregator;
use blockmap::region::{plan_regions, region_count, total_chunk_count, REGION_SPAN};

fn p(x: i64, y: i64) -> Point {
    Point { x, y }
}

#[test]
fn region_count_is_ceiling() {
    assert_eq!(region_count(0, 0), 0);
    assert_eq!(region_count(0, 1), 1);
    assert_eq!(region_count(0, REGION_SPAN), 1);
    assert_eq!(region_count(0, REGION_SPAN + 1), 2);
    assert_eq!(region_count(-REGION_SPAN, REGION_SPAN), 2);
}

#[test]
fn plan_regions_tiles_the_bounding_box() {
    let min = p(100, -50);
    let max = p(100 + REGION_SPAN + 1, -50 + 1);
    let jobs = plan_regions(min, max);
    // Two columns, one row.
    assert_eq!(jobs.len(), 2);
    assert_eq!((jobs[0].x, jobs[0].y), (0, 0));
    assert_eq!((jobs[1].x, jobs[1].y), (1, 0));
    assert_eq!(jobs[0].tile.top_left, p(100, -50));
    assert_eq!(jobs[0].tile.bottom_right, p(100 + REGION_SPAN, -50 + REGION_SPAN));
    assert_eq!(jobs[1].tile.top_left, p(100 + REGION_SPAN, -50));
    assert_eq!(
        jobs[1].tile.bottom_right,
        p(100 + 2 * REGION_SPAN, -50 + REGION_SPAN)
    );
}

#[test]
fn plan_regions_row_major_order() {
    let min = p(0, 0);
    let max = p(REGION_SPAN + 1, 2 * REGION_SPAN + 1);
    let jobs = plan_regions(min, max);
    // Two columns of three rows each.
    assert_eq!(jobs.len(), 6);
    let coords: Vec<(i32, i32)> = jobs.iter().map(|j| (j.x, j.y)).collect();
    assert_eq!(coords, vec![(0, 0), (0, 1), (0, 2), (1, 0), (1, 1), (1, 2)]);
}

#[test]
fn total_chunk_count_matches_plan() {
    let min = p(0, 0);
    let max = p(REGION_SPAN + 1, 2 * REGION_SPAN + 1);
    assert_eq!(total_chunk_count(min, max), 6 * 1024);
    assert_eq!(plan_regions(min, max).len() as u64 * 1024, 6 * 1024);
}

// Progress aggregation: after two regions of 1024 chunks each complete,
// the counter is exactly 2048, whatever the interleaving of deliveries.
#[test]
fn progress_total_independent_of_interleaving() {
    let stream: Vec<u64> = vec![32; 32];
    // Sequential delivery.
    let mut a = ProgressAggregator::new();
    a.apply_all(&stream);
    a.apply_all(&stream);
    assert_eq!(a.count, 2048);
    // Alternating delivery of the two regions' increments.
    let mut b = ProgressAggregator::new();
    for _ in 0..32 {
        b.apply(32);
        b.apply(32);
    }
    assert_eq!(b.count, 2048);
    // A lopsided interleaving: 20 increments of one region, all 32 of the
    // other, then the first region's remaining 12.
    let mut c = ProgressAggregator::new();
    for _ in 0..20 {
        c.apply(32);
    }
    c.apply_all(&stream);
    for _ in 0..12 {
        c.apply(32);
    }
    assert_eq!(c.count, 2048);
}

#[test]
fn aggregator_sums_increments() {
    let mut a = ProgressAggregator::new();
    assert_eq!(a.count, 0);
    a.apply(32);
    assert_eq!(a.count, 32);
    a.apply_all(&vec![1, 2, 3]);
    assert_eq!(a.count, 38);
}
