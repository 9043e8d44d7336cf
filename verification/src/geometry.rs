//! Tile rectangles and the exact integer geometry behind the tile-membership
//! test: orientation (cross product) predicates, closed-segment intersection,
//! and the intersection of a polyline with a tile's four-edge border.
use vstd::prelude::*;

use crate::coord::Point;

verus! {

/// Twice the signed area of the triangle `(a, b, c)`: positive when `c` lies
/// to one side of the directed line `a -> b`, negative on the other, zero
/// when the three points are collinear.
pub open spec fn spec_cross(a: Point, b: Point, c: Point) -> int {
    (b.x - a.x) * (c.y - a.y) - (b.y - a.y) * (c.x - a.x)
}

/// `c` lies within the axis-aligned bounding box of the segment `a`-`b`.
pub open spec fn in_segment_box(a: Point, b: Point, c: Point) -> bool {
    &&& (a.x <= c.x <= b.x || b.x <= c.x <= a.x)
    &&& (a.y <= c.y <= b.y || b.y <= c.y <= a.y)
}

/// The closed segments `p1`-`p2` and `q1`-`q2` share at least one point.
/// Stated the standard way over orientations: either the endpoints of each
/// segment lie strictly on opposite sides of the other's supporting line, or
/// some endpoint is collinear with the other segment and falls within its
/// bounding box (which covers touching ends and collinear overlap).
pub open spec fn spec_segments_intersect(p1: Point, p2: Point, q1: Point, q2: Point) -> bool {
    let d1 = spec_cross(q1, q2, p1);
    let d2 = spec_cross(q1, q2, p2);
    let d3 = spec_cross(p1, p2, q1);
    let d4 = spec_cross(p1, p2, q2);
    ||| {
        &&& (d1 > 0 && d2 < 0 || d1 < 0 && d2 > 0)
        &&& (d3 > 0 && d4 < 0 || d3 < 0 && d4 > 0)
    }
    ||| (d1 == 0 && in_segment_box(q1, q2, p1))
    ||| (d2 == 0 && in_segment_box(q1, q2, p2))
    ||| (d3 == 0 && in_segment_box(p1, p2, q1))
    ||| (d4 == 0 && in_segment_box(p1, p2, q2))
}

/// Cross product of `(b - a)` and `(c - a)`, exactly, in `i128`.
fn cross(a: Point, b: Point, c: Point) -> (r: i128)
    requires
        a.in_range(),
        b.in_range(),
        c.in_range(),
    ensures
        r == spec_cross(a, b, c),
{
    let abx: i128 = b.x as i128 - a.x as i128;
    let aby: i128 = b.y as i128 - a.y as i128;
    let acx: i128 = c.x as i128 - a.x as i128;
    let acy: i128 = c.y as i128 - a.y as i128;
    proof {
        assert(abx * acy - aby * acx == spec_cross(a, b, c)) by (nonlinear_arith)
            requires
                abx == b.x - a.x,
                aby == b.y - a.y,
                acx == c.x - a.x,
                acy == c.y - a.y,
        ;
        assert(-0x1000000000000000000000 <= abx * acy <= 0x1000000000000000000000)
            by (nonlinear_arith)
            requires
                -0x40000000000 <= abx <= 0x40000000000,
                -0x40000000000 <= acy <= 0x40000000000,
        ;
        assert(-0x1000000000000000000000 <= aby * acx <= 0x1000000000000000000000)
            by (nonlinear_arith)
            requires
                -0x40000000000 <= aby <= 0x40000000000,
                -0x40000000000 <= acx <= 0x40000000000,
        ;
    }
    abx * acy - aby * acx
}

fn in_segment_box_exec(a: Point, b: Point, c: Point) -> (r: bool)
    ensures
        r == in_segment_box(a, b, c),
{
    (a.x <= c.x && c.x <= b.x || b.x <= c.x && c.x <= a.x) && (a.y <= c.y && c.y <= b.y
        || b.y <= c.y && c.y <= a.y)
}

/// Whether the closed segments `p1`-`p2` and `q1`-`q2` intersect.
pub fn segments_intersect(p1: Point, p2: Point, q1: Point, q2: Point) -> (r: bool)
    requires
        p1.in_range(),
        p2.in_range(),
        q1.in_range(),
        q2.in_range(),
    ensures
        r == spec_segments_intersect(p1, p2, q1, q2),
{
    let d1 = cross(q1, q2, p1);
    let d2 = cross(q1, q2, p2);
    let d3 = cross(p1, p2, q1);
    let d4 = cross(p1, p2, q2);
    if (d1 > 0 && d2 < 0 || d1 < 0 && d2 > 0) && (d3 > 0 && d4 < 0 || d3 < 0 && d4 > 0) {
        true
    } else if d1 == 0 && in_segment_box_exec(q1, q2, p1) {
        true
    } else if d2 == 0 && in_segment_box_exec(q1, q2, p2) {
        true
    } else if d3 == 0 && in_segment_box_exec(p1, p2, q1) {
        true
    } else {
        d4 == 0 && in_segment_box_exec(p1, p2, q2)
    }
}

/// An axis-aligned query rectangle in projected space.
#[derive(Clone, Copy, Debug, PartialEq, Eq, Structural)]
pub struct Tile {
    pub top_left: Point,
    pub bottom_right: Point,
}

impl Tile {
    /// Corners ordered and within the range the geometry code admits.
    pub open spec fn wf(self) -> bool {
        &&& self.top_left.x <= self.bottom_right.x
        &&& self.top_left.y <= self.bottom_right.y
        &&& self.top_left.in_range()
        &&& self.bottom_right.in_range()
    }

    pub open spec fn spec_top_right(self) -> Point {
        Point { x: self.bottom_right.x, y: self.top_left.y }
    }

    pub open spec fn spec_bottom_left(self) -> Point {
        Point { x: self.top_left.x, y: self.bottom_right.y }
    }

    pub fn top_right(&self) -> (r: Point)
        ensures
            r == self.spec_top_right(),
    {
        Point { x: self.bottom_right.x, y: self.top_left.y }
    }

    pub fn bottom_left(&self) -> (r: Point)
        ensures
            r == self.spec_bottom_left(),
    {
        Point { x: self.top_left.x, y: self.bottom_right.y }
    }

    /// `p` lies strictly inside the rectangle.
    pub open spec fn spec_contains(self, p: Point) -> bool {
        &&& self.top_left.x < p.x < self.bottom_right.x
        &&& self.top_left.y < p.y < self.bottom_right.y
    }

    pub fn contains(&self, p: Point) -> (r: bool)
        ensures
            r == self.spec_contains(p),
    {
        self.top_left.x < p.x && p.x < self.bottom_right.x && self.top_left.y < p.y
            && p.y < self.bottom_right.y
    }

    /// The rectangle's border as a closed polyline of its four corners.
    pub open spec fn border(self) -> Seq<Point> {
        seq![
            self.top_left,
            self.spec_top_right(),
            self.bottom_right,
            self.spec_bottom_left(),
            self.top_left,
        ]
    }
}

/// Some segment of the polyline `pts` intersects some edge of the tile's
/// border.
pub open spec fn polyline_hits_border(t: Tile, pts: Seq<Point>) -> bool {
    exists|i: int, j: int|
        0 <= i < 4 && 0 <= j && j + 1 < pts.len() && #[trigger] spec_segments_intersect(
            t.border()[i],
            t.border()[i + 1],
            pts[j],
            pts[j + 1],
        )
}

/// The tile-membership heuristic's accept condition for one way, given the
/// way's resolved points in order: some point strictly inside the tile, or
/// some polyline segment crossing or touching the tile's border. A way that
/// fully surrounds the tile without either is deliberately not accepted.
pub open spec fn tile_accepts(t: Tile, pts: Seq<Point>) -> bool {
    ||| exists|k: int| 0 <= k < pts.len() && t.spec_contains(pts[k])
    ||| polyline_hits_border(t, pts)
}

/// Runs the two-phase membership test on one way's resolved points.
pub fn tile_accepts_exec(t: &Tile, pts: &Vec<Point>) -> (r: bool)
    requires
        t.wf(),
        forall|k: int| 0 <= k < pts@.len() ==> (#[trigger] pts@[k]).in_range(),
    ensures
        r == tile_accepts(*t, pts@),
{
    let mut k: usize = 0;
    while k < pts.len()
        invariant
            0 <= k <= pts@.len(),
            forall|m: int| 0 <= m < k ==> !t.spec_contains(#[trigger] pts@[m]),
        decreases pts@.len() - k,
    {
        if t.contains(pts[k]) {
            return true;
        }
        k = k + 1;
    }

    if pts.len() < 2 {
        return false;
    }
    let mut i: usize = 0;
    while i < 4
        invariant
            0 <= i <= 4,
            2 <= pts@.len(),
            t.wf(),
            forall|k: int| 0 <= k < pts@.len() ==> (#[trigger] pts@[k]).in_range(),
            forall|m: int, j: int|
                0 <= m < i && 0 <= j && j + 1 < pts@.len() ==> !(#[trigger] spec_segments_intersect(
                    t.border()[m],
                    t.border()[m + 1],
                    pts@[j],
                    pts@[j + 1],
                )),
            !(exists|k: int| 0 <= k < pts@.len() && t.spec_contains(pts@[k])),
        decreases 4 - i,
    {
        let edge_a = border_corner(t, i);
        let edge_b = border_corner(t, i + 1);
        let mut j: usize = 0;
        while j < pts.len() - 1
            invariant
                0 <= i < 4,
                0 <= j,
                j + 1 <= pts@.len(),
                2 <= pts@.len(),
                t.wf(),
                forall|k: int| 0 <= k < pts@.len() ==> (#[trigger] pts@[k]).in_range(),
                edge_a == t.border()[i as int],
                edge_b == t.border()[i as int + 1],
                forall|n: int|
                    0 <= n < j ==> !(#[trigger] spec_segments_intersect(
                        t.border()[i as int],
                        t.border()[i as int + 1],
                        pts@[n],
                        pts@[n + 1],
                    )),
            decreases pts@.len() - j,
        {
            if segments_intersect(edge_a, edge_b, pts[j], pts[j + 1]) {
                return true;
            }
            j = j + 1;
        }
        i = i + 1;
    }
    false
}

/// The `i`-th corner of the tile's closed border polyline.
fn border_corner(t: &Tile, i: usize) -> (r: Point)
    requires
        i <= 4,
    ensures
        r == t.border()[i as int],
        t.wf() ==> r.in_range(),
{
    if i == 0 {
        t.top_left
    } else if i == 1 {
        t.top_right()
    } else if i == 2 {
        t.bottom_right
    } else if i == 3 {
        t.bottom_left()
    } else {
        t.top_left
    }
}

} // verus!
