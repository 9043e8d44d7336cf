//! Planar projected coordinates.
//!
//! A `Point` is a position in the projected (slippy-map) pixel plane at the
//! run's fixed zoom level, held in fixed-point integer units of `1/SUBPIXEL`
//! of a pixel. The floating-point projection from latitude/longitude to this
//! plane happens outside the crate; everything downstream (bounding boxes,
//! tiles, paths) works on these integer units.
use vstd::prelude::*;

verus! {

/// Fixed-point units per projected pixel.
pub const SUBPIXEL: i64 = 256;

/// Largest magnitude a coordinate may take and still be admitted by the
/// geometry code, in `1/SUBPIXEL` pixel units (2^41: every cross product
/// taken during geometry tests stays well inside `i128`).
pub const COORD_LIMIT: i64 = 0x200_0000_0000;

/// Largest magnitude of a projected node coordinate accepted at ingestion
/// (2^40: room for a 2^32-pixel world). One region span smaller than
/// `COORD_LIMIT`, so every region tile derived from ingested nodes is
/// still admitted by the geometry code.
pub const INGEST_LIMIT: i64 = 0x100_0000_0000;

/// Component-wise minimum of two points.
pub open spec fn point_min(a: Point, b: Point) -> Point {
    Point {
        x: if a.x <= b.x {
            a.x
        } else {
            b.x
        },
        y: if a.y <= b.y {
            a.y
        } else {
            b.y
        },
    }
}

/// Component-wise maximum of two points.
pub open spec fn point_max(a: Point, b: Point) -> Point {
    Point {
        x: if a.x >= b.x {
            a.x
        } else {
            b.x
        },
        y: if a.y >= b.y {
            a.y
        } else {
            b.y
        },
    }
}

/// A point of the projected pixel plane, in `1/SUBPIXEL` pixel units.
#[derive(Clone, Copy, Debug, PartialEq, Eq, Structural)]
pub struct Point {
    pub x: i64,
    pub y: i64,
}

impl Point {
    /// The point lies inside the coordinate range the geometry code admits.
    pub open spec fn in_range(self) -> bool {
        -COORD_LIMIT <= self.x <= COORD_LIMIT && -COORD_LIMIT <= self.y <= COORD_LIMIT
    }

    /// The point is within the coordinate range accepted at ingestion.
    pub open spec fn in_ingest_range(self) -> bool {
        -INGEST_LIMIT <= self.x <= INGEST_LIMIT && -INGEST_LIMIT <= self.y <= INGEST_LIMIT
    }

    pub fn new(x: i64, y: i64) -> (r: Point)
        ensures
            r.x == x,
            r.y == y,
    {
        Point { x, y }
    }

    /// Component-wise sum.
    pub fn add(self, rhs: Point) -> (r: Point)
        requires
            i64::MIN <= self.x + rhs.x <= i64::MAX,
            i64::MIN <= self.y + rhs.y <= i64::MAX,
        ensures
            r.x == self.x + rhs.x,
            r.y == self.y + rhs.y,
    {
        Point { x: self.x + rhs.x, y: self.y + rhs.y }
    }

    /// Component-wise difference.
    pub fn sub(self, rhs: Point) -> (r: Point)
        requires
            i64::MIN <= self.x - rhs.x <= i64::MAX,
            i64::MIN <= self.y - rhs.y <= i64::MAX,
        ensures
            r.x == self.x - rhs.x,
            r.y == self.y - rhs.y,
    {
        Point { x: self.x - rhs.x, y: self.y - rhs.y }
    }

    /// Component-wise minimum.
    pub fn min(self, rhs: Point) -> (r: Point)
        ensures
            r == point_min(self, rhs),
    {
        Point {
            x: if self.x <= rhs.x { self.x } else { rhs.x },
            y: if self.y <= rhs.y { self.y } else { rhs.y },
        }
    }

    /// Component-wise maximum.
    pub fn max(self, rhs: Point) -> (r: Point)
        ensures
            r == point_max(self, rhs),
    {
        Point {
            x: if self.x >= rhs.x { self.x } else { rhs.x },
            y: if self.y >= rhs.y { self.y } else { rhs.y },
        }
    }
}

} // verus!
