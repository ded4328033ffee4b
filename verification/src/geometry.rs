//! Rectangles and points in logical coordinates, with the inset/deflate
//! and split operations the layout engine is built from.

use vstd::prelude::*;

verus! {

/// Coordinates and extents of every rectangle handed to the core are kept
/// within this magnitude, so that all layout arithmetic fits in `i32`.
pub const COORD_LIMIT: i32 = 0x1000_0000;

/// Gap widths are kept within this magnitude.
pub const GAP_LIMIT: i32 = 0x0010_0000;

/// Rectangles the layout engine assigns stay within this magnitude, a
/// little wider than `COORD_LIMIT` to leave room for the gap arithmetic.
pub const PLACED_LIMIT: i32 = 0x4000_0000;

/// An axis-aligned rectangle: position plus size, in logical units.
/// Sizes may be zero or negative for degenerate geometry, which callers
/// must tolerate.
#[derive(Clone, Copy, Debug, PartialEq, Eq, Structural)]
pub struct Rect {
    pub x: i32,
    pub y: i32,
    pub w: i32,
    pub h: i32,
}

/// A point in logical coordinates.
#[derive(Clone, Copy, Debug, PartialEq, Eq, Structural)]
pub struct Point {
    pub x: i32,
    pub y: i32,
}

impl Rect {
    /// All four components within `COORD_LIMIT`.
    pub open spec fn bounded(self) -> bool {
        &&& -COORD_LIMIT <= self.x <= COORD_LIMIT
        &&& -COORD_LIMIT <= self.y <= COORD_LIMIT
        &&& -COORD_LIMIT <= self.w <= COORD_LIMIT
        &&& -COORD_LIMIT <= self.h <= COORD_LIMIT
    }

    /// All four components within `PLACED_LIMIT`: what holds of every
    /// rectangle the layout engine assigns.
    pub open spec fn placed_bounded(self) -> bool {
        &&& -PLACED_LIMIT <= self.x <= PLACED_LIMIT
        &&& -PLACED_LIMIT <= self.y <= PLACED_LIMIT
        &&& -PLACED_LIMIT <= self.w <= PLACED_LIMIT
        &&& -PLACED_LIMIT <= self.h <= PLACED_LIMIT
    }

    /// A non-degenerate region the layout recursion walks: non-negative
    /// size, edges within twice the coordinate limit.
    pub open spec fn region_ok(self) -> bool {
        &&& -2 * COORD_LIMIT <= self.x
        &&& self.x + self.w <= 2 * COORD_LIMIT
        &&& -2 * COORD_LIMIT <= self.y
        &&& self.y + self.h <= 2 * COORD_LIMIT
        &&& 0 <= self.w
        &&& 0 <= self.h
    }

    /// `self` lies within `outer`: every edge of `self` is at or inside
    /// the corresponding edge of `outer`.
    pub open spec fn within(self, outer: Rect) -> bool {
        &&& outer.x <= self.x
        &&& self.x + self.w <= outer.x + outer.w
        &&& outer.y <= self.y
        &&& self.y + self.h <= outer.y + outer.h
    }

    /// `p` lies inside `self` (half-open on the far edges).
    pub open spec fn spec_contains(self, p: Point) -> bool {
        &&& self.x <= p.x < self.x + self.w
        &&& self.y <= p.y < self.y + self.h
    }

    /// Whether `p` lies inside this rectangle.
    pub fn contains(&self, p: Point) -> (r: bool)
        ensures
            r == self.spec_contains(p),
    {
        let x = self.x as i64;
        let y = self.y as i64;
        let px = p.x as i64;
        let py = p.y as i64;
        x <= px && px < x + self.w as i64 && y <= py && py < y + self.h as i64
    }
}

/// `r` shrunk by `g` on every side.
pub open spec fn spec_deflate(r: Rect, g: int) -> Rect {
    Rect { x: (r.x + g) as i32, y: (r.y + g) as i32, w: (r.w - 2 * g) as i32, h: (r.h - 2 * g) as i32 }
}

/// `r` grown back out by `g` on every side; the inverse of `spec_deflate`.
pub open spec fn spec_inflate(r: Rect, g: int) -> Rect {
    Rect { x: (r.x - g) as i32, y: (r.y - g) as i32, w: (r.w + 2 * g) as i32, h: (r.h + 2 * g) as i32 }
}

/// `r` shrunk by `g` on every side, with the size clamped at zero so the
/// result is always a (possibly empty) region.
pub open spec fn spec_inset_clamped(r: Rect, g: int) -> Rect {
    Rect {
        x: (r.x + g) as i32,
        y: (r.y + g) as i32,
        w: if r.w - 2 * g >= 0 { (r.w - 2 * g) as i32 } else { 0 },
        h: if r.h - 2 * g >= 0 { (r.h - 2 * g) as i32 } else { 0 },
    }
}

/// Half of `d`, rounded toward zero.
pub open spec fn spec_half(d: int) -> int {
    if d >= 0 {
        d / 2
    } else {
        -((-d) / 2)
    }
}

/// `r` moved (size unchanged) so that it is centered within `area`.
pub open spec fn spec_recenter(r: Rect, area: Rect) -> Rect {
    Rect {
        x: (area.x + spec_half(area.w - r.w)) as i32,
        y: (area.y + spec_half(area.h - r.h)) as i32,
        w: r.w,
        h: r.h,
    }
}

fn half_i64(d: i64) -> (out: i64)
    requires
        -0x7000_0000_0000 <= d <= 0x7000_0000_0000,
    ensures
        out == spec_half(d as int),
{
    if d >= 0 {
        ((d as u64) / 2) as i64
    } else {
        -(((-d) as u64 / 2) as i64)
    }
}

/// Center `r` within `area`, keeping its size.
pub fn recenter(r: Rect, area: Rect) -> (out: Rect)
    requires
        r.placed_bounded(),
        area.bounded(),
    ensures
        out == spec_recenter(r, area),
        out.placed_bounded(),
{
    let x = area.x as i64 + half_i64(area.w as i64 - r.w as i64);
    let y = area.y as i64 + half_i64(area.h as i64 - r.h as i64);
    Rect { x: x as i32, y: y as i32, w: r.w, h: r.h }
}

/// Shrink `r` by `g` on every side.
pub fn deflate(r: Rect, g: i32) -> (out: Rect)
    requires
        r.bounded() || r.region_ok(),
        0 <= g <= GAP_LIMIT,
    ensures
        out == spec_deflate(r, g as int),
{
    Rect { x: r.x + g, y: r.y + g, w: r.w - 2 * g, h: r.h - 2 * g }
}

/// Shrink `r` by `g` on every side, clamping the size at zero.
pub fn inset_clamped(r: Rect, g: i32) -> (out: Rect)
    requires
        r.bounded(),
        0 <= g <= GAP_LIMIT,
    ensures
        out == spec_inset_clamped(r, g as int),
        out.region_ok(),
{
    let w = if r.w - 2 * g >= 0 { r.w - 2 * g } else { 0 };
    let h = if r.h - 2 * g >= 0 { r.h - 2 * g } else { 0 };
    Rect { x: r.x + g, y: r.y + g, w, h }
}

} // verus!
