//! Integer geometry: tile coordinates, tile rectangles and fixed-point
//! rectangles and segments.

use vstd::prelude::*;

verus! {

/// Width of a tile in pixels.
pub const TILE_WIDTH: i32 = 16;

/// Height of a tile in pixels.
pub const TILE_HEIGHT: i32 = 16;

/// Number of fixed-point units in one pixel.
pub const FIXED_ONE: i64 = 256;

/// Number of fixed-point units across one tile.
pub const TILE_FIXED: i64 = 4096;

/// Largest magnitude of a fixed-point coordinate that the library accepts.
pub const FIXED_LIMIT: i64 = 0x100_0000_0000;

/// A point on the integer tile grid.
#[derive(Clone, Copy, Debug, PartialEq, Eq, Structural)]
pub struct Vector2I {
    pub x: i32,
    pub y: i32,
}

impl Vector2I {
    pub fn new(x: i32, y: i32) -> (r: Vector2I)
        ensures
            r.x == x,
            r.y == y,
    {
        Vector2I { x, y }
    }
}

/// An integer rectangle: an origin and a size.
#[derive(Clone, Copy, Debug, PartialEq, Eq, Structural)]
pub struct RectI {
    pub origin_x: i32,
    pub origin_y: i32,
    pub width: i32,
    pub height: i32,
}

impl RectI {
    /// Sizes are non-negative and the far corner is representable.
    pub open spec fn wf(self) -> bool {
        &&& 0 <= self.width
        &&& 0 <= self.height
        &&& self.origin_x + self.width <= i32::MAX
        &&& self.origin_y + self.height <= i32::MAX
    }

    pub open spec fn area(self) -> int {
        self.width * self.height
    }

    pub open spec fn contains(self, c: Vector2I) -> bool {
        &&& self.origin_x <= c.x < self.origin_x + self.width
        &&& self.origin_y <= c.y < self.origin_y + self.height
    }

    /// Row-major position of a contained point, rows outermost.
    pub open spec fn index_of(self, c: Vector2I) -> int {
        (c.y - self.origin_y) * self.width + (c.x - self.origin_x)
    }

    /// The point at a given row-major position.
    pub open spec fn coords_at(self, i: int) -> Vector2I {
        Vector2I {
            x: (self.origin_x + i % self.width as int) as i32,
            y: (self.origin_y + i / self.width as int) as i32,
        }
    }

    pub fn contains_point(&self, c: Vector2I) -> (r: bool)
        ensures
            r == self.contains(c),
    {
        let x = c.x as i64;
        let y = c.y as i64;
        let ox = self.origin_x as i64;
        let oy = self.origin_y as i64;
        ox <= x && x < ox + self.width as i64 && oy <= y && y < oy + self.height as i64
    }
}

/// An axis-aligned rectangle in fixed-point units, given by its two corners.
#[derive(Clone, Copy, Debug, PartialEq, Eq, Structural)]
pub struct RectF {
    pub min_x: i64,
    pub min_y: i64,
    pub max_x: i64,
    pub max_y: i64,
}

/// Tile coordinates of rectangles built from accepted fixed-point values.
pub open spec fn tile_rect_in_limit(r: RectI) -> bool {
    &&& -0x1000_0000 <= r.origin_x
    &&& -0x1000_0000 <= r.origin_y
    &&& r.origin_x + r.width <= 0x1000_0000
    &&& r.origin_y + r.height <= 0x1000_0000
}

pub open spec fn in_limit(v: int) -> bool {
    -FIXED_LIMIT <= v <= FIXED_LIMIT
}

pub open spec fn min_int(a: int, b: int) -> int {
    if a <= b { a } else { b }
}

pub open spec fn max_int(a: int, b: int) -> int {
    if a >= b { a } else { b }
}

pub open spec fn floor_div(a: int, b: int) -> int {
    a / b
}

pub open spec fn ceil_div(a: int, b: int) -> int {
    -((-a) / b)
}

impl RectF {
    /// Corners are ordered and every coordinate is within the accepted range.
    pub open spec fn wf(self) -> bool {
        &&& in_limit(self.min_x as int)
        &&& in_limit(self.min_y as int)
        &&& in_limit(self.max_x as int)
        &&& in_limit(self.max_y as int)
        &&& self.min_x <= self.max_x
        &&& self.min_y <= self.max_y
    }

    /// The smallest rectangle holding both.
    pub open spec fn union_spec(self, o: RectF) -> RectF {
        RectF {
            min_x: min_int(self.min_x as int, o.min_x as int) as i64,
            min_y: min_int(self.min_y as int, o.min_y as int) as i64,
            max_x: max_int(self.max_x as int, o.max_x as int) as i64,
            max_y: max_int(self.max_y as int, o.max_y as int) as i64,
        }
    }

    pub open spec fn contains_rect(self, o: RectF) -> bool {
        &&& self.min_x <= o.min_x
        &&& self.min_y <= o.min_y
        &&& o.max_x <= self.max_x
        &&& o.max_y <= self.max_y
    }

    /// The rectangle scaled by (3, 1): horizontal coordinates tripled.
    pub open spec fn scale_x3_spec(self) -> RectF {
        RectF {
            min_x: (3 * self.min_x) as i64,
            min_y: self.min_y,
            max_x: (3 * self.max_x) as i64,
            max_y: self.max_y,
        }
    }

    /// The tiles that the rectangle touches, rounded outward.
    pub open spec fn tile_bounds_spec(self) -> RectI {
        let x0 = floor_div(self.min_x as int, TILE_FIXED as int);
        let y0 = floor_div(self.min_y as int, TILE_FIXED as int);
        let x1 = ceil_div(self.max_x as int, TILE_FIXED as int);
        let y1 = ceil_div(self.max_y as int, TILE_FIXED as int);
        RectI {
            origin_x: x0 as i32,
            origin_y: y0 as i32,
            width: (x1 - x0) as i32,
            height: (y1 - y0) as i32,
        }
    }

    pub fn new(min_x: i64, min_y: i64, max_x: i64, max_y: i64) -> (r: RectF)
        ensures
            r == (RectF { min_x, min_y, max_x, max_y }),
    {
        RectF { min_x, min_y, max_x, max_y }
    }

    pub fn union_rect(&self, o: &RectF) -> (r: RectF)
        ensures
            r == self.union_spec(*o),
    {
        RectF {
            min_x: if self.min_x <= o.min_x { self.min_x } else { o.min_x },
            min_y: if self.min_y <= o.min_y { self.min_y } else { o.min_y },
            max_x: if self.max_x >= o.max_x { self.max_x } else { o.max_x },
            max_y: if self.max_y >= o.max_y { self.max_y } else { o.max_y },
        }
    }

    pub fn scale_x3(&self) -> (r: RectF)
        requires
            self.wf(),
        ensures
            r == self.scale_x3_spec(),
    {
        RectF { min_x: 3 * self.min_x, min_y: self.min_y, max_x: 3 * self.max_x, max_y: self.max_y }
    }

    /// Rounds the rectangle outward to whole tiles.
    pub fn round_out_to_tile_bounds(&self) -> (r: RectI)
        requires
            self.wf(),
        ensures
            r == self.tile_bounds_spec(),
            r.wf(),
            tile_rect_in_limit(r),
    {
        let x0 = floor_div_exec(self.min_x, TILE_FIXED);
        let y0 = floor_div_exec(self.min_y, TILE_FIXED);
        let x1 = ceil_div_exec(self.max_x, TILE_FIXED);
        let y1 = ceil_div_exec(self.max_y, TILE_FIXED);
        proof {
            lemma_div_bounds(self.min_x as int);
            lemma_div_bounds(self.min_y as int);
            lemma_div_bounds(-self.max_x);
            lemma_div_bounds(-self.max_y);
            lemma_div_mono(self.min_x as int, self.max_x as int);
            lemma_div_mono(self.min_y as int, self.max_y as int);
        }
        RectI {
            origin_x: x0 as i32,
            origin_y: y0 as i32,
            width: (x1 - x0) as i32,
            height: (y1 - y0) as i32,
        }
    }
}

proof fn lemma_div_bounds(a: int)
    requires
        in_limit(a),
    ensures
        -0x1000_0000 <= a / TILE_FIXED as int <= 0x1000_0000,
{
}

proof fn lemma_div_mono(a: int, b: int)
    requires
        a <= b,
    ensures
        a / (TILE_FIXED as int) <= -((-b) / (TILE_FIXED as int)),
{
    assert(a / 4096 <= b / 4096) by (nonlinear_arith)
        requires a <= b;
    assert(b / 4096 <= -((-b) / 4096)) by (nonlinear_arith);
}

/// Division rounding toward negative infinity.
pub fn floor_div_exec(a: i64, b: i64) -> (r: i64)
    requires
        b > 0,
        a > i64::MIN,
    ensures
        r == floor_div(a as int, b as int),
{
    if a >= 0 {
        a / b
    } else {
        let n = -a - 1;
        proof {
            lemma_floor_div_negative(a as int, b as int);
        }
        -(n / b) - 1
    }
}

proof fn lemma_floor_div_negative(a: int, b: int)
    requires
        b > 0,
        a < 0,
    ensures
        a / b == -((-a - 1) / b) - 1,
{
    let n = -a - 1;
    let q = n / b;
    let r = n % b;
    assert(n == q * b + r && 0 <= r < b) by {
        vstd::arithmetic::div_mod::lemma_fundamental_div_mod(n, b);
    }
    assert(a == (-q - 1) * b + (b - 1 - r)) by (nonlinear_arith)
        requires n == q * b + r, a == -n - 1;
    vstd::arithmetic::div_mod::lemma_fundamental_div_mod_converse(a, b, -q - 1, b - 1 - r);
}

/// Division rounding toward positive infinity.
pub fn ceil_div_exec(a: i64, b: i64) -> (r: i64)
    requires
        b > 0,
        in_limit(a as int),
    ensures
        r == ceil_div(a as int, b as int),
{
    let q = floor_div_exec(-a, b);
    proof {
        let n = -(a as int);
        let bi = b as int;
        if n >= 0 {
            assert(0 <= n / bi <= n) by (nonlinear_arith)
                requires n >= 0, bi > 0;
        } else {
            assert(n <= n / bi < 0) by (nonlinear_arith)
                requires n < 0, bi > 0;
        }
    }
    -q
}

/// Scaling a tile-aligned rectangle by (3, 1) triples its tile columns and
/// keeps its tile rows.
pub proof fn lemma_scale_x3_triples_columns(r: RectF)
    requires
        r.wf(),
        r.min_x % TILE_FIXED == 0,
        r.max_x % TILE_FIXED == 0,
    ensures
        r.scale_x3_spec().tile_bounds_spec().width == 3 * r.tile_bounds_spec().width,
        r.scale_x3_spec().tile_bounds_spec().height == r.tile_bounds_spec().height,
        r.scale_x3_spec().tile_bounds_spec().origin_y == r.tile_bounds_spec().origin_y,
{
    let a = r.min_x as int;
    let b = r.max_x as int;
    let qa = a / 4096;
    let qb = b / 4096;
    assert(a == qa * 4096 && b == qb * 4096) by (nonlinear_arith)
        requires a % 4096 == 0, b % 4096 == 0, qa == a / 4096, qb == b / 4096;
    vstd::arithmetic::div_mod::lemma_fundamental_div_mod_converse(3 * a, 4096, 3 * qa, 0);
    vstd::arithmetic::div_mod::lemma_fundamental_div_mod_converse(-b, 4096, -qb, 0);
    vstd::arithmetic::div_mod::lemma_fundamental_div_mod_converse(-3 * b, 4096, -3 * qb, 0);
}

/// A line segment in fixed-point units.
#[derive(Clone, Copy, Debug, PartialEq, Eq, Structural)]
pub struct LineSegmentFixed {
    pub from_x: i64,
    pub from_y: i64,
    pub to_x: i64,
    pub to_y: i64,
}

impl LineSegmentFixed {
    pub open spec fn wf(self) -> bool {
        &&& in_limit(self.from_x as int)
        &&& in_limit(self.from_y as int)
        &&& in_limit(self.to_x as int)
        &&& in_limit(self.to_y as int)
    }

    pub fn new(from_x: i64, from_y: i64, to_x: i64, to_y: i64) -> (r: LineSegmentFixed)
        ensures
            r == (LineSegmentFixed { from_x, from_y, to_x, to_y }),
    {
        LineSegmentFixed { from_x, from_y, to_x, to_y }
    }
}

} // verus!
