//! A dense two-dimensional array over a rectangle of tiles.

use crate::geometry::{RectI, Vector2I};
use vstd::prelude::*;

verus! {

/// One value per tile of `rect`, stored row by row, rows outermost.
pub struct DenseTileMap<T> {
    pub data: Vec<T>,
    pub rect: RectI,
}

impl<T> DenseTileMap<T> {
    /// The flat vector holds exactly one value per tile of the rectangle.
    pub open spec fn wf(&self) -> bool {
        &&& self.rect.wf()
        &&& self.data@.len() == self.rect.area()
    }

    /// Looks up the flat index of a tile; `None` when it lies outside.
    pub fn coords_to_index(&self, coords: Vector2I) -> (r: Option<usize>)
        requires
            self.wf(),
        ensures
            r is Some <==> self.rect.contains(coords),
            r matches Some(i) ==> i as int == self.rect.index_of(coords) && i < self.data@.len(),
    {
        if self.rect.contains_point(coords) {
            Some(self.coords_to_index_unchecked(coords))
        } else {
            None
        }
    }

    /// The flat index of a tile known to lie inside the rectangle.
    pub fn coords_to_index_unchecked(&self, coords: Vector2I) -> (r: usize)
        requires
            self.wf(),
            self.rect.contains(coords),
        ensures
            r as int == self.rect.index_of(coords),
            r < self.data@.len(),
    {
        let row = (coords.y as i64 - self.rect.origin_y as i64) as u64;
        let col = (coords.x as i64 - self.rect.origin_x as i64) as u64;
        let w = self.rect.width as u64;
        let len = self.data.len();
        proof {
            lemma_index_in_range(row as int, col as int, w as int, self.rect.height as int);
        }
        (row as usize) * (w as usize) + (col as usize)
    }

    /// The tile at a flat index.
    pub fn index_to_coords(&self, index: usize) -> (r: Vector2I)
        requires
            self.wf(),
            index < self.data@.len(),
        ensures
            r == self.rect.coords_at(index as int),
            self.rect.contains(r),
            self.rect.index_of(r) == index as int,
    {
        let w = self.rect.width as usize;
        let i = index;
        proof {
            lemma_coords_round_trip(i as int, w as int, self.rect.height as int);
        }
        let x = (self.rect.origin_x as i64 + (i % w) as i64) as i32;
        let y = (self.rect.origin_y as i64 + (i / w) as i64) as i32;
        Vector2I { x, y }
    }
}

impl<T: Copy> DenseTileMap<T> {
    /// A map over `rect` with every tile holding `value`.
    pub fn from_value(rect: RectI, value: T) -> (r: DenseTileMap<T>)
        requires
            rect.wf(),
            rect.area() <= usize::MAX,
        ensures
            r.wf(),
            r.rect == rect,
            forall|i: int| 0 <= i < r.data@.len() ==> r.data@[i] == value,
    {
        proof {
            assert(0 <= rect.width <= rect.area() || rect.height == 0) by (nonlinear_arith)
                requires 0 <= rect.width, 0 <= rect.height;
        }
        let n: usize = if rect.height == 0 { 0 } else { (rect.width as usize) * (rect.height as usize) };
        assert(n == rect.area()) by (nonlinear_arith)
            requires
                rect.height == 0 ==> n == 0,
                rect.height != 0 ==> n == (rect.width as usize) as int * (rect.height as usize) as int,
                0 <= rect.width,
                0 <= rect.height,
                rect.width as usize == rect.width,
                rect.height as usize == rect.height,
        ;
        let mut data: Vec<T> = Vec::with_capacity(n);
        let mut k: usize = 0;
        while k < n
            invariant
                k <= n,
                data@.len() == k,
                forall|i: int| 0 <= i < k ==> data@[i] == value,
            decreases n - k,
        {
            data.push(value);
            k = k + 1;
        }
        DenseTileMap { data, rect }
    }
}

/// A tile inside the rectangle has a flat index inside the map.
pub proof fn lemma_index_of_bounds(rect: RectI, c: Vector2I)
    requires
        rect.wf(),
        rect.contains(c),
    ensures
        0 <= rect.index_of(c) < rect.area(),
{
    lemma_index_in_range(
        c.y - rect.origin_y,
        c.x - rect.origin_x,
        rect.width as int,
        rect.height as int,
    );
}

/// Distinct tiles of the rectangle have distinct flat indices.
pub proof fn lemma_index_of_injective(rect: RectI, a: Vector2I, b: Vector2I)
    requires
        rect.wf(),
        rect.contains(a),
        rect.contains(b),
        a != b,
    ensures
        rect.index_of(a) != rect.index_of(b),
{
    let w = rect.width as int;
    vstd::arithmetic::div_mod::lemma_fundamental_div_mod_converse(
        rect.index_of(a), w, a.y - rect.origin_y, a.x - rect.origin_x);
    vstd::arithmetic::div_mod::lemma_fundamental_div_mod_converse(
        rect.index_of(b), w, b.y - rect.origin_y, b.x - rect.origin_x);
}

proof fn lemma_index_in_range(row: int, col: int, w: int, h: int)
    requires
        0 <= row < h,
        0 <= col < w,
    ensures
        0 <= row * w + col < w * h,
{
    assert(row * w + col < w * h) by (nonlinear_arith)
        requires 0 <= row < h, 0 <= col < w;
    assert(0 <= row * w) by (nonlinear_arith)
        requires 0 <= row, 0 <= w;
}

proof fn lemma_coords_round_trip(i: int, w: int, h: int)
    requires
        0 <= i < w * h,
        0 <= w,
        0 <= h,
    ensures
        w > 0,
        0 <= i % w < w,
        0 <= i / w < h,
        (i / w) * w + i % w == i,
{
    assert(w > 0) by (nonlinear_arith)
        requires 0 <= i < w * h, 0 <= h, 0 <= w;
    vstd::arithmetic::div_mod::lemma_fundamental_div_mod(i, w);
    vstd::arithmetic::div_mod::lemma_mod_pos_bound(i, w);
    assert((i / w) * w == w * (i / w)) by (nonlinear_arith);
    assert(i / w < h) by (nonlinear_arith)
        requires 0 <= i < w * h, w > 0, i == w * (i / w) + i % w, 0 <= i % w < w;
    assert(0 <= i / w) by (nonlinear_arith)
        requires 0 <= i, w > 0;
}

} // verus!
