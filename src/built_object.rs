//! Per-path tiling output: the tile map, the fill list and the alpha tiles.

use crate::fill::{clamp_local, fill_record, pack_fill, FillBatchPrimitive};
use crate::geometry::{
    floor_div, ceil_div, floor_div_exec, min_int, max_int, ceil_div_exec, in_limit, LineSegmentFixed, RectF, RectI,
    Vector2I, TILE_FIXED, tile_rect_in_limit,
};
use crate::tile_map::{lemma_index_of_bounds, lemma_index_of_injective, DenseTileMap};
use vstd::prelude::*;

verus! {

/// The alpha-tile index of a tile that has none yet.
pub const UNALLOCATED: u16 = 0xffff;

/// The largest alpha-tile index handed out; later requests saturate here so
/// that `UNALLOCATED` stays reserved.
pub const MAX_ALPHA_TILE_INDEX: u16 = 0xfffe;

/// Largest magnitude of a coordinate that fill emission accepts.
pub const WIDE_LIMIT: i64 = 0x1000_0000_0000_0000;

pub open spec fn in_wide(v: int) -> bool {
    -WIDE_LIMIT <= v <= WIDE_LIMIT
}

/// The state of one tile of a path.
#[derive(Clone, Copy, Debug, PartialEq, Eq, Structural)]
pub struct TileObjectPrimitive {
    pub tile_x: i16,
    pub tile_y: i16,
    pub alpha_tile_index: u16,
    pub backdrop: i8,
}

impl TileObjectPrimitive {
    pub open spec fn is_solid_spec(self) -> bool {
        self.alpha_tile_index == UNALLOCATED
    }

    /// A tile without an alpha tile is covered uniformly by its backdrop.
    pub fn is_solid(&self) -> (r: bool)
        ensures
            r == self.is_solid_spec(),
    {
        self.alpha_tile_index == UNALLOCATED
    }
}

/// A tile without an alpha tile and with a zero backdrop.
pub open spec fn blank_tile() -> TileObjectPrimitive {
    TileObjectPrimitive { tile_x: 0, tile_y: 0, alpha_tile_index: UNALLOCATED, backdrop: 0 }
}

pub open spec fn blank_tiles(rect: RectI) -> Seq<TileObjectPrimitive> {
    Seq::new(rect.area() as nat, |i: int| blank_tile())
}

/// The index that the allocator hands out when the counter reads `next`.
pub open spec fn allocated_index(next: u16) -> u16 {
    if next < MAX_ALPHA_TILE_INDEX { next } else { MAX_ALPHA_TILE_INDEX }
}

/// The counter after one allocation.
pub open spec fn bumped(next: u16) -> u16 {
    if next < MAX_ALPHA_TILE_INDEX { (next + 1) as u16 } else { next }
}

/// The tile-local fixed-point coordinate of `v` in the tile starting at `tile`.
pub open spec fn local_coord(v: int, tile: int) -> int {
    clamp_local(v - tile * TILE_FIXED)
}

pub open spec fn segment_in_wide(s: LineSegmentFixed) -> bool {
    &&& in_wide(s.from_x as int)
    &&& in_wide(s.from_y as int)
    &&& in_wide(s.to_x as int)
    &&& in_wide(s.to_y as int)
}

/// A fill of `s` in tile `c` is dropped: the tile lies outside the map, or
/// the clamped segment has no horizontal extent.
pub open spec fn fill_is_culled(rect: RectI, s: LineSegmentFixed, c: Vector2I) -> bool {
    ||| !rect.contains(c)
    ||| local_coord(s.from_x as int, c.x as int) == local_coord(s.to_x as int, c.x as int)
}

/// The record for `s` in tile `c` under alpha-tile index `index`.
pub open spec fn fill_in_tile(s: LineSegmentFixed, c: Vector2I, index: u16) -> FillBatchPrimitive {
    fill_record(
        local_coord(s.from_x as int, c.x as int),
        local_coord(s.from_y as int, c.y as int),
        local_coord(s.to_x as int, c.x as int),
        local_coord(s.to_y as int, c.y as int),
        index,
    )
}

/// The index that a tile whose slot holds `slot` ends up with.
pub open spec fn index_for_slot(slot: u16, next: u16) -> u16 {
    if slot != UNALLOCATED { slot } else { allocated_index(next) }
}

pub open spec fn next_for_slot(slot: u16, next: u16) -> u16 {
    if slot != UNALLOCATED { next } else { bumped(next) }
}

/// The tile after it holds `index`.
pub open spec fn with_index(t: TileObjectPrimitive, index: u16) -> TileObjectPrimitive {
    TileObjectPrimitive { alpha_tile_index: index, ..t }
}

/// Tiles keep their coordinates and backdrops, and a tile that holds an
/// alpha-tile index keeps it.
pub open spec fn tiles_kept(before: Seq<TileObjectPrimitive>, after: Seq<TileObjectPrimitive>) -> bool {
    &&& after.len() == before.len()
    &&& forall|k: int| 0 <= k < before.len() ==> {
        &&& (#[trigger] after[k]).backdrop == before[k].backdrop
        &&& after[k].tile_x == before[k].tile_x
        &&& after[k].tile_y == before[k].tile_y
        &&& before[k].alpha_tile_index != UNALLOCATED ==> after[k] == before[k]
    }
}

/// Only tiles of row `y` differ.
pub open spec fn only_row_changed(rect: RectI, y: i32, before: Seq<TileObjectPrimitive>, after: Seq<TileObjectPrimitive>) -> bool {
    forall|c: Vector2I| rect.contains(c) && c.y != y ==> after[#[trigger] rect.index_of(c)] == before[rect.index_of(c)]
}

/// The fill names the alpha tile of some tile of row `y`.
pub open spec fn fill_in_row(obj: BuiltObject, f: FillBatchPrimitive, y: i32) -> bool {
    exists|x: i32| #![auto] obj.tiles.rect.contains(Vector2I { x, y }) && obj.slot(Vector2I { x, y }) == f.alpha_tile_index
}

/// What fill emission changes: the fills, the tiles and the alpha-tile counter.
pub struct FillState {
    pub fills: Seq<FillBatchPrimitive>,
    pub tiles: Seq<TileObjectPrimitive>,
    pub next: u16,
}

pub open spec fn state_of(obj: BuiltObject, next: u16) -> FillState {
    FillState { fills: obj.fills@, tiles: obj.tiles.data@, next }
}

/// The effect of one `add_fill` of `s` in tile `c`.
pub open spec fn add_fill_spec(rect: RectI, st: FillState, s: LineSegmentFixed, c: Vector2I) -> FillState {
    if fill_is_culled(rect, s, c) {
        st
    } else {
        let i = rect.index_of(c);
        let slot = st.tiles[i].alpha_tile_index;
        let index = index_for_slot(slot, st.next);
        FillState {
            fills: st.fills.push(fill_in_tile(s, c, index)),
            tiles: st.tiles.update(i, with_index(st.tiles[i], index)),
            next: next_for_slot(slot, st.next),
        }
    }
}

/// `n` fills of `s` in tile `c`, one after another.
pub open spec fn repeat_fill_spec(rect: RectI, st: FillState, s: LineSegmentFixed, c: Vector2I, n: nat) -> FillState
    decreases n,
{
    if n == 0 {
        st
    } else {
        add_fill_spec(rect, repeat_fill_spec(rect, st, s, c, (n - 1) as nat), s, c)
    }
}

/// The active fills of the span `left..right` on tile `c`'s top edge.
pub open spec fn active_fill_spec(rect: RectI, st: FillState, left: i64, right: i64, winding: i32, c: Vector2I) -> FillState {
    repeat_fill_spec(rect, st, active_segment(left, right, winding, c), c, abs_winding(winding))
}

/// The fill for column `x` and the rest of the segment to its right (in
/// the segment's direction): the part up to the column's right edge, cut
/// at the y that `solve_y_spec` gives.
pub open spec fn split_column(seg: LineSegmentFixed, rest: LineSegmentFixed, x: int) -> (LineSegmentFixed, LineSegmentFixed) {
    let winding = seg.from_x > seg.to_x;
    let right = if winding { seg.from_x } else { seg.to_x };
    let cr = (x + 1) * 4096;
    if cr < right {
        let y = solve_y_spec(rest, cr) as i64;
        let p = cr as i64;
        if !winding {
            (
                LineSegmentFixed { from_x: rest.from_x, from_y: rest.from_y, to_x: p, to_y: y },
                LineSegmentFixed { from_x: p, from_y: y, to_x: rest.to_x, to_y: rest.to_y },
            )
        } else {
            (
                LineSegmentFixed { from_x: p, from_y: y, to_x: rest.to_x, to_y: rest.to_y },
                LineSegmentFixed { from_x: rest.from_x, from_y: rest.from_y, to_x: p, to_y: y },
            )
        }
    } else {
        (rest, rest)
    }
}

/// The fills of columns `x .. end` of the line splitter.
pub open spec fn line_fills_from(
    rect: RectI,
    st: FillState,
    seg: LineSegmentFixed,
    rest: LineSegmentFixed,
    x: int,
    end: int,
    tile_y: i32,
) -> FillState
    decreases end - x,
{
    if x >= end {
        st
    } else {
        let (fill, next_rest) = split_column(seg, rest, x);
        line_fills_from(
            rect,
            add_fill_spec(rect, st, fill, Vector2I { x: x as i32, y: tile_y }),
            seg,
            next_rest,
            x + 1,
            end,
            tile_y,
        )
    }
}

/// The fills of a segment on row `tile_y`: one per column from
/// `floor(left / 4096)` up to `ceil(right / 4096)`.
pub open spec fn line_fills(rect: RectI, st: FillState, seg: LineSegmentFixed, tile_y: i32) -> FillState {
    let left = min_int(seg.from_x as int, seg.to_x as int);
    let right = max_int(seg.from_x as int, seg.to_x as int);
    line_fills_from(rect, st, seg, seg, floor_div(left, 4096), ceil_div(right, 4096), tile_y)
}

/// One per-path packet for the compositor: a tile, its backdrop, its path
/// and paint, and the alpha tile that holds its coverage.
#[derive(Clone, Copy, Debug, PartialEq, Eq, Structural)]
pub struct AlphaTileBatchPrimitive {
    pub tile_x_lo: u8,
    pub tile_y_lo: u8,
    pub tile_hi: u8,
    pub backdrop: i8,
    pub object_index: u16,
    pub paint_id: u16,
    pub alpha_tile_index: u16,
}

/// The output of tiling one path.
pub struct BuiltObject {
    pub bounds: RectF,
    pub fills: Vec<FillBatchPrimitive>,
    pub alpha_tiles: Vec<AlphaTileBatchPrimitive>,
    pub tiles: DenseTileMap<TileObjectPrimitive>,
}

impl BuiltObject {
    pub open spec fn wf(&self) -> bool {
        self.tiles.wf()
    }

    pub open spec fn slot(&self, c: Vector2I) -> u16 {
        self.tiles.data@[self.tiles.rect.index_of(c)].alpha_tile_index
    }

    /// An object covering `bounds` rounded out to whole tiles, every tile
    /// without an alpha tile and with a zero backdrop.
    pub fn new(bounds: RectF) -> (r: BuiltObject)
        requires
            bounds.wf(),
            bounds.tile_bounds_spec().area() <= usize::MAX,
        ensures
            r.wf(),
            r.bounds == bounds,
            r.tiles.rect == bounds.tile_bounds_spec(),
            tile_rect_in_limit(r.tiles.rect),
            r.fills@.len() == 0,
            r.alpha_tiles@.len() == 0,
            r.tiles.data@ == blank_tiles(r.tiles.rect),
            forall|i: int|
                0 <= i < r.tiles.data@.len() ==> r.tiles.data@[i].alpha_tile_index == UNALLOCATED
                    && r.tiles.data@[i].backdrop == 0,
    {
        let tile_rect = bounds.round_out_to_tile_bounds();
        let blank = TileObjectPrimitive { tile_x: 0, tile_y: 0, alpha_tile_index: UNALLOCATED, backdrop: 0 };
        let tiles = DenseTileMap::from_value(tile_rect, blank);
        assert(tiles.data@ =~= blank_tiles(tile_rect));
        BuiltObject { bounds, fills: Vec::new(), alpha_tiles: Vec::new(), tiles }
    }

    pub fn tile_rect(&self) -> (r: RectI)
        ensures
            r == self.tiles.rect,
    {
        self.tiles.rect
    }

    pub fn tile_coords_to_local_index(&self, coords: Vector2I) -> (r: Option<u32>)
        requires
            self.wf(),
            self.tiles.data@.len() <= u32::MAX,
        ensures
            r == (if self.tiles.rect.contains(coords) {
                Some(self.tiles.rect.index_of(coords) as u32)
            } else {
                None
            }),
    {
        proof {
            if self.tiles.rect.contains(coords) {
                lemma_index_of_bounds(self.tiles.rect, coords);
            }
        }
        match self.tiles.coords_to_index(coords) {
            Some(i) => {
                assert(i as int == self.tiles.rect.index_of(coords));
                Some(i as u32)
            },
            None => None,
        }
    }

    pub fn local_tile_index_to_coords(&self, tile_index: u32) -> (r: Vector2I)
        requires
            self.wf(),
            (tile_index as int) < self.tiles.data@.len(),
        ensures
            self.tiles.rect.contains(r),
            self.tiles.rect.index_of(r) == tile_index as int,
    {
        self.tiles.index_to_coords(tile_index as usize)
    }

    /// Returns the tile's alpha-tile index, taking the next one from the
    /// counter when the tile has none yet.
    pub fn get_or_allocate_alpha_tile_index(&mut self, next_alpha_tile_index: &mut u16, tile_coords: Vector2I) -> (r: u16)
        requires
            old(self).wf(),
            old(self).tiles.rect.contains(tile_coords),
        ensures
            final(self).wf(),
            r == index_for_slot(old(self).slot(tile_coords), *old(next_alpha_tile_index)),
            r != UNALLOCATED,
            *final(next_alpha_tile_index) == next_for_slot(old(self).slot(tile_coords), *old(next_alpha_tile_index)),
            final(self).tiles.rect == old(self).tiles.rect,
            final(self).tiles.data@ == old(self).tiles.data@.update(
                old(self).tiles.rect.index_of(tile_coords),
                with_index(old(self).tiles.data@[old(self).tiles.rect.index_of(tile_coords)], r),
            ),
            final(self).fills@ == old(self).fills@,
            final(self).alpha_tiles@ == old(self).alpha_tiles@,
            final(self).bounds == old(self).bounds,
    {
        let local_tile_index = self.tiles.coords_to_index_unchecked(tile_coords);
        let mut tile = self.tiles.data[local_tile_index];
        if tile.alpha_tile_index != UNALLOCATED {
            proof {
                assert(with_index(tile, tile.alpha_tile_index) == tile);
                assert(self.tiles.data@.update(local_tile_index as int, tile) =~= self.tiles.data@);
            }
            return tile.alpha_tile_index;
        }
        let n = *next_alpha_tile_index;
        let alpha_tile_index = if n < MAX_ALPHA_TILE_INDEX { n } else { MAX_ALPHA_TILE_INDEX };
        if n < MAX_ALPHA_TILE_INDEX {
            *next_alpha_tile_index = n + 1;
        }
        tile.alpha_tile_index = alpha_tile_index;
        self.tiles.data.set(local_tile_index, tile);
        alpha_tile_index
    }

    /// Emits the fill record of `segment` (scene fixed point) inside the
    /// tile at `tile_coords`, allocating the tile's alpha tile if needed.
    pub fn add_fill(&mut self, next_alpha_tile_index: &mut u16, segment: LineSegmentFixed, tile_coords: Vector2I)
        requires
            old(self).wf(),
            segment_in_wide(segment),
        ensures
            final(self).wf(),
            final(self).bounds == old(self).bounds,
            final(self).alpha_tiles@ == old(self).alpha_tiles@,
            final(self).tiles.rect == old(self).tiles.rect,
            state_of(*final(self), *final(next_alpha_tile_index)) == add_fill_spec(
                old(self).tiles.rect,
                state_of(*old(self), *old(next_alpha_tile_index)),
                segment,
                tile_coords,
            ),
            fill_is_culled(old(self).tiles.rect, segment, tile_coords) ==> {
                &&& final(self).fills@ == old(self).fills@
                &&& final(self).tiles.data@ == old(self).tiles.data@
                &&& *final(next_alpha_tile_index) == *old(next_alpha_tile_index)
            },
            !fill_is_culled(old(self).tiles.rect, segment, tile_coords) ==> {
                let i = old(self).tiles.rect.index_of(tile_coords);
                let slot = old(self).slot(tile_coords);
                let index = index_for_slot(slot, *old(next_alpha_tile_index));
                &&& final(self).fills@ == old(self).fills@.push(fill_in_tile(segment, tile_coords, index))
                &&& final(self).tiles.data@ == old(self).tiles.data@.update(i, with_index(old(self).tiles.data@[i], index))
                &&& *final(next_alpha_tile_index) == next_for_slot(slot, *old(next_alpha_tile_index))
            },
    {
        if !self.tiles.rect.contains_point(tile_coords) {
            return;
        }
        let origin_x = tile_coords.x as i64 * TILE_FIXED;
        let origin_y = tile_coords.y as i64 * TILE_FIXED;
        let from_x = clamp_to_tile(segment.from_x - origin_x);
        let from_y = clamp_to_tile(segment.from_y - origin_y);
        let to_x = clamp_to_tile(segment.to_x - origin_x);
        let to_y = clamp_to_tile(segment.to_y - origin_y);
        if from_x == to_x {
            return;
        }
        let alpha_tile_index = self.get_or_allocate_alpha_tile_index(next_alpha_tile_index, tile_coords);
        let fill = pack_fill(from_x, from_y, to_x, to_y, alpha_tile_index);
        self.fills.push(fill);
    }

    /// Emits `|winding|` copies of the horizontal segment from `left` to
    /// `right` along the top edge of the tile, oriented left to right for a
    /// negative winding and right to left otherwise.
    pub fn add_active_fill(
        &mut self,
        next_alpha_tile_index: &mut u16,
        left: i64,
        right: i64,
        winding: i32,
        tile_coords: Vector2I,
    )
        requires
            old(self).wf(),
            in_limit(left as int),
            in_limit(right as int),
        ensures
            final(self).wf(),
            final(self).bounds == old(self).bounds,
            final(self).alpha_tiles@ == old(self).alpha_tiles@,
            final(self).tiles.rect == old(self).tiles.rect,
            state_of(*final(self), *final(next_alpha_tile_index)) == active_fill_spec(
                old(self).tiles.rect,
                state_of(*old(self), *old(next_alpha_tile_index)),
                left,
                right,
                winding,
                tile_coords,
            ),
            ({
                let s = active_segment(left, right, winding, tile_coords);
                if winding == 0 || fill_is_culled(old(self).tiles.rect, s, tile_coords) {
                    &&& final(self).fills@ == old(self).fills@
                    &&& final(self).tiles.data@ == old(self).tiles.data@
                    &&& *final(next_alpha_tile_index) == *old(next_alpha_tile_index)
                } else {
                    let i = old(self).tiles.rect.index_of(tile_coords);
                    let slot = old(self).slot(tile_coords);
                    let index = index_for_slot(slot, *old(next_alpha_tile_index));
                    &&& final(self).fills@ == old(self).fills@ + Seq::new(
                        abs_winding(winding),
                        |k: int| fill_in_tile(s, tile_coords, index),
                    )
                    &&& final(self).tiles.data@ == old(self).tiles.data@.update(
                        i,
                        with_index(old(self).tiles.data@[i], index),
                    )
                    &&& *final(next_alpha_tile_index) == next_for_slot(slot, *old(next_alpha_tile_index))
                }
            }),
    {
        let tile_origin_y = tile_coords.y as i64 * TILE_FIXED;
        let segment = if winding < 0 {
            LineSegmentFixed { from_x: left, from_y: tile_origin_y, to_x: right, to_y: tile_origin_y }
        } else {
            LineSegmentFixed { from_x: right, from_y: tile_origin_y, to_x: left, to_y: tile_origin_y }
        };
        let ghost s = active_segment(left, right, winding, tile_coords);
        assert(segment == s);
        let ghost old_self = *self;
        let ghost old_next = *next_alpha_tile_index;
        let ghost culled = fill_is_culled(old_self.tiles.rect, s, tile_coords);
        let ghost i = old_self.tiles.rect.index_of(tile_coords);
        let ghost index = if culled { 0u16 } else { index_for_slot(old_self.slot(tile_coords), old_next) };
        proof {
            if !culled {
                lemma_index_of_bounds(old_self.tiles.rect, tile_coords);
            }
        }
        let mut remaining = winding;
        let mut emitted: usize = 0;
        while remaining != 0
            invariant
                self.wf(),
                self.bounds == old_self.bounds,
                self.alpha_tiles@ == old_self.alpha_tiles@,
                self.tiles.rect == old_self.tiles.rect,
                old_self.wf(),
                i == old_self.tiles.rect.index_of(tile_coords),
                s == active_segment(left, right, winding, tile_coords),
                state_of(*self, *next_alpha_tile_index) == repeat_fill_spec(
                    old_self.tiles.rect, state_of(old_self, old_next), s, tile_coords, emitted as nat),
                segment == s,
                segment_in_wide(s),
                culled == fill_is_culled(old_self.tiles.rect, s, tile_coords),
                !culled ==> 0 <= i < old_self.tiles.data@.len(),
                !culled ==> index == index_for_slot(old_self.slot(tile_coords), old_next),
                emitted as int + abs_winding(remaining) == abs_winding(winding),
                (winding < 0 ==> remaining <= 0),
                (winding >= 0 ==> remaining >= 0),
                culled || emitted == 0 ==> {
                    &&& self.fills@ == old_self.fills@
                    &&& self.tiles.data@ == old_self.tiles.data@
                    &&& *next_alpha_tile_index == old_next
                },
                !culled && emitted > 0 ==> {
                    &&& self.fills@ == old_self.fills@ + Seq::new(emitted as nat, |k: int| fill_in_tile(s, tile_coords, index))
                    &&& self.tiles.data@ == old_self.tiles.data@.update(i, with_index(old_self.tiles.data@[i], index))
                    &&& *next_alpha_tile_index == next_for_slot(old_self.slot(tile_coords), old_next)
                },
            decreases abs_winding(remaining),
        {
            let ghost before = *self;
            self.add_fill(next_alpha_tile_index, segment, tile_coords);
            proof {
                if !culled {
                    if emitted > 0 {
                        assert(before.tiles.rect.index_of(tile_coords) == i);
                        assert(before.tiles.data@[i] == with_index(old_self.tiles.data@[i], index));
                        assert(before.tiles.data@[i].alpha_tile_index == index);
                        assert(before.slot(tile_coords) == index);
                    }
                    assert(self.fills@ =~= old_self.fills@ + Seq::new((emitted + 1) as nat, |k: int| fill_in_tile(s, tile_coords, index)));
                    if emitted > 0 {
                        assert(self.tiles.data@ =~= old_self.tiles.data@.update(i, with_index(old_self.tiles.data@[i], index)));
                    }
                }
            }
            if remaining < 0 {
                remaining = remaining + 1;
            } else {
                remaining = remaining - 1;
            }
            emitted = emitted + 1;
        }
        proof {
            if !culled && winding != 0 {
                assert(emitted > 0);
            }
            if winding == 0 {
                assert(emitted == 0);
            }
        }
    }
}

impl BuiltObject {
    /// Splits a segment lying on tile row `tile_y` at tile column
    /// boundaries and emits one fill per column, keeping its direction.
    pub fn generate_fill_primitives_for_line(
        &mut self,
        next_alpha_tile_index: &mut u16,
        segment: LineSegmentFixed,
        tile_y: i32,
    )
        requires
            old(self).wf(),
            segment.wf(),
        ensures
            final(self).wf(),
            final(self).bounds == old(self).bounds,
            final(self).alpha_tiles@ == old(self).alpha_tiles@,
            final(self).tiles.rect == old(self).tiles.rect,
            final(self).fills@.len() >= old(self).fills@.len(),
            forall|j: int| 0 <= j < old(self).fills@.len() ==> final(self).fills@[j] == old(self).fills@[j],
            tiles_kept(old(self).tiles.data@, final(self).tiles.data@),
            only_row_changed(old(self).tiles.rect, tile_y, old(self).tiles.data@, final(self).tiles.data@),
            forall|j: int|
                old(self).fills@.len() <= j < final(self).fills@.len() ==> fill_in_row(*final(self), #[trigger] final(self).fills@[j], tile_y),
            state_of(*final(self), *final(next_alpha_tile_index)) == line_fills(
                old(self).tiles.rect,
                state_of(*old(self), *old(next_alpha_tile_index)),
                segment,
                tile_y,
            ),
            segment.from_x == segment.to_x ==> {
                &&& final(self).fills@ == old(self).fills@
                &&& final(self).tiles.data@ == old(self).tiles.data@
                &&& *final(next_alpha_tile_index) == *old(next_alpha_tile_index)
            },
    {
        let winding = segment.from_x > segment.to_x;
        let (segment_left, segment_right) = if !winding {
            (segment.from_x, segment.to_x)
        } else {
            (segment.to_x, segment.from_x)
        };
        let tile_left = floor_div_exec(segment_left, TILE_FIXED);
        let tile_right = ceil_div_exec(segment_right, TILE_FIXED);
        proof {
            assert(segment_left < (segment_left as int / 4096 + 1) * 4096) by (nonlinear_arith);
            assert(-0x1000_0000 <= segment_left as int / 4096 <= 0x1000_0000) by (nonlinear_arith)
                requires in_limit(segment_left as int);
            assert(-0x1000_0000 <= -((-segment_right as int) / 4096) <= 0x1000_0000) by (nonlinear_arith)
                requires in_limit(segment_right as int);
        }
        let ghost old_self = *self;
        let ghost old_next = *next_alpha_tile_index;
        let mut rest = segment;
        let mut x = tile_left;
        while x < tile_right
            invariant
                self.wf(),
                self.bounds == old_self.bounds,
                self.alpha_tiles@ == old_self.alpha_tiles@,
                self.tiles.rect == old_self.tiles.rect,
                self.fills@.len() >= old_self.fills@.len(),
                forall|j: int| 0 <= j < old_self.fills@.len() ==> self.fills@[j] == old_self.fills@[j],
                old_self.wf(),
                tiles_kept(old_self.tiles.data@, self.tiles.data@),
                only_row_changed(old_self.tiles.rect, tile_y, old_self.tiles.data@, self.tiles.data@),
                forall|j: int| old_self.fills@.len() <= j < self.fills@.len() ==> fill_in_row(*self, #[trigger] self.fills@[j], tile_y),
                forall|j: int| old_self.fills@.len() <= j < self.fills@.len() ==> (#[trigger] self.fills@[j]).alpha_tile_index != UNALLOCATED,
                rest.wf(),
                segment_left <= segment_right,
                in_limit(segment_left as int),
                in_limit(segment_right as int),
                tile_left == floor_div(segment_left as int, 4096),
                tile_right == ceil_div(segment_right as int, 4096),
                line_fills(old_self.tiles.rect, state_of(old_self, old_next), segment, tile_y)
                    == line_fills_from(old_self.tiles.rect, state_of(*self, *next_alpha_tile_index), segment, rest,
                        x as int, tile_right as int, tile_y),
                segment_left < (tile_left + 1) * 4096,
                tile_left <= x,
                -0x1000_0000 <= tile_left,
                tile_right <= 0x1000_0000,
                winding == (segment.from_x > segment.to_x),
                segment_left == (if winding { segment.to_x } else { segment.from_x }),
                segment_right == (if winding { segment.from_x } else { segment.to_x }),
                segment.from_x == segment.to_x ==> {
                    &&& self.fills@ == old_self.fills@
                    &&& self.tiles.data@ == old_self.tiles.data@
                    &&& *next_alpha_tile_index == old_next
                    &&& rest == segment
                },
            decreases tile_right - x,
        {
            let mut fill = rest;
            let column_right = (x + 1) * TILE_FIXED;
            assert(column_right >= (tile_left + 1) * 4096) by (nonlinear_arith)
                requires column_right == (x + 1) * 4096, tile_left <= x;
            if column_right < segment_right {
                let y = solve_y_for_x(&rest, column_right);
                if !winding {
                    fill = LineSegmentFixed { from_x: rest.from_x, from_y: rest.from_y, to_x: column_right, to_y: y };
                    rest = LineSegmentFixed { from_x: column_right, from_y: y, to_x: rest.to_x, to_y: rest.to_y };
                } else {
                    fill = LineSegmentFixed { from_x: column_right, from_y: y, to_x: rest.to_x, to_y: rest.to_y };
                    rest = LineSegmentFixed { from_x: rest.from_x, from_y: rest.from_y, to_x: column_right, to_y: y };
                }
            }
            assert(segment.from_x == segment.to_x ==> fill == segment);
            let c = Vector2I { x: x as i32, y: tile_y };
            let ghost before = *self;
            let ghost before_next = *next_alpha_tile_index;
            self.add_fill(next_alpha_tile_index, fill, c);
            proof {
                lemma_fill_step(old_self, before, *self, before_next, fill, c, tile_y);
            }
            x = x + 1;
        }
    }
}

/// Division rounding toward zero.
pub open spec fn trunc_div(a: int, b: int) -> int {
    let q = (if a >= 0 { a } else { -a }) / (if b >= 0 { b } else { -b });
    if (a >= 0) == (b > 0) { q } else { -q }
}

/// The y coordinate where the segment meets the vertical line at `x`: the
/// linear interpolation rounded toward the segment's start, kept between
/// its end points; the start's y for a vertical segment.
pub open spec fn solve_y_spec(s: LineSegmentFixed, x: int) -> int {
    let lo = min_int(s.from_y as int, s.to_y as int);
    let hi = max_int(s.from_y as int, s.to_y as int);
    if s.to_x == s.from_x {
        s.from_y as int
    } else {
        let offset = trunc_div((x - s.from_x) * (s.to_y - s.from_y), s.to_x - s.from_x);
        if offset < lo - s.from_y {
            lo
        } else if offset > hi - s.from_y {
            hi
        } else {
            s.from_y + offset
        }
    }
}

pub fn solve_y_for_x(s: &LineSegmentFixed, x: i64) -> (r: i64)
    requires
        s.wf(),
        in_limit(x as int),
    ensures
        r == solve_y_spec(*s, x as int),
        min_int(s.from_y as int, s.to_y as int) <= r <= max_int(s.from_y as int, s.to_y as int),
{
    let dx = s.to_x - s.from_x;
    let dy = s.to_y - s.from_y;
    let (lo, hi) = if s.from_y <= s.to_y { (s.from_y, s.to_y) } else { (s.to_y, s.from_y) };
    if dx == 0 {
        return s.from_y;
    }
    let ex = (x - s.from_x) as i128;
    proof {
        assert(-0x400_0000_0000_0000_0000_0000 <= ex * dy <= 0x400_0000_0000_0000_0000_0000) by (nonlinear_arith)
            requires
                -0x200_0000_0000 <= ex <= 0x200_0000_0000,
                -0x200_0000_0000 <= dy <= 0x200_0000_0000,
        ;
    }
    let product = ex * dy as i128;
    let abs_product: u128 = if product >= 0 { product as u128 } else { (-product) as u128 };
    let abs_dx: u128 = if dx >= 0 { dx as u128 } else { (-dx) as u128 };
    let q = abs_product / abs_dx;
    proof {
        assert(q <= abs_product) by (nonlinear_arith)
            requires q == abs_product / abs_dx, abs_dx > 0;
    }
    let offset: i128 = if (product >= 0) == (dx > 0) { q as i128 } else { -(q as i128) };
    let y = if offset < (lo - s.from_y) as i128 {
        lo
    } else if offset > (hi - s.from_y) as i128 {
        hi
    } else {
        s.from_y + offset as i64
    };
    y
}

impl BuiltObject {
    /// Sets the backdrop winding of a tile inside the map.
    pub fn set_backdrop(&mut self, tile_coords: Vector2I, backdrop: i8)
        requires
            old(self).wf(),
            old(self).tiles.rect.contains(tile_coords),
        ensures
            final(self).wf(),
            final(self).bounds == old(self).bounds,
            final(self).fills@ == old(self).fills@,
            final(self).alpha_tiles@ == old(self).alpha_tiles@,
            final(self).tiles.rect == old(self).tiles.rect,
            final(self).tiles.data@ == old(self).tiles.data@.update(
                old(self).tiles.rect.index_of(tile_coords),
                TileObjectPrimitive { backdrop, ..old(self).tiles.data@[old(self).tiles.rect.index_of(tile_coords)] },
            ),
    {
        let i = self.tiles.coords_to_index_unchecked(tile_coords);
        let mut tile = self.tiles.data[i];
        tile.backdrop = backdrop;
        self.tiles.data.set(i, tile);
    }
}

/// One `add_fill` on row `y` keeps what the splitting loop maintains.
proof fn lemma_fill_step(
    start: BuiltObject,
    before: BuiltObject,
    after: BuiltObject,
    next: u16,
    s: LineSegmentFixed,
    c: Vector2I,
    y: i32,
)
    requires
        start.wf(),
        before.wf(),
        before.tiles.rect == start.tiles.rect,
        c.y == y,
        before.fills@.len() >= start.fills@.len(),
        tiles_kept(start.tiles.data@, before.tiles.data@),
        only_row_changed(start.tiles.rect, y, start.tiles.data@, before.tiles.data@),
        forall|j: int| start.fills@.len() <= j < before.fills@.len() ==> fill_in_row(before, #[trigger] before.fills@[j], y),
        forall|j: int| start.fills@.len() <= j < before.fills@.len() ==> (#[trigger] before.fills@[j]).alpha_tile_index != UNALLOCATED,
        after.tiles.rect == before.tiles.rect,
        fill_is_culled(before.tiles.rect, s, c) ==> after.fills@ == before.fills@ && after.tiles.data@ == before.tiles.data@,
        !fill_is_culled(before.tiles.rect, s, c) ==> {
            let i = before.tiles.rect.index_of(c);
            let index = index_for_slot(before.slot(c), next);
            &&& after.fills@ == before.fills@.push(fill_in_tile(s, c, index))
            &&& after.tiles.data@ == before.tiles.data@.update(i, with_index(before.tiles.data@[i], index))
        },
    ensures
        after.fills@.len() >= start.fills@.len(),
        tiles_kept(start.tiles.data@, after.tiles.data@),
        only_row_changed(start.tiles.rect, y, start.tiles.data@, after.tiles.data@),
        forall|j: int| start.fills@.len() <= j < after.fills@.len() ==> fill_in_row(after, #[trigger] after.fills@[j], y),
        forall|j: int| start.fills@.len() <= j < after.fills@.len() ==> (#[trigger] after.fills@[j]).alpha_tile_index != UNALLOCATED,
{
    if !fill_is_culled(before.tiles.rect, s, c) {
        let rect = before.tiles.rect;
        let i = rect.index_of(c);
        let index = index_for_slot(before.slot(c), next);
        lemma_index_of_bounds(rect, c);
        assert(after.slot(c) == index);
        assert forall|k: int| 0 <= k < start.tiles.data@.len() implies {
            &&& (#[trigger] after.tiles.data@[k]).backdrop == start.tiles.data@[k].backdrop
            &&& after.tiles.data@[k].tile_x == start.tiles.data@[k].tile_x
            &&& after.tiles.data@[k].tile_y == start.tiles.data@[k].tile_y
            &&& start.tiles.data@[k].alpha_tile_index != UNALLOCATED ==> after.tiles.data@[k] == start.tiles.data@[k]
        } by {
            assert(before.tiles.data@[k].backdrop == start.tiles.data@[k].backdrop);
            if k == i && start.tiles.data@[k].alpha_tile_index != UNALLOCATED {
                assert(before.tiles.data@[k] == start.tiles.data@[k]);
            }
        }
        assert forall|d: Vector2I| rect.contains(d) && d.y != y implies
            after.tiles.data@[#[trigger] rect.index_of(d)] == start.tiles.data@[rect.index_of(d)] by {
            lemma_index_of_injective(rect, c, d);
            lemma_index_of_bounds(rect, d);
            assert(before.tiles.data@[rect.index_of(d)] == start.tiles.data@[rect.index_of(d)]);
        }
        assert forall|j: int| start.fills@.len() <= j < after.fills@.len() implies fill_in_row(after, #[trigger] after.fills@[j], y) by {
            if j < before.fills@.len() {
                assert(after.fills@[j] == before.fills@[j]);
                assert(fill_in_row(before, before.fills@[j], y));
                let x = choose|x: i32| #![auto] before.tiles.rect.contains(Vector2I { x, y }) && before.slot(Vector2I { x, y }) == before.fills@[j].alpha_tile_index;
                let d = Vector2I { x, y };
                lemma_index_of_bounds(rect, d);
                assert(before.slot(d) != UNALLOCATED);
                if d != c {
                    lemma_index_of_injective(rect, c, d);
                }
                assert(after.slot(d) == after.fills@[j].alpha_tile_index);
            } else {
                assert(after.fills@[j].alpha_tile_index == index);
                assert(after.tiles.rect.contains(Vector2I { x: c.x, y }));
                assert(Vector2I { x: c.x, y } == c);
            }
        }
        assert forall|j: int| start.fills@.len() <= j < after.fills@.len() implies (#[trigger] after.fills@[j]).alpha_tile_index != UNALLOCATED by {
            if j < before.fills@.len() {
                assert(after.fills@[j] == before.fills@[j]);
            }
        }
    } else {
        assert forall|j: int| start.fills@.len() <= j < after.fills@.len() implies fill_in_row(after, #[trigger] after.fills@[j], y) by {
            assert(fill_in_row(before, before.fills@[j], y));
            let x = choose|x: i32| #![auto] before.tiles.rect.contains(Vector2I { x, y }) && before.slot(Vector2I { x, y }) == before.fills@[j].alpha_tile_index;
            assert(after.slot(Vector2I { x, y }) == before.slot(Vector2I { x, y }));
        }
    }
}

/// An active fill of a tile inside the map, with a non-zero winding and a
/// span of some width, appends exactly `|winding|` records of the span,
/// oriented left to right for a negative winding and right to left
/// otherwise, all naming the tile's alpha tile; backdrops stay.
pub proof fn lemma_active_fill_records(rect: RectI, st: FillState, left: i64, right: i64, winding: i32, c: Vector2I)
    requires
        rect.wf(),
        st.tiles.len() == rect.area(),
        winding != 0,
        !fill_is_culled(rect, active_segment(left, right, winding, c), c),
    ensures
        ({
            let s = active_segment(left, right, winding, c);
            let index = index_for_slot(st.tiles[rect.index_of(c)].alpha_tile_index, st.next);
            &&& active_fill_spec(rect, st, left, right, winding, c).fills
                == st.fills + Seq::new(abs_winding(winding), |k: int| fill_in_tile(s, c, index))
            &&& (winding < 0 ==> s.from_x == left && s.to_x == right)
            &&& (winding > 0 ==> s.from_x == right && s.to_x == left)
        }),
{
    let s = active_segment(left, right, winding, c);
    lemma_repeat_fill(rect, st, s, c, abs_winding(winding));
}

proof fn lemma_repeat_fill(rect: RectI, st: FillState, s: LineSegmentFixed, c: Vector2I, n: nat)
    requires
        rect.wf(),
        st.tiles.len() == rect.area(),
        !fill_is_culled(rect, s, c),
        n >= 1,
    ensures
        ({
            let i = rect.index_of(c);
            let index = index_for_slot(st.tiles[i].alpha_tile_index, st.next);
            &&& repeat_fill_spec(rect, st, s, c, n).fills == st.fills + Seq::new(n, |k: int| fill_in_tile(s, c, index))
            &&& repeat_fill_spec(rect, st, s, c, n).tiles.len() == st.tiles.len()
            &&& repeat_fill_spec(rect, st, s, c, n).tiles[i].alpha_tile_index == index
        }),
    decreases n,
{
    let i = rect.index_of(c);
    lemma_index_of_bounds(rect, c);
    let index = index_for_slot(st.tiles[i].alpha_tile_index, st.next);
    if n == 1 {
        assert(repeat_fill_spec(rect, st, s, c, 0) == st);
        assert(repeat_fill_spec(rect, st, s, c, 1).fills =~= st.fills + Seq::new(1, |k: int| fill_in_tile(s, c, index)));
    } else {
        lemma_repeat_fill(rect, st, s, c, (n - 1) as nat);
        let prev = repeat_fill_spec(rect, st, s, c, (n - 1) as nat);
        assert(index_for_slot(prev.tiles[i].alpha_tile_index, prev.next) == index);
        assert(repeat_fill_spec(rect, st, s, c, n).fills =~= st.fills + Seq::new(n, |k: int| fill_in_tile(s, c, index)));
    }
}

/// Fills never change a tile's backdrop.
pub proof fn lemma_repeat_fill_keeps_backdrops(rect: RectI, st: FillState, s: LineSegmentFixed, c: Vector2I, n: nat)
    requires
        rect.wf(),
        st.tiles.len() == rect.area(),
    ensures
        repeat_fill_spec(rect, st, s, c, n).tiles.len() == st.tiles.len(),
        forall|k: int| 0 <= k < st.tiles.len() ==>
            (#[trigger] repeat_fill_spec(rect, st, s, c, n).tiles[k]).backdrop == st.tiles[k].backdrop,
    decreases n,
{
    if n > 0 {
        lemma_repeat_fill_keeps_backdrops(rect, st, s, c, (n - 1) as nat);
        if rect.contains(c) {
            lemma_index_of_bounds(rect, c);
        }
    }
}

/// The number of active-fill copies for a winding number.
pub open spec fn abs_winding(w: i32) -> nat {
    if w < 0 { (-w) as nat } else { w as nat }
}

/// The horizontal segment that an active fill emits along the tile's top edge.
pub open spec fn active_segment(left: i64, right: i64, winding: i32, c: Vector2I) -> LineSegmentFixed {
    let y = (c.y * TILE_FIXED) as i64;
    if winding < 0 {
        LineSegmentFixed { from_x: left, from_y: y, to_x: right, to_y: y }
    } else {
        LineSegmentFixed { from_x: right, from_y: y, to_x: left, to_y: y }
    }
}

/// Clamps a tile-local coordinate into the tile.
fn clamp_to_tile(v: i64) -> (r: i64)
    ensures
        r == clamp_local(v as int),
{
    if v < 0 {
        0
    } else if v > 4095 {
        4095
    } else {
        v
    }
}

} // verus!
