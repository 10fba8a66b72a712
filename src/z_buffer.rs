//! The tile-grid Z-buffer: the highest opaque path that fully covers each
//! tile, used to cull hidden alpha tiles and to emit solid tiles.

use crate::built_object::{AlphaTileBatchPrimitive, BuiltObject, TileObjectPrimitive, UNALLOCATED};
use crate::geometry::{RectF, RectI, Vector2I};
use crate::tile_map::{lemma_index_of_bounds, DenseTileMap};
use vstd::prelude::*;

verus! {

/// A tile fully covered by an opaque path.
#[derive(Clone, Copy, Debug, PartialEq, Eq, Structural)]
pub struct SolidTileBatchPrimitive {
    pub tile_x: i16,
    pub tile_y: i16,
    pub paint_id: u16,
}

/// Each cell holds one more than the index of the highest opaque path that
/// covers it, or zero.
pub struct ZBuffer {
    pub buffer: DenseTileMap<u32>,
}

/// The rectangle fits the 16-bit tile coordinates of solid tiles.
pub open spec fn fits_i16(r: RectI) -> bool {
    &&& -0x8000 <= r.origin_x
    &&& -0x8000 <= r.origin_y
    &&& r.origin_x + r.width <= 0x8000
    &&& r.origin_y + r.height <= 0x8000
}

/// The solid tile for cell `i` holding `depth`.
pub open spec fn solid_tile_at(rect: RectI, i: int, depth: u32, paint_ids: Seq<u16>) -> SolidTileBatchPrimitive {
    SolidTileBatchPrimitive {
        tile_x: rect.coords_at(i).x as i16,
        tile_y: rect.coords_at(i).y as i16,
        paint_id: paint_ids[depth - 1],
    }
}

/// The solid tiles of the first `n` cells, in cell order.
pub open spec fn solid_tiles_upto(rect: RectI, cells: Seq<u32>, paint_ids: Seq<u16>, n: nat) -> Seq<SolidTileBatchPrimitive>
    decreases n,
{
    if n == 0 {
        Seq::empty()
    } else {
        let prev = solid_tiles_upto(rect, cells, paint_ids, (n - 1) as nat);
        if cells[n - 1] != 0 {
            prev.push(solid_tile_at(rect, n - 1, cells[n - 1], paint_ids))
        } else {
            prev
        }
    }
}

/// Cells that no opaque path covers give no solid tiles.
pub proof fn lemma_empty_cells_no_solid(rect: RectI, cells: Seq<u32>, paint_ids: Seq<u16>, n: nat)
    requires
        n <= cells.len(),
        forall|k: int| 0 <= k < cells.len() ==> cells[k] == 0,
    ensures
        solid_tiles_upto(rect, cells, paint_ids, n).len() == 0,
    decreases n,
{
    if n > 0 {
        lemma_empty_cells_no_solid(rect, cells, paint_ids, (n - 1) as nat);
    }
}

impl ZBuffer {
    pub open spec fn wf(&self) -> bool {
        self.buffer.wf()
    }

    pub open spec fn depth(&self, c: Vector2I) -> u32 {
        self.buffer.data@[self.buffer.rect.index_of(c)]
    }

    /// Whether a strictly later opaque path covers tile `c`.
    pub open spec fn occludes(&self, c: Vector2I, object_index: u16) -> bool {
        &&& self.buffer.rect.contains(c)
        &&& self.depth(c) > object_index + 1
    }

    /// An empty Z-buffer over the tiles of the view box.
    pub fn new(view_box: RectF) -> (r: ZBuffer)
        requires
            view_box.wf(),
            view_box.tile_bounds_spec().area() <= usize::MAX,
        ensures
            r.wf(),
            r.buffer.rect == view_box.tile_bounds_spec(),
            forall|i: int| 0 <= i < r.buffer.data@.len() ==> r.buffer.data@[i] == 0,
    {
        let rect = view_box.round_out_to_tile_bounds();
        ZBuffer { buffer: DenseTileMap::from_value(rect, 0u32) }
    }

    /// Records that path `object_index`, opaque, fully covers tile `c`.
    pub fn update(&mut self, c: Vector2I, object_index: u16)
        requires
            old(self).wf(),
            old(self).buffer.rect.contains(c),
        ensures
            final(self).wf(),
            final(self).buffer.rect == old(self).buffer.rect,
            final(self).buffer.data@ == old(self).buffer.data@.update(
                old(self).buffer.rect.index_of(c),
                if old(self).depth(c) >= object_index + 1 { old(self).depth(c) } else { (object_index + 1) as u32 },
            ),
    {
        let i = self.buffer.coords_to_index_unchecked(c);
        let depth = object_index as u32 + 1;
        if self.buffer.data[i] < depth {
            self.buffer.data.set(i, depth);
        } else {
            proof {
                assert(self.buffer.data@.update(i as int, self.buffer.data@[i as int]) =~= self.buffer.data@);
            }
        }
    }

    /// Whether a strictly later opaque path hides tile `c` of path `object_index`.
    pub fn test(&self, c: Vector2I, object_index: u16) -> (r: bool)
        requires
            self.wf(),
        ensures
            r == self.occludes(c, object_index),
    {
        proof {
            if self.buffer.rect.contains(c) {
                lemma_index_of_bounds(self.buffer.rect, c);
            }
        }
        let found = self.buffer.coords_to_index(c);
        match found {
            Some(i) => {
                assert(self.buffer.data@[i as int] == self.depth(c));
                self.buffer.data[i] > object_index as u32 + 1
            },
            None => false,
        }
    }

    /// One solid tile per covered cell, in cell order, carrying the paint
    /// of the path that covers it.
    pub fn build_solid_tiles(&self, paint_ids: &Vec<u16>) -> (r: Vec<SolidTileBatchPrimitive>)
        requires
            self.wf(),
            fits_i16(self.buffer.rect),
            forall|i: int|
                0 <= i < self.buffer.data@.len() ==> self.buffer.data@[i] <= paint_ids@.len(),
        ensures
            r@ == solid_tiles_upto(self.buffer.rect, self.buffer.data@, paint_ids@, self.buffer.data@.len()),
    {
        let mut solid_tiles: Vec<SolidTileBatchPrimitive> = Vec::new();
        let n = self.buffer.data.len();
        let mut i: usize = 0;
        while i < n
            invariant
                self.wf(),
                fits_i16(self.buffer.rect),
                n == self.buffer.data@.len(),
                i <= n,
                forall|k: int| 0 <= k < self.buffer.data@.len() ==> self.buffer.data@[k] <= paint_ids@.len(),
                solid_tiles@ == solid_tiles_upto(self.buffer.rect, self.buffer.data@, paint_ids@, i as nat),
            decreases n - i,
        {
            let depth = self.buffer.data[i];
            if depth != 0 {
                let c = self.buffer.index_to_coords(i);
                let paint_id = paint_ids[(depth - 1) as usize];
                solid_tiles.push(SolidTileBatchPrimitive { tile_x: c.x as i16, tile_y: c.y as i16, paint_id });
            }
            i = i + 1;
        }
        solid_tiles
    }
}

/// The sentinel coordinate byte of a culled alpha tile.
pub const CULLED: u8 = 0xff;

/// Tile coordinates that alpha tiles can carry: twelve bits each.
pub open spec fn packable(c: Vector2I) -> bool {
    0 <= c.x < 4096 && 0 <= c.y < 4096
}

pub open spec fn alpha_tile_x(a: AlphaTileBatchPrimitive) -> int {
    a.tile_x_lo as int + (a.tile_hi as int % 16) * 256
}

pub open spec fn alpha_tile_y(a: AlphaTileBatchPrimitive) -> int {
    a.tile_y_lo as int + (a.tile_hi as int / 16) * 256
}

pub open spec fn is_culled(a: AlphaTileBatchPrimitive) -> bool {
    a.tile_x_lo == CULLED && a.tile_y_lo == CULLED && a.tile_hi == CULLED
}

/// The packet for tile `c`.
pub open spec fn alpha_tile_spec(c: Vector2I, backdrop: i8, object_index: u16, paint_id: u16, alpha_tile_index: u16) -> AlphaTileBatchPrimitive {
    AlphaTileBatchPrimitive {
        tile_x_lo: (c.x % 256) as u8,
        tile_y_lo: (c.y % 256) as u8,
        tile_hi: (c.x / 256 + 16 * (c.y / 256)) as u8,
        backdrop,
        object_index,
        paint_id,
        alpha_tile_index,
    }
}

/// A tile is sent as an alpha tile unless it is solid and either empty or
/// recorded in the Z-buffer.
pub open spec fn goes_to_alpha(t: TileObjectPrimitive, object_is_opaque: bool) -> bool {
    !(t.is_solid_spec() && (t.backdrop == 0 || object_is_opaque))
}

/// A tile that an opaque path covers whole.
pub open spec fn goes_to_z_buffer(t: TileObjectPrimitive, object_is_opaque: bool) -> bool {
    t.is_solid_spec() && t.backdrop != 0 && object_is_opaque
}

/// The alpha tiles of the first `n` tiles of a path, in tile order.
pub open spec fn alpha_tiles_upto(
    rect: RectI,
    tiles: Seq<TileObjectPrimitive>,
    object_index: u16,
    paint_id: u16,
    object_is_opaque: bool,
    n: nat,
) -> Seq<AlphaTileBatchPrimitive>
    decreases n,
{
    if n == 0 {
        Seq::empty()
    } else {
        let prev = alpha_tiles_upto(rect, tiles, object_index, paint_id, object_is_opaque, (n - 1) as nat);
        let t = tiles[n - 1];
        if goes_to_alpha(t, object_is_opaque) {
            prev.push(alpha_tile_spec(rect.coords_at(n - 1), t.backdrop, object_index, paint_id, t.alpha_tile_index))
        } else {
            prev
        }
    }
}

/// Cell `k` raised to name path `object_index`, unless it names a later one.
pub open spec fn raised(cells: Seq<u32>, k: int, object_index: u16) -> Seq<u32> {
    cells.update(k, if cells[k] >= object_index + 1 { cells[k] } else { (object_index + 1) as u32 })
}

/// The Z-buffer cells after the first `n` tiles of a path: raised at each
/// tile that goes to the Z-buffer and lies in it, unchanged elsewhere.
pub open spec fn z_after_tiles(
    zrect: RectI,
    cells: Seq<u32>,
    rect: RectI,
    tiles: Seq<TileObjectPrimitive>,
    object_index: u16,
    object_is_opaque: bool,
    n: nat,
) -> Seq<u32>
    decreases n,
{
    if n == 0 {
        cells
    } else {
        let prev = z_after_tiles(zrect, cells, rect, tiles, object_index, object_is_opaque, (n - 1) as nat);
        let c = rect.coords_at(n - 1);
        if goes_to_z_buffer(tiles[n - 1], object_is_opaque) && zrect.contains(c) {
            raised(prev, zrect.index_of(c), object_index)
        } else {
            prev
        }
    }
}

/// A path's tiles only raise cells, and every tile that goes to the
/// Z-buffer leaves its cell naming this path or a later one.
pub proof fn lemma_z_after_tiles(
    zrect: RectI,
    cells: Seq<u32>,
    rect: RectI,
    tiles: Seq<TileObjectPrimitive>,
    object_index: u16,
    object_is_opaque: bool,
    n: nat,
)
    requires
        zrect.wf(),
        cells.len() == zrect.area(),
        n <= tiles.len(),
    ensures
        z_after_tiles(zrect, cells, rect, tiles, object_index, object_is_opaque, n).len() == cells.len(),
        forall|k: int| 0 <= k < cells.len() ==>
            #[trigger] z_after_tiles(zrect, cells, rect, tiles, object_index, object_is_opaque, n)[k] >= cells[k],
        forall|t: int| 0 <= t < n && goes_to_z_buffer(#[trigger] tiles[t], object_is_opaque)
            && zrect.contains(rect.coords_at(t)) ==>
            z_after_tiles(zrect, cells, rect, tiles, object_index, object_is_opaque, n)[zrect.index_of(rect.coords_at(t))]
                >= object_index + 1,
    decreases n,
{
    if n > 0 {
        lemma_z_after_tiles(zrect, cells, rect, tiles, object_index, object_is_opaque, (n - 1) as nat);
        let prev = z_after_tiles(zrect, cells, rect, tiles, object_index, object_is_opaque, (n - 1) as nat);
        let c = rect.coords_at(n - 1);
        if goes_to_z_buffer(tiles[n - 1], object_is_opaque) && zrect.contains(c) {
            lemma_index_of_bounds(zrect, c);
        }
        let r = z_after_tiles(zrect, cells, rect, tiles, object_index, object_is_opaque, n);
        assert forall|t: int| 0 <= t < n && goes_to_z_buffer(#[trigger] tiles[t], object_is_opaque)
            && zrect.contains(rect.coords_at(t)) implies r[zrect.index_of(rect.coords_at(t))] >= object_index + 1 by {
            lemma_index_of_bounds(zrect, rect.coords_at(t));
        }
    }
}

impl AlphaTileBatchPrimitive {
    /// Packs a tile's coordinates twelve bits each: low bytes apart, the
    /// two high nibbles together (x low, y high).
    pub fn new(c: Vector2I, backdrop: i8, object_index: u16, paint_id: u16, alpha_tile_index: u16) -> (r: AlphaTileBatchPrimitive)
        requires
            packable(c),
        ensures
            r == alpha_tile_spec(c, backdrop, object_index, paint_id, alpha_tile_index),
            alpha_tile_x(r) == c.x,
            alpha_tile_y(r) == c.y,
            r.backdrop == backdrop,
            r.object_index == object_index,
            r.paint_id == paint_id,
            r.alpha_tile_index == alpha_tile_index,
    {
        let x = c.x as u32;
        let y = c.y as u32;
        let hi = ((x >> 8u32) & 0xf) | ((y >> 4u32) & 0xf0);
        assert(hi < 256 && hi % 16 == x / 256 && hi / 16 == y / 256 && x % 256 + (x / 256) * 256 == x
            && y % 256 + (y / 256) * 256 == y) by (bit_vector)
            requires x < 4096, y < 4096, hi == ((x >> 8u32) & 0xf) | ((y >> 4u32) & 0xf0);
        AlphaTileBatchPrimitive {
            tile_x_lo: (x % 256) as u8,
            tile_y_lo: (y % 256) as u8,
            tile_hi: hi as u8,
            backdrop,
            object_index,
            paint_id,
            alpha_tile_index,
        }
    }

    /// The tile that the packet refers to.
    pub fn tile_coords(&self) -> (r: Vector2I)
        ensures
            r.x == alpha_tile_x(*self),
            r.y == alpha_tile_y(*self),
    {
        let hi = self.tile_hi as i32;
        Vector2I {
            x: self.tile_x_lo as i32 + (hi % 16) * 256,
            y: self.tile_y_lo as i32 + (hi / 16) * 256,
        }
    }
}

/// The packet after culling against `z`: masked when a later opaque path
/// hides its tile, unchanged otherwise.
pub open spec fn culled_tile(z: ZBuffer, a: AlphaTileBatchPrimitive) -> AlphaTileBatchPrimitive {
    if z.occludes(Vector2I { x: alpha_tile_x(a) as i32, y: alpha_tile_y(a) as i32 }, a.object_index) {
        AlphaTileBatchPrimitive { tile_x_lo: CULLED, tile_y_lo: CULLED, tile_hi: CULLED, ..a }
    } else {
        a
    }
}

/// Masks every alpha tile that a strictly later opaque path hides.
pub fn cull_alpha_tiles(z_buffer: &ZBuffer, alpha_tiles: &mut Vec<AlphaTileBatchPrimitive>)
    requires
        z_buffer.wf(),
    ensures
        final(alpha_tiles)@.len() == old(alpha_tiles)@.len(),
        forall|k: int|
            0 <= k < old(alpha_tiles)@.len() ==> final(alpha_tiles)@[k] == culled_tile(*z_buffer, old(alpha_tiles)@[k]),
{
    let n = alpha_tiles.len();
    let mut i: usize = 0;
    while i < n
        invariant
            z_buffer.wf(),
            n == old(alpha_tiles)@.len(),
            alpha_tiles@.len() == n,
            i <= n,
            forall|k: int| 0 <= k < i ==> alpha_tiles@[k] == culled_tile(*z_buffer, old(alpha_tiles)@[k]),
            forall|k: int| i <= k < n ==> alpha_tiles@[k] == old(alpha_tiles)@[k],
        decreases n - i,
    {
        let mut alpha_tile = alpha_tiles[i];
        let c = alpha_tile.tile_coords();
        if z_buffer.test(c, alpha_tile.object_index) {
            alpha_tile.tile_x_lo = CULLED;
            alpha_tile.tile_y_lo = CULLED;
            alpha_tile.tile_hi = CULLED;
            alpha_tiles.set(i, alpha_tile);
        }
        i = i + 1;
    }
}

/// The Z-buffer after `update`.
pub open spec fn updated(z: ZBuffer, c: Vector2I, object_index: u16) -> Seq<u32> {
    let d = z.depth(c);
    z.buffer.data@.update(
        z.buffer.rect.index_of(c),
        if d >= object_index + 1 { d } else { (object_index + 1) as u32 },
    )
}

/// When opaque paths `i < j` both fully cover tile `c`, whichever order
/// their updates arrive in, the cell ends up naming path `j` (so the solid
/// tile there carries `j`'s paint), and an alpha tile of path `i` at `c` is
/// masked, provided no path later than `j` covered `c` before.
pub proof fn lemma_z_cull_later_path_wins(z0: ZBuffer, c: Vector2I, i: u16, j: u16, z1: ZBuffer, z2: ZBuffer)
    requires
        z0.wf(),
        z0.buffer.rect.contains(c),
        i < j,
        z0.depth(c) <= j + 1,
        z1.buffer.rect == z0.buffer.rect,
        z2.buffer.rect == z0.buffer.rect,
        (z1.buffer.data@ == updated(z0, c, i) && z2.buffer.data@ == updated(z1, c, j))
            || (z1.buffer.data@ == updated(z0, c, j) && z2.buffer.data@ == updated(z1, c, i)),
    ensures
        z2.depth(c) == j + 1,
        z2.occludes(c, i),
        !z2.occludes(c, j),
{
    lemma_index_of_bounds(z0.buffer.rect, c);
}

/// Finishes a path's tiles: a tile without fills and with a non-zero
/// backdrop is solid; an opaque path records it in the Z-buffer, any other
/// path sends it as an alpha tile, as it does every tile that has fills.
pub fn pack_and_cull(
    built_object: &mut BuiltObject,
    z_buffer: &mut ZBuffer,
    object_index: u16,
    paint_id: u16,
    object_is_opaque: bool,
)
    requires
        old(built_object).wf(),
        old(z_buffer).wf(),
        forall|c: Vector2I| old(built_object).tiles.rect.contains(c) ==> packable(c),
    ensures
        final(built_object).wf(),
        final(built_object).bounds == old(built_object).bounds,
        final(built_object).tiles == old(built_object).tiles,
        final(built_object).fills@ == old(built_object).fills@,
        final(z_buffer).wf(),
        final(z_buffer).buffer.rect == old(z_buffer).buffer.rect,
        final(z_buffer).buffer.data@.len() == old(z_buffer).buffer.data@.len(),
        forall|k: int|
            0 <= k < old(z_buffer).buffer.data@.len() ==> final(z_buffer).buffer.data@[k] >= old(z_buffer).buffer.data@[k],
        forall|k: int|
            0 <= k < old(z_buffer).buffer.data@.len() ==> final(z_buffer).buffer.data@[k] == old(z_buffer).buffer.data@[k]
                || final(z_buffer).buffer.data@[k] == object_index + 1,
        final(built_object).alpha_tiles@ == old(built_object).alpha_tiles@ + alpha_tiles_upto(
            old(built_object).tiles.rect,
            old(built_object).tiles.data@,
            object_index,
            paint_id,
            object_is_opaque,
            old(built_object).tiles.data@.len(),
        ),
        forall|k: int|
            old(built_object).alpha_tiles@.len() <= k < final(built_object).alpha_tiles@.len()
                ==> final(built_object).alpha_tiles@[k].object_index == object_index
                && final(built_object).alpha_tiles@[k].paint_id == paint_id,
        final(z_buffer).buffer.data@ == z_after_tiles(
            old(z_buffer).buffer.rect,
            old(z_buffer).buffer.data@,
            old(built_object).tiles.rect,
            old(built_object).tiles.data@,
            object_index,
            object_is_opaque,
            old(built_object).tiles.data@.len(),
        ),
        forall|i: int|
            0 <= i < old(built_object).tiles.data@.len()
                && goes_to_z_buffer(#[trigger] old(built_object).tiles.data@[i], object_is_opaque)
                && old(z_buffer).buffer.rect.contains(old(built_object).tiles.rect.coords_at(i))
                ==> final(z_buffer).depth(old(built_object).tiles.rect.coords_at(i)) >= object_index + 1,
{
    let n = built_object.tiles.data.len();
    let ghost old_alpha = built_object.alpha_tiles@;
    let ghost old_cells = z_buffer.buffer.data@;
    let mut i: usize = 0;
    while i < n
        invariant
            built_object.wf(),
            built_object.bounds == old(built_object).bounds,
            built_object.tiles == old(built_object).tiles,
            built_object.fills@ == old(built_object).fills@,
            n == built_object.tiles.data@.len(),
            i <= n,
            forall|c: Vector2I| built_object.tiles.rect.contains(c) ==> packable(c),
            z_buffer.wf(),
            z_buffer.buffer.rect == old(z_buffer).buffer.rect,
            z_buffer.buffer.data@.len() == old_cells.len(),
            old_cells == old(z_buffer).buffer.data@,
            forall|k: int| 0 <= k < old_cells.len() ==> z_buffer.buffer.data@[k] >= old_cells[k],
            forall|k: int| 0 <= k < old_cells.len() ==> z_buffer.buffer.data@[k] == old_cells[k]
                || z_buffer.buffer.data@[k] == object_index + 1,
            old_alpha == old(built_object).alpha_tiles@,
            z_buffer.buffer.data@ == z_after_tiles(
                z_buffer.buffer.rect, old_cells, built_object.tiles.rect, built_object.tiles.data@,
                object_index, object_is_opaque, i as nat),
            built_object.alpha_tiles@ == old_alpha + alpha_tiles_upto(
                built_object.tiles.rect,
                built_object.tiles.data@,
                object_index,
                paint_id,
                object_is_opaque,
                i as nat,
            ),
            forall|t: int|
                0 <= t < i && goes_to_z_buffer(#[trigger] built_object.tiles.data@[t], object_is_opaque)
                    && z_buffer.buffer.rect.contains(built_object.tiles.rect.coords_at(t))
                    ==> z_buffer.depth(built_object.tiles.rect.coords_at(t)) >= object_index + 1,
            forall|k: int|
                old_alpha.len() <= k < built_object.alpha_tiles@.len()
                    ==> built_object.alpha_tiles@[k].object_index == object_index
                    && built_object.alpha_tiles@[k].paint_id == paint_id,
        decreases n - i,
    {
        let tile = built_object.tiles.data[i];
        let c = built_object.tiles.index_to_coords(i);
        let ghost rect = built_object.tiles.rect;
        let ghost data = built_object.tiles.data@;
        proof {
            assert(alpha_tiles_upto(rect, data, object_index, paint_id, object_is_opaque, (i + 1) as nat)
                == if goes_to_alpha(data[i as int], object_is_opaque) {
                    alpha_tiles_upto(rect, data, object_index, paint_id, object_is_opaque, i as nat).push(
                        alpha_tile_spec(rect.coords_at(i as int), data[i as int].backdrop, object_index, paint_id,
                            data[i as int].alpha_tile_index))
                } else {
                    alpha_tiles_upto(rect, data, object_index, paint_id, object_is_opaque, i as nat)
                });
        }
        if tile.alpha_tile_index == UNALLOCATED {
            if tile.backdrop == 0 {
                i = i + 1;
                continue;
            }
            if object_is_opaque {
                if z_buffer.buffer.rect.contains_point(c) {
                    let ghost before = *z_buffer;
                    z_buffer.update(c, object_index);
                    proof {
                        let j = before.buffer.rect.index_of(c);
                        lemma_index_of_bounds(before.buffer.rect, c);
                        assert(z_buffer.buffer.data@[j] >= before.buffer.data@[j]);
                        assert forall|k: int| 0 <= k < before.buffer.data@.len() implies
                            z_buffer.buffer.data@[k] >= before.buffer.data@[k]
                            && (z_buffer.buffer.data@[k] == old_cells[k] || z_buffer.buffer.data@[k] == object_index + 1) by {
                            if k != j {
                                assert(z_buffer.buffer.data@[k] == before.buffer.data@[k]);
                            }
                        }
                        assert forall|t: int|
                            0 <= t < i + 1 && goes_to_z_buffer(#[trigger] data[t], object_is_opaque)
                                && z_buffer.buffer.rect.contains(rect.coords_at(t))
                                implies z_buffer.depth(rect.coords_at(t)) >= object_index + 1 by {
                            lemma_index_of_bounds(z_buffer.buffer.rect, rect.coords_at(t));
                        }
                    }
                }
                i = i + 1;
                continue;
            }
        }
        let alpha_tile = AlphaTileBatchPrimitive::new(c, tile.backdrop, object_index, paint_id, tile.alpha_tile_index);
        built_object.alpha_tiles.push(alpha_tile);
        proof {
            assert(built_object.alpha_tiles@ =~= old_alpha + alpha_tiles_upto(
                rect, data, object_index, paint_id, object_is_opaque, (i + 1) as nat));
        }
        i = i + 1;
    }
}

} // verus!
