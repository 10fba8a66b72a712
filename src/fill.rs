//! GPU-ready primitives and the 4.8 fixed-point fill encoding.

use vstd::prelude::*;

verus! {

/// Largest tile-local fixed-point coordinate: one unit short of a tile.
pub const TILE_LOCAL_MAX: i64 = 4095;

/// Whole-pixel parts of a segment's end points, one nibble per coordinate:
/// x in the low nibble, y in the high nibble.
#[derive(Clone, Copy, Debug, PartialEq, Eq, Structural)]
pub struct LineSegmentU4 {
    pub from: u8,
    pub to: u8,
}

/// Fractional parts (in 1/256ths of a pixel) of a segment's end points.
#[derive(Clone, Copy, Debug, PartialEq, Eq, Structural)]
pub struct LineSegmentU8 {
    pub from_x: u8,
    pub from_y: u8,
    pub to_x: u8,
    pub to_y: u8,
}

/// One edge contribution inside one alpha tile.
#[derive(Clone, Copy, Debug, PartialEq, Eq, Structural)]
pub struct FillBatchPrimitive {
    pub px: LineSegmentU4,
    pub subpx: LineSegmentU8,
    pub alpha_tile_index: u16,
}

/// Clamps a tile-local fixed-point coordinate into the tile.
pub open spec fn clamp_local(v: int) -> int {
    if v < 0 {
        0
    } else if v > TILE_LOCAL_MAX {
        TILE_LOCAL_MAX as int
    } else {
        v
    }
}

pub open spec fn in_tile(v: int) -> bool {
    0 <= v <= TILE_LOCAL_MAX
}

/// The record that encodes the tile-local segment (fx, fy) -> (tx, ty).
pub open spec fn fill_record(fx: int, fy: int, tx: int, ty: int, index: u16) -> FillBatchPrimitive {
    FillBatchPrimitive {
        px: LineSegmentU4 {
            from: (fx / 256 + 16 * (fy / 256)) as u8,
            to: (tx / 256 + 16 * (ty / 256)) as u8,
        },
        subpx: LineSegmentU8 {
            from_x: (fx % 256) as u8,
            from_y: (fy % 256) as u8,
            to_x: (tx % 256) as u8,
            to_y: (ty % 256) as u8,
        },
        alpha_tile_index: index,
    }
}

/// The tile-local start x that a record encodes.
pub open spec fn decode_from_x(f: FillBatchPrimitive) -> int {
    (f.px.from as int % 16) * 256 + f.subpx.from_x as int
}

pub open spec fn decode_from_y(f: FillBatchPrimitive) -> int {
    (f.px.from as int / 16) * 256 + f.subpx.from_y as int
}

pub open spec fn decode_to_x(f: FillBatchPrimitive) -> int {
    (f.px.to as int % 16) * 256 + f.subpx.to_x as int
}

pub open spec fn decode_to_y(f: FillBatchPrimitive) -> int {
    (f.px.to as int / 16) * 256 + f.subpx.to_y as int
}

/// Packs the whole-pixel nibbles of one end point: x low, y high.
fn pack_nibbles(x: u32, y: u32) -> (r: u8)
    requires
        x <= 4095,
        y <= 4095,
    ensures
        r as int == x as int / 256 + 16 * (y as int / 256),
{
    let p = ((x & 0xf00) >> 8u32) | ((y & 0xf00) >> 4u32);
    assert(p == x / 256 + 16 * (y / 256) && p < 256) by (bit_vector)
        requires
            x <= 4095,
            y <= 4095,
            p == ((x & 0xf00) >> 8u32) | ((y & 0xf00) >> 4u32),
    ;
    p as u8
}

/// Encodes a tile-local segment whose coordinates lie within the tile.
pub fn pack_fill(fx: i64, fy: i64, tx: i64, ty: i64, alpha_tile_index: u16) -> (r: FillBatchPrimitive)
    requires
        in_tile(fx as int),
        in_tile(fy as int),
        in_tile(tx as int),
        in_tile(ty as int),
    ensures
        r == fill_record(fx as int, fy as int, tx as int, ty as int, alpha_tile_index),
{
    let from = pack_nibbles(fx as u32, fy as u32);
    let to = pack_nibbles(tx as u32, ty as u32);
    FillBatchPrimitive {
        px: LineSegmentU4 { from, to },
        subpx: LineSegmentU8 {
            from_x: (fx % 256) as u8,
            from_y: (fy % 256) as u8,
            to_x: (tx % 256) as u8,
            to_y: (ty % 256) as u8,
        },
        alpha_tile_index,
    }
}

/// Decoding a record gives back exactly the tile-local coordinates that
/// were encoded, for every segment whose coordinates lie within the tile.
pub proof fn lemma_fill_round_trip(fx: int, fy: int, tx: int, ty: int, index: u16)
    requires
        in_tile(fx),
        in_tile(fy),
        in_tile(tx),
        in_tile(ty),
    ensures
        decode_from_x(fill_record(fx, fy, tx, ty, index)) == fx,
        decode_from_y(fill_record(fx, fy, tx, ty, index)) == fy,
        decode_to_x(fill_record(fx, fy, tx, ty, index)) == tx,
        decode_to_y(fill_record(fx, fy, tx, ty, index)) == ty,
        fill_record(fx, fy, tx, ty, index).alpha_tile_index == index,
{
    lemma_nibble_round_trip(fx, fy);
    lemma_nibble_round_trip(tx, ty);
}

proof fn lemma_nibble_round_trip(x: int, y: int)
    requires
        in_tile(x),
        in_tile(y),
    ensures
        0 <= x / 256 + 16 * (y / 256) < 256,
        (x / 256 + 16 * (y / 256)) % 16 * 256 + x % 256 == x,
        (x / 256 + 16 * (y / 256)) / 16 * 256 + y % 256 == y,
        0 <= x % 256 < 256,
        0 <= y % 256 < 256,
{
    let a = x / 256;
    let b = y / 256;
    assert(0 <= a < 16 && 0 <= b < 16 && x == a * 256 + x % 256 && y == b * 256 + y % 256)
        by (nonlinear_arith)
        requires 0 <= x <= 4095, 0 <= y <= 4095, a == x / 256, b == y / 256;
    vstd::arithmetic::div_mod::lemma_fundamental_div_mod_converse(a + 16 * b, 16, b, a);
    assert(0 <= a + 16 * b < 256);
}

} // verus!
