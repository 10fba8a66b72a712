//! Scan conversion of one path's monotone line segments into fills, active
//! fills and backdrops over the tile grid.

use crate::built_object::{
    abs_winding, active_segment, lemma_repeat_fill_keeps_backdrops, active_fill_spec, blank_tiles, line_fills, solve_y_spec, solve_y_for_x, state_of, BuiltObject, FillState,
    TileObjectPrimitive,
};
use crate::geometry::{
    floor_div, floor_div_exec, in_limit, max_int, min_int, tile_rect_in_limit, LineSegmentFixed, RectF, RectI,
    Vector2I, TILE_FIXED,
};
use crate::tile_map::{lemma_index_of_bounds, lemma_index_of_injective};
use crate::z_buffer::{alpha_tiles_upto, goes_to_z_buffer, pack_and_cull, packable, z_after_tiles, ZBuffer};
use vstd::prelude::*;

verus! {

/// Where an edge crosses a row's top line, and the winding it carries.
#[derive(Clone, Copy, Debug, PartialEq, Eq, Structural)]
pub struct Crossing {
    pub x: i64,
    pub winding: i32,
}

pub open spec fn crossing_ok(c: Crossing) -> bool {
    in_limit(c.x as int) && (c.winding == 1 || c.winding == -1)
}

/// The segment with its coordinates swapped.
pub open spec fn swap_xy(s: LineSegmentFixed) -> LineSegmentFixed {
    LineSegmentFixed { from_x: s.from_y, from_y: s.from_x, to_x: s.to_y, to_y: s.to_x }
}

/// The x coordinate where the segment meets the horizontal line at `y`.
pub open spec fn solve_x_spec(s: LineSegmentFixed, y: int) -> int {
    solve_y_spec(swap_xy(s), y)
}

/// The x coordinate where the segment meets the horizontal line at `y`,
/// kept between its end points.
pub fn solve_x_for_y(s: &LineSegmentFixed, y: i64) -> (r: i64)
    requires
        s.wf(),
        in_limit(y as int),
    ensures
        r == solve_x_spec(*s, y as int),
        min_int(s.from_x as int, s.to_x as int) <= r <= max_int(s.from_x as int, s.to_x as int),
{
    let swapped = LineSegmentFixed { from_x: s.from_y, from_y: s.from_x, to_x: s.to_y, to_y: s.to_x };
    solve_y_for_x(&swapped, y)
}

/// The crossings of the line `y = top` by the first `n` segments, in
/// segment order: each segment reaching from the line to below it, with
/// +1 when it runs downward and -1 otherwise.
pub open spec fn crossings_upto(segs: Seq<LineSegmentFixed>, top: int, n: nat) -> Seq<Crossing>
    decreases n,
{
    if n == 0 {
        Seq::empty()
    } else {
        let prev = crossings_upto(segs, top, (n - 1) as nat);
        let s = segs[n - 1];
        let upper = min_int(s.from_y as int, s.to_y as int);
        let lower = max_int(s.from_y as int, s.to_y as int);
        if upper <= top && top < lower {
            prev.push(Crossing { x: solve_x_spec(s, top) as i64, winding: if s.from_y < s.to_y { 1i32 } else { -1i32 } })
        } else {
            prev
        }
    }
}

/// The crossings of the line `y = top`, in segment order.
pub fn row_crossings(segments: &Vec<LineSegmentFixed>, top: i64) -> (r: Vec<Crossing>)
    requires
        forall|i: int| 0 <= i < segments@.len() ==> #[trigger] segments@[i].wf(),
        in_limit(top as int),
    ensures
        r@ == crossings_upto(segments@, top as int, segments@.len()),
        r@.len() <= segments@.len(),
        forall|i: int| 0 <= i < r@.len() ==> crossing_ok(#[trigger] r@[i]),
{
    let mut crossings: Vec<Crossing> = Vec::new();
    let mut i: usize = 0;
    while i < segments.len()
        invariant
            i <= segments@.len(),
            crossings@.len() <= i,
            crossings@ == crossings_upto(segments@, top as int, i as nat),
            forall|k: int| 0 <= k < segments@.len() ==> #[trigger] segments@[k].wf(),
            in_limit(top as int),
            forall|k: int| 0 <= k < crossings@.len() ==> crossing_ok(#[trigger] crossings@[k]),
        decreases segments@.len() - i,
    {
        let s = segments[i];
        assert(segments@[i as int].wf());
        let (upper, lower) = if s.from_y <= s.to_y { (s.from_y, s.to_y) } else { (s.to_y, s.from_y) };
        if upper <= top && top < lower {
            let x = solve_x_for_y(&s, top);
            let winding: i32 = if s.from_y < s.to_y { 1 } else { -1 };
            crossings.push(Crossing { x, winding });
        }
        i = i + 1;
    }
    crossings
}

/// Where `c` goes in `sorted`, searching from `k`: before the first
/// crossing with a larger x.
pub open spec fn insert_pos_from(sorted: Seq<Crossing>, c: Crossing, k: int) -> int
    decreases sorted.len() - k,
{
    if k >= sorted.len() {
        sorted.len() as int
    } else if sorted[k].x > c.x {
        k
    } else {
        insert_pos_from(sorted, c, k + 1)
    }
}

/// The crossings ordered by x, equal ones kept in their order.
pub open spec fn sorted_crossings(cs: Seq<Crossing>) -> Seq<Crossing>
    decreases cs.len(),
{
    if cs.len() == 0 {
        Seq::empty()
    } else {
        let s = sorted_crossings(cs.drop_last());
        s.insert(insert_pos_from(s, cs.last(), 0), cs.last())
    }
}

pub open spec fn is_sorted(cs: Seq<Crossing>) -> bool {
    forall|a: int, b: int| 0 <= a < b < cs.len() ==> cs[a].x <= cs[b].x
}

/// Orders crossings by x, keeping each crossing; equal ones keep their order.
pub fn sort_crossings(crossings: &Vec<Crossing>) -> (r: Vec<Crossing>)
    requires
        forall|i: int| 0 <= i < crossings@.len() ==> crossing_ok(#[trigger] crossings@[i]),
    ensures
        r@ == sorted_crossings(crossings@),
        r@.len() == crossings@.len(),
        is_sorted(r@),
        r@.to_multiset() == crossings@.to_multiset(),
        forall|i: int| 0 <= i < r@.len() ==> crossing_ok(#[trigger] r@[i]),
{
    let mut out: Vec<Crossing> = Vec::new();
    let mut i: usize = 0;
    assert(out@ =~= crossings@.subrange(0, 0));
    while i < crossings.len()
        invariant
            i <= crossings@.len(),
            out@ == sorted_crossings(crossings@.subrange(0, i as int)),
            out@.len() == i,
            is_sorted(out@),
            out@.to_multiset() == crossings@.subrange(0, i as int).to_multiset(),
            forall|k: int| 0 <= k < crossings@.len() ==> crossing_ok(#[trigger] crossings@[k]),
            forall|k: int| 0 <= k < out@.len() ==> crossing_ok(#[trigger] out@[k]),
        decreases crossings@.len() - i,
    {
        let c = crossings[i];
        let mut k: usize = 0;
        while k < out.len() && out[k].x <= c.x
            invariant
                k <= out@.len(),
                insert_pos_from(out@, c, 0) == insert_pos_from(out@, c, k as int),
                forall|a: int| 0 <= a < k ==> out@[a].x <= c.x,
            decreases out@.len() - k,
        {
            k = k + 1;
        }
        let ghost before = out@;
        proof {
            before.insert_ensures(k as int, c);
            assert(before.insert(k as int, c).remove(k as int) =~= before);
        }
        out.insert(k, c);
        proof {
            let prefix = crossings@.subrange(0, i as int + 1);
            assert(prefix.drop_last() =~= crossings@.subrange(0, i as int));
            assert(prefix.last() == c);
            assert(prefix =~= crossings@.subrange(0, i as int).push(c));
            assert forall|a: int, b: int| 0 <= a < b < out@.len() implies out@[a].x <= out@[b].x by {
                if b < k {
                } else if b == k {
                } else if a < k {
                    assert(out@[b] == before[b - 1]);
                    if k < before.len() {
                        assert(before[k as int].x > c.x);
                        assert(before[k as int].x <= before[b - 1].x || b - 1 == k);
                    }
                } else if a == k {
                    assert(out@[b] == before[b - 1]);
                    assert(before[k as int].x > c.x);
                    assert(before[k as int].x <= before[b - 1].x || b - 1 == k);
                } else {
                    assert(out@[a] == before[a - 1]);
                    assert(out@[b] == before[b - 1]);
                }
            }
            assert(insert_pos_from(before, c, k as int) == k as int);
            assert(sorted_crossings(prefix) == before.insert(k as int, c));
            assert(out@.remove(k as int) =~= before);
            out@.to_multiset_ensures();
            crossings@.subrange(0, i as int).to_multiset_ensures();
            assert(out@.remove(k as int).to_multiset() =~= out@.to_multiset().remove(c));
            assert(out@.contains(c)) by {
                assert(out@[k as int] == c);
            }
            assert(out@.to_multiset().count(c) > 0);
            assert(out@.to_multiset() =~= before.to_multiset().insert(c));
            assert(prefix.to_multiset() =~= crossings@.subrange(0, i as int).to_multiset().insert(c));
        }
        i = i + 1;
    }
    proof {
        assert(crossings@.subrange(0, crossings@.len() as int) =~= crossings@);
    }
    out
}

/// A winding number as a tile backdrop, saturated to the byte's range.
pub open spec fn backdrop_of(w: int) -> i8 {
    if w < -128 {
        -128i8
    } else if w > 127 {
        127i8
    } else {
        w as i8
    }
}

fn backdrop_exec(w: i32) -> (r: i8)
    ensures
        r == backdrop_of(w as int),
{
    if w < -128 {
        -128i8
    } else if w > 127 {
        127i8
    } else {
        w as i8
    }
}

/// The tiles after tile `c` takes backdrop `b`.
pub open spec fn set_backdrop_spec(rect: RectI, st: FillState, c: Vector2I, b: i8) -> FillState {
    let i = rect.index_of(c);
    FillState { tiles: st.tiles.update(i, TileObjectPrimitive { backdrop: b, ..st.tiles[i] }), ..st }
}

/// Tiles `cur .. end` of row `row` that lie in the map take backdrop `b`.
pub open spec fn backdrops_from(rect: RectI, st: FillState, cur: int, end: int, row: i32, b: i8) -> FillState
    decreases end - cur,
{
    if cur >= end {
        st
    } else {
        let c = Vector2I { x: cur as i32, y: row };
        let st2 = if rect.contains(c) { set_backdrop_spec(rect, st, c, b) } else { st };
        backdrops_from(rect, st2, cur + 1, end, row, b)
    }
}

/// The walk along a row: the fills and tiles so far, the current tile, the
/// offset reached inside it, and the winding carried.
pub struct RowState {
    pub st: FillState,
    pub cur: int,
    pub sub: int,
    pub winding: int,
}

/// The walk over one crossing: finish the current tile's span up to its
/// right edge, give the tiles passed whole the winding as backdrop, fill the
/// span up to the crossing in its tile, then take on its winding.
pub open spec fn row_step(rect: RectI, rs: RowState, cr: Crossing, row: i32) -> RowState {
    let ct = floor_div(cr.x as int, 4096);
    let rs1 = if rs.cur < ct && rs.sub > 0 {
        RowState {
            st: active_fill_spec(rect, rs.st, (rs.cur * 4096 + rs.sub) as i64, ((rs.cur + 1) * 4096) as i64,
                rs.winding as i32, Vector2I { x: rs.cur as i32, y: row }),
            cur: rs.cur + 1,
            sub: 0,
            winding: rs.winding,
        }
    } else {
        rs
    };
    let rect_right = rect.origin_x + rect.width;
    let end = if ct < rect_right { ct } else { rect_right };
    let rs2 = if rs1.cur < end {
        RowState {
            st: backdrops_from(rect, rs1.st, rs1.cur, end, row, backdrop_of(rs1.winding)),
            cur: end,
            sub: 0,
            winding: rs1.winding,
        }
    } else {
        rs1
    };
    let csub = cr.x - rs2.cur * 4096;
    let rs3 = if rs2.cur == ct && csub > rs2.sub {
        RowState {
            st: active_fill_spec(rect, rs2.st, (rs2.cur * 4096 + rs2.sub) as i64, cr.x, rs2.winding as i32,
                Vector2I { x: rs2.cur as i32, y: row }),
            sub: csub,
            ..rs2
        }
    } else {
        rs2
    };
    RowState { winding: rs3.winding + cr.winding, ..rs3 }
}

pub open spec fn row_from(rect: RectI, rs: RowState, cs: Seq<Crossing>, i: int, row: i32) -> RowState
    decreases cs.len() - i,
{
    if i >= cs.len() {
        rs
    } else {
        row_from(rect, row_step(rect, rs, cs[i], row), cs, i + 1, row)
    }
}

/// The active fills and backdrops of row `row` from its sorted crossings.
pub open spec fn process_row_spec(rect: RectI, st: FillState, cs: Seq<Crossing>, row: i32) -> FillState {
    row_from(rect, RowState { st, cur: rect.origin_x as int, sub: 0, winding: 0 }, cs, 0, row).st
}

/// The windings of crossings `i .. j`, summed.
pub open spec fn winding_sum(cs: Seq<Crossing>, i: int, j: int) -> int
    decreases j - i,
{
    if i >= j {
        0
    } else {
        cs[i].winding + winding_sum(cs, i + 1, j)
    }
}

/// Walking the crossings adds each one's winding: at crossing `i` of a row
/// walked from zero, the winding carried is the sum over the crossings
/// before it, which lie to its left.
pub proof fn lemma_row_winding(rect: RectI, rs: RowState, cs: Seq<Crossing>, i: int, row: i32)
    requires
        0 <= i <= cs.len(),
    ensures
        row_from(rect, rs, cs, i, row).winding == rs.winding + winding_sum(cs, i, cs.len() as int),
    decreases cs.len() - i,
{
    if i < cs.len() {
        lemma_row_winding(rect, row_step(rect, rs, cs[i], row), cs, i + 1, row);
    }
}

/// Giving tiles `cur .. end` of row `row` a backdrop sets exactly those that
/// lie in the map and keeps every other tile.
pub proof fn lemma_backdrops_from(rect: RectI, st: FillState, cur: int, end: int, row: i32, b: i8)
    requires
        rect.wf(),
        st.tiles.len() == rect.area(),
        i32::MIN <= cur,
        end <= i32::MAX,
    ensures
        backdrops_from(rect, st, cur, end, row, b).tiles.len() == st.tiles.len(),
        backdrops_from(rect, st, cur, end, row, b).fills == st.fills,
        backdrops_from(rect, st, cur, end, row, b).next == st.next,
        forall|x: i32| #![auto] cur <= x < end && rect.contains(Vector2I { x, y: row }) ==>
            backdrops_from(rect, st, cur, end, row, b).tiles[rect.index_of(Vector2I { x, y: row })].backdrop == b,
        forall|c: Vector2I| #![auto] rect.contains(c) && !(c.y == row && cur <= c.x < end) ==>
            backdrops_from(rect, st, cur, end, row, b).tiles[rect.index_of(c)] == st.tiles[rect.index_of(c)],
    decreases end - cur,
{
    if cur < end {
        let c0 = Vector2I { x: cur as i32, y: row };
        let st2 = if rect.contains(c0) { set_backdrop_spec(rect, st, c0, b) } else { st };
        if rect.contains(c0) {
            lemma_index_of_bounds(rect, c0);
        }
        lemma_backdrops_from(rect, st2, cur + 1, end, row, b);
        let r = backdrops_from(rect, st, cur, end, row, b);
        assert forall|x: i32| #![auto] cur <= x < end && rect.contains(Vector2I { x, y: row }) implies
            r.tiles[rect.index_of(Vector2I { x, y: row })].backdrop == b by {
            if x == cur {
                assert(Vector2I { x, y: row } == c0);
            }
        }
        assert forall|c: Vector2I| #![auto] rect.contains(c) && !(c.y == row && cur <= c.x < end) implies
            r.tiles[rect.index_of(c)] == st.tiles[rect.index_of(c)] by {
            lemma_index_of_bounds(rect, c);
            if rect.contains(c0) {
                assert(c != c0);
                lemma_index_of_injective(rect, c, c0);
            }
        }
    }
}

/// At each crossing, the tiles of the row passed whole (from the first tile
/// not yet finished up to the crossing's tile, within the map) take as
/// backdrop the winding carried from the crossings to the left.
pub proof fn lemma_row_step_backdrops(rect: RectI, rs: RowState, cr: Crossing, row: i32)
    requires
        rect.wf(),
        rs.st.tiles.len() == rect.area(),
        rect.origin_x <= rs.cur,
    ensures
        ({
            let ct = floor_div(cr.x as int, 4096);
            let first = if rs.cur < ct && rs.sub > 0 { rs.cur + 1 } else { rs.cur };
            let end = if ct < rect.origin_x + rect.width { ct } else { rect.origin_x + rect.width };
            forall|x: i32| #![auto] first <= x < end && rect.contains(Vector2I { x, y: row }) ==>
                row_step(rect, rs, cr, row).st.tiles[rect.index_of(Vector2I { x, y: row })].backdrop
                    == backdrop_of(rs.winding)
        }),
{
    let ct = floor_div(cr.x as int, 4096);
    let s1 = if rs.cur < ct && rs.sub > 0 {
        active_fill_spec(rect, rs.st, (rs.cur * 4096 + rs.sub) as i64, ((rs.cur + 1) * 4096) as i64,
            rs.winding as i32, Vector2I { x: rs.cur as i32, y: row })
    } else {
        rs.st
    };
    if rs.cur < ct && rs.sub > 0 {
        let seg = active_segment((rs.cur * 4096 + rs.sub) as i64, ((rs.cur + 1) * 4096) as i64,
            rs.winding as i32, Vector2I { x: rs.cur as i32, y: row });
        lemma_repeat_fill_keeps_backdrops(rect, rs.st, seg, Vector2I { x: rs.cur as i32, y: row },
            abs_winding(rs.winding as i32));
    }
    let first = if rs.cur < ct && rs.sub > 0 { rs.cur + 1 } else { rs.cur };
    let end = if ct < rect.origin_x + rect.width { ct } else { rect.origin_x + rect.width };
    let b = backdrop_of(rs.winding);
    lemma_backdrops_from(rect, s1, first, end, row, b);
    let s2 = if first < end { backdrops_from(rect, s1, first, end, row, b) } else { s1 };
    let cur2 = if first < end { end } else { first };
    let sub2 = if first < end { 0 } else if rs.cur < ct && rs.sub > 0 { 0 } else { rs.sub };
    let csub = cr.x - cur2 * 4096;
    if cur2 == ct && csub > sub2 {
        let seg = active_segment((cur2 * 4096 + sub2) as i64, cr.x, rs.winding as i32, Vector2I { x: cur2 as i32, y: row });
        lemma_repeat_fill_keeps_backdrops(rect, s2, seg, Vector2I { x: cur2 as i32, y: row }, abs_winding(rs.winding as i32));
    }
    assert forall|x: i32| #![auto] first <= x < end && rect.contains(Vector2I { x, y: row }) implies
        row_step(rect, rs, cr, row).st.tiles[rect.index_of(Vector2I { x, y: row })].backdrop == b by {
        lemma_index_of_bounds(rect, Vector2I { x, y: row });
    }
}

/// Walks the sorted crossings of row `row` from left to right, carrying the
/// winding number: a tile passed whole takes it as its backdrop, and each
/// part of a tile between two crossings with a non-zero winding gets an
/// active fill along the tile's top edge.
pub fn process_row(built: &mut BuiltObject, next_alpha_tile_index: &mut u16, crossings: &Vec<Crossing>, row: i32)
    requires
        old(built).wf(),
        tile_rect_in_limit(old(built).tiles.rect),
        crossings@.len() < 0x4000_0000,
        forall|i: int| 0 <= i < crossings@.len() ==> crossing_ok(#[trigger] crossings@[i]),
    ensures
        final(built).wf(),
        final(built).bounds == old(built).bounds,
        final(built).alpha_tiles@ == old(built).alpha_tiles@,
        final(built).tiles.rect == old(built).tiles.rect,
        state_of(*final(built), *final(next_alpha_tile_index)) == process_row_spec(
            old(built).tiles.rect,
            state_of(*old(built), *old(next_alpha_tile_index)),
            crossings@,
            row,
        ),
{
    let ghost st0 = state_of(*built, *next_alpha_tile_index);
    let rect = built.tile_rect();
    let rect_right = rect.origin_x as i64 + rect.width as i64;
    let mut current_tile_x: i64 = rect.origin_x as i64;
    let mut current_subtile_x: i64 = 0;
    let mut winding: i32 = 0;
    let mut i: usize = 0;
    while i < crossings.len()
        invariant
            built.wf(),
            built.bounds == old(built).bounds,
            built.alpha_tiles@ == old(built).alpha_tiles@,
            built.tiles.rect == rect,
            rect == old(built).tiles.rect,
            tile_rect_in_limit(rect),
            rect_right == rect.origin_x + rect.width,
            rect.origin_x <= current_tile_x <= 0x1000_0000,
            0 <= current_subtile_x < TILE_FIXED,
            i <= crossings@.len(),
            crossings@.len() < 0x4000_0000,
            -(i as int) <= winding <= i as int,
            forall|k: int| 0 <= k < crossings@.len() ==> crossing_ok(#[trigger] crossings@[k]),
            process_row_spec(rect, st0, crossings@, row) == row_from(
                rect,
                RowState {
                    st: state_of(*built, *next_alpha_tile_index),
                    cur: current_tile_x as int,
                    sub: current_subtile_x as int,
                    winding: winding as int,
                },
                crossings@,
                i as int,
                row,
            ).st,
        decreases crossings@.len() - i,
    {
        let crossing = crossings[i];
        let ghost rs0 = RowState {
            st: state_of(*built, *next_alpha_tile_index),
            cur: current_tile_x as int,
            sub: current_subtile_x as int,
            winding: winding as int,
        };
        let crossing_tile_x = floor_div_exec(crossing.x, TILE_FIXED);
        proof {
            assert(-0x1000_0000 <= crossing.x as int / 4096 <= 0x1000_0000) by (nonlinear_arith)
                requires in_limit(crossing.x as int);
            assert(crossing_tile_x * 4096 <= crossing.x < crossing_tile_x * 4096 + 4096) by (nonlinear_arith)
                requires crossing_tile_x == crossing.x as int / 4096;
        }
        if current_tile_x < crossing_tile_x && current_subtile_x > 0 {
            let left = current_tile_x * TILE_FIXED + current_subtile_x;
            let right = (current_tile_x + 1) * TILE_FIXED;
            built.add_active_fill(next_alpha_tile_index, left, right, winding,
                Vector2I { x: current_tile_x as i32, y: row });
            current_tile_x = current_tile_x + 1;
            current_subtile_x = 0;
        }
        let end = if crossing_tile_x < rect_right { crossing_tile_x } else { rect_right };
        let ghost st1 = state_of(*built, *next_alpha_tile_index);
        let ghost cur1 = current_tile_x as int;
        let ghost sub1 = current_subtile_x as int;
        let b = backdrop_exec(winding);
        while current_tile_x < end
            invariant
                built.wf(),
                built.bounds == old(built).bounds,
                built.alpha_tiles@ == old(built).alpha_tiles@,
                built.tiles.rect == rect,
                tile_rect_in_limit(rect),
                rect.origin_x <= current_tile_x <= 0x1000_0000,
                end <= 0x1000_0000,
                cur1 < end ==> current_tile_x <= end,
                cur1 >= end ==> current_tile_x == cur1 && current_subtile_x == sub1
                    && state_of(*built, *next_alpha_tile_index) == st1,
                current_tile_x > cur1 ==> current_subtile_x == 0,
                current_tile_x >= cur1,
                0 <= current_subtile_x < TILE_FIXED,
                backdrops_from(rect, st1, cur1, end as int, row, b) == backdrops_from(
                    rect, state_of(*built, *next_alpha_tile_index), current_tile_x as int, end as int, row, b),
            decreases end - current_tile_x,
        {
            let c = Vector2I { x: current_tile_x as i32, y: row };
            if built.tiles.rect.contains_point(c) {
                let ghost before = *built;
                built.set_backdrop(c, b);
                proof {
                    assert(state_of(*built, *next_alpha_tile_index)
                        == set_backdrop_spec(rect, state_of(before, *next_alpha_tile_index), c, b));
                }
            }
            current_tile_x = current_tile_x + 1;
            current_subtile_x = 0;
        }
        if current_tile_x == crossing_tile_x {
            let crossing_subtile_x = crossing.x - current_tile_x * TILE_FIXED;
            assert(0 <= crossing_subtile_x < 4096);
            if crossing_subtile_x > current_subtile_x {
                let left = current_tile_x * TILE_FIXED + current_subtile_x;
                built.add_active_fill(next_alpha_tile_index, left, crossing.x, winding,
                    Vector2I { x: current_tile_x as i32, y: row });
                current_subtile_x = crossing_subtile_x;
            }
        }
        winding = winding + crossing.winding;
        proof {
            assert(row_step(rect, rs0, crossings@[i as int], row) == RowState {
                st: state_of(*built, *next_alpha_tile_index),
                cur: current_tile_x as int,
                sub: current_subtile_x as int,
                winding: winding as int,
            });
        }
        i = i + 1;
    }
}

/// The part of the segment inside row `row`, in the segment's direction.
pub open spec fn row_piece(s: LineSegmentFixed, row: int) -> LineSegmentFixed {
    let upper = min_int(s.from_y as int, s.to_y as int);
    let lower = max_int(s.from_y as int, s.to_y as int);
    let top = row * 4096;
    let bottom = top + 4096;
    let y0 = if upper > top { upper } else { top };
    let y1 = if lower < bottom { lower } else { bottom };
    let x0 = solve_x_spec(s, y0);
    let x1 = solve_x_spec(s, y1);
    if s.from_y <= s.to_y {
        LineSegmentFixed { from_x: x0 as i64, from_y: y0 as i64, to_x: x1 as i64, to_y: y1 as i64 }
    } else {
        LineSegmentFixed { from_x: x1 as i64, from_y: y1 as i64, to_x: x0 as i64, to_y: y0 as i64 }
    }
}

/// The fills of the segment's pieces in rows `row .. row_end`, stopping
/// below the segment.
pub open spec fn rows_fills_from(rect: RectI, st: FillState, s: LineSegmentFixed, row: int, row_end: int) -> FillState
    decreases row_end - row,
{
    if row >= row_end || row * 4096 >= max_int(s.from_y as int, s.to_y as int) {
        st
    } else {
        rows_fills_from(rect, line_fills(rect, st, row_piece(s, row), row as i32), s, row + 1, row_end)
    }
}

/// The fills of one segment: a horizontal segment on a row's top line adds
/// none, another horizontal one is split on its row, and any other segment
/// is cut into its pieces on the map's rows.
pub open spec fn segment_fills_spec(rect: RectI, st: FillState, s: LineSegmentFixed) -> FillState {
    let upper = min_int(s.from_y as int, s.to_y as int);
    let lower = max_int(s.from_y as int, s.to_y as int);
    let first = floor_div(upper, 4096);
    if upper == lower {
        if first * 4096 == upper { st } else { line_fills(rect, st, s, first as i32) }
    } else {
        let start = if first < rect.origin_y { rect.origin_y as int } else { first };
        rows_fills_from(rect, st, s, start, rect.origin_y + rect.height)
    }
}

/// Emits the fills of one segment, row by row. A horizontal segment on a
/// row's top line adds nothing: the crossings of that line carry it.
pub fn generate_segment_fills(built: &mut BuiltObject, next_alpha_tile_index: &mut u16, s: LineSegmentFixed)
    requires
        old(built).wf(),
        tile_rect_in_limit(old(built).tiles.rect),
        s.wf(),
    ensures
        final(built).wf(),
        final(built).bounds == old(built).bounds,
        final(built).alpha_tiles@ == old(built).alpha_tiles@,
        final(built).tiles.rect == old(built).tiles.rect,
        state_of(*final(built), *final(next_alpha_tile_index)) == segment_fills_spec(
            old(built).tiles.rect,
            state_of(*old(built), *old(next_alpha_tile_index)),
            s,
        ),
{
    let ghost st0 = state_of(*built, *next_alpha_tile_index);
    let (upper, lower) = if s.from_y <= s.to_y { (s.from_y, s.to_y) } else { (s.to_y, s.from_y) };
    proof {
        assert(-0x1000_0000 <= upper as int / 4096 <= 0x1000_0000) by (nonlinear_arith)
            requires in_limit(upper as int);
    }
    if upper == lower {
        let row = floor_div_exec(upper, TILE_FIXED);
        if row * TILE_FIXED == upper {
            return;
        }
        built.generate_fill_primitives_for_line(next_alpha_tile_index, s, row as i32);
        return;
    }
    let rect = built.tile_rect();
    let mut row: i64 = floor_div_exec(upper, TILE_FIXED);
    if row < rect.origin_y as i64 {
        row = rect.origin_y as i64;
    }
    let row_end = rect.origin_y as i64 + rect.height as i64;
    while row < row_end && row * TILE_FIXED < lower
        invariant
            built.wf(),
            built.bounds == old(built).bounds,
            built.alpha_tiles@ == old(built).alpha_tiles@,
            built.tiles.rect == rect,
            rect == old(built).tiles.rect,
            tile_rect_in_limit(rect),
            row_end == rect.origin_y + rect.height,
            -0x1000_0000 <= row,
            s.wf(),
            in_limit(upper as int),
            in_limit(lower as int),
            upper < lower,
            upper == min_int(s.from_y as int, s.to_y as int),
            lower == max_int(s.from_y as int, s.to_y as int),
            segment_fills_spec(rect, st0, s) == rows_fills_from(
                rect, state_of(*built, *next_alpha_tile_index), s, row as int, row_end as int),
        decreases row_end - row,
    {
        let row_top = row * TILE_FIXED;
        let row_bottom = row_top + TILE_FIXED;
        let y0 = if upper > row_top { upper } else { row_top };
        let y1 = if lower < row_bottom { lower } else { row_bottom };
        let x0 = solve_x_for_y(&s, y0);
        let x1 = solve_x_for_y(&s, y1);
        let piece = if s.from_y <= s.to_y {
            LineSegmentFixed { from_x: x0, from_y: y0, to_x: x1, to_y: y1 }
        } else {
            LineSegmentFixed { from_x: x1, from_y: y1, to_x: x0, to_y: y0 }
        };
        assert(piece == row_piece(s, row as int));
        built.generate_fill_primitives_for_line(next_alpha_tile_index, piece, row as i32);
        row = row + 1;
    }
}

/// Every tile of the rectangle can be named by an alpha tile.
pub open spec fn rect_packable(b: RectF) -> bool {
    &&& 0 <= b.min_x
    &&& 0 <= b.min_y
    &&& b.max_x <= 0x100_0000
    &&& b.max_y <= 0x100_0000
}

/// The segment's coordinates lie where alpha tiles can name their tiles.
pub open spec fn segment_packable(s: LineSegmentFixed) -> bool {
    &&& 0 <= s.from_x <= 0x100_0000
    &&& 0 <= s.from_y <= 0x100_0000
    &&& 0 <= s.to_x <= 0x100_0000
    &&& 0 <= s.to_y <= 0x100_0000
}

pub open spec fn rect_holds_segment(r: RectF, s: LineSegmentFixed) -> bool {
    &&& r.min_x <= s.from_x <= r.max_x
    &&& r.min_x <= s.to_x <= r.max_x
    &&& r.min_y <= s.from_y <= r.max_y
    &&& r.min_y <= s.to_y <= r.max_y
}

/// The smallest rectangle holding the segment.
pub open spec fn segment_rect(s: LineSegmentFixed) -> RectF {
    RectF {
        min_x: min_int(s.from_x as int, s.to_x as int) as i64,
        min_y: min_int(s.from_y as int, s.to_y as int) as i64,
        max_x: max_int(s.from_x as int, s.to_x as int) as i64,
        max_y: max_int(s.from_y as int, s.to_y as int) as i64,
    }
}

/// The union of the rectangles of the first `n` segments (`n >= 1`).
pub open spec fn bounds_upto(segs: Seq<LineSegmentFixed>, n: nat) -> RectF
    decreases n,
{
    if n <= 1 {
        segment_rect(segs[0])
    } else {
        bounds_upto(segs, (n - 1) as nat).union_spec(segment_rect(segs[n - 1]))
    }
}

/// The bounds of a path's segments: the union of their rectangles, or the
/// empty rectangle at the origin when there are none.
pub open spec fn segments_bounds_spec(segs: Seq<LineSegmentFixed>) -> RectF {
    if segs.len() == 0 {
        RectF { min_x: 0, min_y: 0, max_x: 0, max_y: 0 }
    } else {
        bounds_upto(segs, segs.len())
    }
}

/// The smallest rectangle holding every end point; the empty rectangle at
/// the origin when there are no segments.
pub fn segment_bounds(segments: &Vec<LineSegmentFixed>) -> (r: RectF)
    requires
        forall|i: int| 0 <= i < segments@.len() ==> segment_packable(#[trigger] segments@[i]),
    ensures
        r.wf(),
        rect_packable(r),
        forall|i: int| 0 <= i < segments@.len() ==> rect_holds_segment(r, #[trigger] segments@[i]),
        r == segments_bounds_spec(segments@),
{
    if segments.len() == 0 {
        return RectF { min_x: 0, min_y: 0, max_x: 0, max_y: 0 };
    }
    let first = segments[0];
    assert(segment_packable(segments@[0]));
    let mut r = RectF {
        min_x: if first.from_x <= first.to_x { first.from_x } else { first.to_x },
        min_y: if first.from_y <= first.to_y { first.from_y } else { first.to_y },
        max_x: if first.from_x >= first.to_x { first.from_x } else { first.to_x },
        max_y: if first.from_y >= first.to_y { first.from_y } else { first.to_y },
    };
    let mut i: usize = 1;
    while i < segments.len()
        invariant
            1 <= i <= segments@.len(),
            forall|k: int| 0 <= k < segments@.len() ==> segment_packable(#[trigger] segments@[k]),
            r.wf(),
            rect_packable(r),
            forall|k: int| 0 <= k < i ==> rect_holds_segment(r, #[trigger] segments@[k]),
            r == bounds_upto(segments@, i as nat),
        decreases segments@.len() - i,
    {
        let s = segments[i];
        assert(segment_packable(segments@[i as int]));
        if s.from_x < r.min_x { r.min_x = s.from_x; }
        if s.to_x < r.min_x { r.min_x = s.to_x; }
        if s.from_y < r.min_y { r.min_y = s.from_y; }
        if s.to_y < r.min_y { r.min_y = s.to_y; }
        if s.from_x > r.max_x { r.max_x = s.from_x; }
        if s.to_x > r.max_x { r.max_x = s.to_x; }
        if s.from_y > r.max_y { r.max_y = s.from_y; }
        if s.to_y > r.max_y { r.max_y = s.to_y; }
        i = i + 1;
    }
    r
}

/// The fills of the first `n` segments, one after another.
pub open spec fn segments_fills_upto(rect: RectI, st: FillState, segs: Seq<LineSegmentFixed>, n: nat) -> FillState
    decreases n,
{
    if n == 0 {
        st
    } else {
        segment_fills_spec(rect, segments_fills_upto(rect, st, segs, (n - 1) as nat), segs[n - 1])
    }
}

/// The active fills and backdrops of rows `row .. row_end`, each row from
/// the sorted crossings of its top line.
pub open spec fn rows_from(rect: RectI, st: FillState, segs: Seq<LineSegmentFixed>, row: int, row_end: int) -> FillState
    decreases row_end - row,
{
    if row >= row_end {
        st
    } else {
        let cs = sorted_crossings(crossings_upto(segs, row * 4096, segs.len()));
        rows_from(rect, process_row_spec(rect, st, cs, row as i32), segs, row + 1, row_end)
    }
}

/// The tiling of a path's segments over the tiles of `rect`, starting from
/// blank tiles and the alpha-tile counter at `next`: the fills of every
/// segment, then the active fills and backdrops of every row.
pub open spec fn tiling_spec(rect: RectI, segs: Seq<LineSegmentFixed>, next: u16) -> FillState {
    let st0 = FillState { fills: Seq::empty(), tiles: blank_tiles(rect), next };
    rows_from(rect, segments_fills_upto(rect, st0, segs, segs.len()), segs, rect.origin_y as int,
        rect.origin_y + rect.height)
}

/// Tiles one path: fills for its segments, active fills and backdrops from
/// the crossings of each row's top line, then its solid tiles go to the
/// Z-buffer (when opaque) and the rest become alpha tiles.
pub fn generate_tiles(
    segments: &Vec<LineSegmentFixed>,
    bounds: RectF,
    z_buffer: &mut ZBuffer,
    next_alpha_tile_index: &mut u16,
    object_index: u16,
    paint_id: u16,
    object_is_opaque: bool,
) -> (r: BuiltObject)
    requires
        bounds.wf(),
        rect_packable(bounds),
        segments@.len() < 0x4000_0000,
        forall|i: int| 0 <= i < segments@.len() ==> #[trigger] segments@[i].wf(),
        old(z_buffer).wf(),
    ensures
        r.wf(),
        r.bounds == bounds,
        r.tiles.rect == bounds.tile_bounds_spec(),
        r.fills@ == tiling_spec(r.tiles.rect, segments@, *old(next_alpha_tile_index)).fills,
        r.tiles.data@ == tiling_spec(r.tiles.rect, segments@, *old(next_alpha_tile_index)).tiles,
        *final(next_alpha_tile_index) == tiling_spec(r.tiles.rect, segments@, *old(next_alpha_tile_index)).next,
        final(z_buffer).buffer.data@ == z_after_tiles(
            old(z_buffer).buffer.rect,
            old(z_buffer).buffer.data@,
            r.tiles.rect,
            r.tiles.data@,
            object_index,
            object_is_opaque,
            r.tiles.data@.len(),
        ),
        final(z_buffer).wf(),
        final(z_buffer).buffer.rect == old(z_buffer).buffer.rect,
        final(z_buffer).buffer.data@.len() == old(z_buffer).buffer.data@.len(),
        forall|k: int|
            0 <= k < old(z_buffer).buffer.data@.len() ==> final(z_buffer).buffer.data@[k] == old(z_buffer).buffer.data@[k]
                || final(z_buffer).buffer.data@[k] == object_index + 1,
        forall|k: int|
            0 <= k < old(z_buffer).buffer.data@.len() ==> final(z_buffer).buffer.data@[k] >= old(z_buffer).buffer.data@[k],
        forall|k: int|
            0 <= k < r.alpha_tiles@.len() ==> (#[trigger] r.alpha_tiles@[k]).object_index == object_index
                && r.alpha_tiles@[k].paint_id == paint_id,
        r.alpha_tiles@ == alpha_tiles_upto(
            r.tiles.rect,
            r.tiles.data@,
            object_index,
            paint_id,
            object_is_opaque,
            r.tiles.data@.len(),
        ),
        forall|i: int|
            0 <= i < r.tiles.data@.len() && goes_to_z_buffer(#[trigger] r.tiles.data@[i], object_is_opaque)
                && final(z_buffer).buffer.rect.contains(r.tiles.rect.coords_at(i))
                ==> final(z_buffer).depth(r.tiles.rect.coords_at(i)) >= object_index + 1,
{
    proof {
        assert(bounds.tile_bounds_spec().area() <= 0x100_0000) by (nonlinear_arith)
            requires
                0 <= bounds.tile_bounds_spec().width <= 0x1000,
                0 <= bounds.tile_bounds_spec().height <= 0x1000;
    }
    let mut built = BuiltObject::new(bounds);
    let ghost rect0 = bounds.tile_bounds_spec();
    let ghost st0 = FillState { fills: Seq::empty(), tiles: blank_tiles(rect0), next: *next_alpha_tile_index };
    assert(built.fills@ =~= st0.fills);
    assert(state_of(built, *next_alpha_tile_index) == st0);
    let mut i: usize = 0;
    while i < segments.len()
        invariant
            built.wf(),
            built.bounds == bounds,
            built.alpha_tiles@.len() == 0,
            built.tiles.rect == bounds.tile_bounds_spec(),
            tile_rect_in_limit(built.tiles.rect),
            forall|k: int| 0 <= k < segments@.len() ==> #[trigger] segments@[k].wf(),
            i <= segments@.len(),
            rect0 == bounds.tile_bounds_spec(),
            state_of(built, *next_alpha_tile_index) == segments_fills_upto(rect0, st0, segments@, i as nat),
        decreases segments@.len() - i,
    {
        assert(segments@[i as int].wf());
        generate_segment_fills(&mut built, next_alpha_tile_index, segments[i]);
        i = i + 1;
    }
    let rect = built.tile_rect();
    let mut row: i64 = rect.origin_y as i64;
    let row_end = rect.origin_y as i64 + rect.height as i64;
    while row < row_end
        invariant
            built.wf(),
            built.bounds == bounds,
            built.alpha_tiles@.len() == 0,
            built.tiles.rect == rect,
            rect == bounds.tile_bounds_spec(),
            tile_rect_in_limit(rect),
            row_end == rect.origin_y + rect.height,
            rect.origin_y <= row,
            segments@.len() < 0x4000_0000,
            forall|k: int| 0 <= k < segments@.len() ==> #[trigger] segments@[k].wf(),
            tiling_spec(rect, segments@, st0.next) == rows_from(
                rect, state_of(built, *next_alpha_tile_index), segments@, row as int, row_end as int),
        decreases row_end - row,
    {
        let crossings = row_crossings(segments, row * TILE_FIXED);
        let sorted = sort_crossings(&crossings);
        process_row(&mut built, next_alpha_tile_index, &sorted, row as i32);
        row = row + 1;
    }
    proof {
        assert forall|c: Vector2I| built.tiles.rect.contains(c) implies packable(c) by {
            assert(0 <= bounds.min_x as int / 4096) by (nonlinear_arith)
                requires 0 <= bounds.min_x;
            assert(0 <= bounds.min_y as int / 4096) by (nonlinear_arith)
                requires 0 <= bounds.min_y;
            assert(-((-bounds.max_x as int) / 4096) <= 4096) by (nonlinear_arith)
                requires bounds.max_x <= 0x100_0000;
            assert(-((-bounds.max_y as int) / 4096) <= 4096) by (nonlinear_arith)
                requires bounds.max_y <= 0x100_0000;
        }
    }
    pack_and_cull(&mut built, z_buffer, object_index, paint_id, object_is_opaque);
    proof {
        assert(built.alpha_tiles@ =~= alpha_tiles_upto(
            built.tiles.rect,
            built.tiles.data@,
            object_index,
            paint_id,
            object_is_opaque,
            built.tiles.data@.len(),
        ));
    }
    built
}

} // verus!
