//! Builds the command stream of one frame: start, paint data, fills,
//! culled alpha tiles and solid tiles.

use crate::built_object::AlphaTileBatchPrimitive;
use crate::fill::FillBatchPrimitive;
use crate::geometry::{LineSegmentFixed, RectF};
use crate::scene::{is_paint_data, Scene};
use crate::tiles::{generate_tiles, segment_bounds, segment_packable, segments_bounds_spec, tiling_spec};
use crate::built_object::FillState;
use crate::geometry::RectI;
use crate::z_buffer::{alpha_tile_x, alpha_tile_y, alpha_tiles_upto, goes_to_z_buffer, is_culled, lemma_z_after_tiles, z_after_tiles};
use crate::tile_map::lemma_index_of_bounds;
use crate::geometry::Vector2I;
use crate::z_buffer::{cull_alpha_tiles, culled_tile, fits_i16, solid_tiles_upto, SolidTileBatchPrimitive, ZBuffer};
use vstd::prelude::*;

verus! {

/// One message to the consumer of the tiler's output.
#[derive(Debug, PartialEq, Eq)]
pub enum RenderCommand {
    /// Opens a build. `bounding_quad` is the four corners of the scene's
    /// projected bounds in clip space, each as x, y, z, w, given as the bit
    /// patterns of 32-bit floats; all zero for a 2D build.
    Start { bounding_quad: BoundingQuad, path_count: usize },
    AddPaintData(Vec<u8>),
    AddFills(Vec<FillBatchPrimitive>),
    FlushFills,
    SolidTile(Vec<SolidTileBatchPrimitive>),
    AlphaTile(Vec<AlphaTileBatchPrimitive>),
    Finish { build_time_nanos: u64 },
}

/// Four clip-space corners, each four 32-bit float bit patterns.
pub type BoundingQuad = [[u32; 4]; 4];

/// Receives the commands of a build, in order.
pub trait RenderCommandListener {
    /// Every command received so far.
    spec fn sent(&self) -> Seq<RenderCommand>;

    fn send(&mut self, command: RenderCommand)
        ensures
            final(self).sent() == old(self).sent().push(command),
    ;
}

/// A listener that keeps every command it receives.
pub struct CommandLog {
    pub commands: Vec<RenderCommand>,
}

impl CommandLog {
    pub fn new() -> (r: CommandLog)
        ensures
            r.commands@.len() == 0,
    {
        CommandLog { commands: Vec::new() }
    }
}

impl RenderCommandListener for CommandLog {
    open spec fn sent(&self) -> Seq<RenderCommand> {
        self.commands@
    }

    fn send(&mut self, command: RenderCommand) {
        self.commands.push(command);
    }
}

/// Counts of the tiles of a build.
#[derive(Clone, Copy, Debug, Default)]
pub struct TileStats {
    pub solid_tile_count: u32,
    pub alpha_tile_count: u32,
}

/// A copy of a vector of plain values.
pub fn copy_vec<T: Copy>(v: &Vec<T>) -> (r: Vec<T>)
    ensures
        r@ == v@,
{
    let mut out: Vec<T> = Vec::new();
    let mut i: usize = 0;
    while i < v.len()
        invariant
            i <= v@.len(),
            out@ == v@.subrange(0, i as int),
        decreases v@.len() - i,
    {
        out.push(v[i]);
        i = i + 1;
        proof {
            assert(out@ =~= v@.subrange(0, i as int));
        }
    }
    proof {
        assert(out@ =~= v@);
    }
    out
}

/// The tiles of a finished build, which can be sent again for later frames.
pub struct SceneTiles {
    pub alpha: Vec<AlphaTileBatchPrimitive>,
    pub solid: Vec<SolidTileBatchPrimitive>,
}

/// Whether a command is a solid-tile batch holding `s`.
pub open spec fn is_solid_batch(c: RenderCommand, s: Seq<SolidTileBatchPrimitive>) -> bool {
    match c {
        RenderCommand::SolidTile(v) => v@ == s,
        _ => false,
    }
}

pub open spec fn is_alpha_batch(c: RenderCommand, s: Seq<AlphaTileBatchPrimitive>) -> bool {
    match c {
        RenderCommand::AlphaTile(v) => v@ == s,
        _ => false,
    }
}

/// `after` is `before` followed by the tile batches of `t`: solid tiles,
/// then alpha tiles, each only when non-empty.
pub open spec fn sends_tiles(before: Seq<RenderCommand>, after: Seq<RenderCommand>, alpha: Seq<AlphaTileBatchPrimitive>, solid: Seq<SolidTileBatchPrimitive>) -> bool {
    let ns: int = if solid.len() > 0 { 1 } else { 0 };
    let na: int = if alpha.len() > 0 { 1 } else { 0 };
    &&& after.len() == before.len() + ns + na
    &&& after.subrange(0, before.len() as int) == before
    &&& solid.len() > 0 ==> is_solid_batch(after[before.len() as int], solid)
    &&& alpha.len() > 0 ==> is_alpha_batch(after[before.len() + ns], alpha)
}

impl SceneTiles {
    /// Keeps the culled alpha tiles and synthesises the solid tiles from
    /// the Z-buffer, one per covered cell with its path's paint.
    pub fn new(alpha_tiles: Vec<AlphaTileBatchPrimitive>, z_buffer: &ZBuffer, paint_ids: &Vec<u16>) -> (r: SceneTiles)
        requires
            z_buffer.wf(),
            fits_i16(z_buffer.buffer.rect),
            forall|i: int| 0 <= i < z_buffer.buffer.data@.len() ==> z_buffer.buffer.data@[i] <= paint_ids@.len(),
        ensures
            r.alpha@ == alpha_tiles@,
            r.solid@ == solid_tiles_upto(z_buffer.buffer.rect, z_buffer.buffer.data@, paint_ids@, z_buffer.buffer.data@.len()),
    {
        SceneTiles { alpha: alpha_tiles, solid: z_buffer.build_solid_tiles(paint_ids) }
    }

    /// Sends the solid tiles, then the alpha tiles, skipping empty batches.
    pub fn send<L: RenderCommandListener>(&self, listener: &mut L)
        ensures
            sends_tiles(old(listener).sent(), final(listener).sent(), self.alpha@, self.solid@),
    {
        let ghost before = listener.sent();
        if self.solid.len() > 0 {
            listener.send(RenderCommand::SolidTile(copy_vec(&self.solid)));
        }
        let ghost mid = listener.sent();
        if self.alpha.len() > 0 {
            listener.send(RenderCommand::AlphaTile(copy_vec(&self.alpha)));
        }
        proof {
            assert(listener.sent().subrange(0, before.len() as int) =~= before);
        }
    }
}

/// The shared state of one build: the alpha-tile counter and the Z-buffer.
pub struct SceneBuilder {
    pub next_alpha_tile_index: u16,
    pub z_buffer: ZBuffer,
}

impl SceneBuilder {
    /// A builder whose Z-buffer covers the effective view box.
    pub fn new(effective_view_box: RectF) -> (r: SceneBuilder)
        requires
            effective_view_box.wf(),
            effective_view_box.tile_bounds_spec().area() <= usize::MAX,
        ensures
            r.next_alpha_tile_index == 0,
            r.z_buffer.wf(),
            r.z_buffer.buffer.rect == effective_view_box.tile_bounds_spec(),
            forall|i: int| 0 <= i < r.z_buffer.buffer.data@.len() ==> r.z_buffer.buffer.data@[i] == 0,
    {
        SceneBuilder { next_alpha_tile_index: 0, z_buffer: ZBuffer::new(effective_view_box) }
    }

    /// Opens the stream: `Start` with the number of paths, then the paint data.
    pub fn send_start<L: RenderCommandListener>(&self, scene: &Scene, bounding_quad: BoundingQuad, listener: &mut L)
        ensures
            final(listener).sent().len() == old(listener).sent().len() + 2,
            final(listener).sent().subrange(0, old(listener).sent().len() as int) == old(listener).sent(),
            final(listener).sent()[old(listener).sent().len() as int] == (RenderCommand::Start {
                bounding_quad,
                path_count: scene.paths@.len() as usize,
            }),
            final(listener).sent()[old(listener).sent().len() as int + 1] matches RenderCommand::AddPaintData(d)
                && is_paint_data(d@, scene.paints@),
    {
        let ghost before = listener.sent();
        listener.send(RenderCommand::Start { bounding_quad, path_count: scene.paths.len() });
        let data = scene.build_paint_data();
        listener.send(RenderCommand::AddPaintData(data));
        proof {
            assert(listener.sent().subrange(0, before.len() as int) =~= before);
        }
    }

    /// Closes the fill phase: sends `FlushFills`, masks the alpha tiles that
    /// a later opaque path hides, and gathers the solid tiles.
    pub fn finish_building<L: RenderCommandListener>(
        &self,
        listener: &mut L,
        alpha_tiles: Vec<AlphaTileBatchPrimitive>,
        paint_ids: &Vec<u16>,
    ) -> (r: SceneTiles)
        requires
            self.z_buffer.wf(),
            fits_i16(self.z_buffer.buffer.rect),
            forall|i: int|
                0 <= i < self.z_buffer.buffer.data@.len() ==> self.z_buffer.buffer.data@[i] <= paint_ids@.len(),
        ensures
            final(listener).sent() == old(listener).sent().push(RenderCommand::FlushFills),
            r.alpha@.len() == alpha_tiles@.len(),
            forall|k: int| 0 <= k < alpha_tiles@.len() ==> r.alpha@[k] == culled_tile(self.z_buffer, alpha_tiles@[k]),
            r.solid@ == solid_tiles_upto(
                self.z_buffer.buffer.rect,
                self.z_buffer.buffer.data@,
                paint_ids@,
                self.z_buffer.buffer.data@.len(),
            ),
    {
        listener.send(RenderCommand::FlushFills);
        let mut alpha_tiles = alpha_tiles;
        cull_alpha_tiles(&self.z_buffer, &mut alpha_tiles);
        SceneTiles::new(alpha_tiles, &self.z_buffer, paint_ids)
    }
}

/// The paint id of each path, in path order.
pub open spec fn path_paint_ids(scene: &Scene) -> Seq<u16> {
    Seq::new(scene.paths@.len(), |i: int| scene.paths@[i].paint.0)
}

/// Prepared segments that the tiler accepts: few enough for the winding
/// counter, and inside the range that alpha tiles can name.
pub open spec fn outline_ok(segments: Seq<LineSegmentFixed>) -> bool {
    &&& segments.len() < 0x4000_0000
    &&& forall|k: int| 0 <= k < segments.len() ==> segment_packable(#[trigger] segments[k])
}

/// The inputs of a build: one prepared outline per path.
pub open spec fn build_inputs_ok(scene: &Scene, outlines: Seq<Vec<LineSegmentFixed>>) -> bool {
    &&& scene.wf()
    &&& outlines.len() == scene.paths@.len()
    &&& scene.paths@.len() <= 0x10000
    &&& forall|i: int| 0 <= i < outlines.len() ==> outline_ok((#[trigger] outlines[i])@)
}

/// The tiles that a path's prepared segments are tiled over.
pub open spec fn path_rect(segs: Seq<LineSegmentFixed>) -> RectI {
    segments_bounds_spec(segs).tile_bounds_spec()
}

/// The tiling of a path with the alpha-tile counter at `next`.
pub open spec fn path_tiling(segs: Seq<LineSegmentFixed>, next: u16) -> FillState {
    tiling_spec(path_rect(segs), segs, next)
}

pub open spec fn path_paint(scene: &Scene, k: int) -> u16 {
    scene.paths@[k].paint.0
}

pub open spec fn path_opaque(scene: &Scene, k: int) -> bool {
    scene.paints@[path_paint(scene, k) as int].is_opaque_spec()
}

/// The alpha tiles of path `k`.
pub open spec fn path_alpha(scene: &Scene, segs: Seq<LineSegmentFixed>, k: int, next: u16) -> Seq<AlphaTileBatchPrimitive> {
    let t = path_tiling(segs, next);
    alpha_tiles_upto(path_rect(segs), t.tiles, k as u16, path_paint(scene, k), path_opaque(scene, k), t.tiles.len())
}

/// The Z-buffer cells after path `k`.
pub open spec fn path_cells(scene: &Scene, zrect: RectI, cells: Seq<u32>, segs: Seq<LineSegmentFixed>, k: int, next: u16) -> Seq<u32> {
    let t = path_tiling(segs, next);
    z_after_tiles(zrect, cells, path_rect(segs), t.tiles, k as u16, path_opaque(scene, k), t.tiles.len())
}

/// A build after some paths: the counter, the Z-buffer cells, the alpha
/// tiles so far (before culling) and each path's fills.
pub struct BuildState {
    pub next: u16,
    pub cells: Seq<u32>,
    pub alpha: Seq<AlphaTileBatchPrimitive>,
    pub fills: Seq<Seq<FillBatchPrimitive>>,
}

/// The build after the first `n` paths, in path order.
pub open spec fn build_upto(scene: &Scene, outlines: Seq<Vec<LineSegmentFixed>>, zrect: RectI, bs: BuildState, n: nat) -> BuildState
    decreases n,
{
    if n == 0 {
        bs
    } else {
        let prev = build_upto(scene, outlines, zrect, bs, (n - 1) as nat);
        let k = n - 1;
        let segs = outlines[k]@;
        BuildState {
            next: path_tiling(segs, prev.next).next,
            cells: path_cells(scene, zrect, prev.cells, segs, k, prev.next),
            alpha: prev.alpha + path_alpha(scene, segs, k, prev.next),
            fills: prev.fills.push(path_tiling(segs, prev.next).fills),
        }
    }
}

/// Whether a command is a fill batch holding `f`.
pub open spec fn is_fills_batch(c: RenderCommand, f: Seq<FillBatchPrimitive>) -> bool {
    match c {
        RenderCommand::AddFills(v) => v@ == f,
        _ => false,
    }
}

/// From position `base` on, `sent` holds one fill batch per entry of `fills`.
pub open spec fn fills_sent(sent: Seq<RenderCommand>, base: int, fills: Seq<Seq<FillBatchPrimitive>>) -> bool {
    forall|k: int| 0 <= k < fills.len() ==> is_fills_batch(#[trigger] sent[base + k], fills[k])
}

/// The state a build starts from.
pub open spec fn build_start(next: u16, cells: Seq<u32>) -> BuildState {
    BuildState { next, cells, alpha: Seq::empty(), fills: Seq::empty() }
}

/// Later paths only raise the Z-buffer cells.
pub proof fn lemma_build_cells_grow(
    scene: &Scene,
    outlines: Seq<Vec<LineSegmentFixed>>,
    zrect: RectI,
    bs: BuildState,
    m: nat,
    n: nat,
)
    requires
        zrect.wf(),
        bs.cells.len() == zrect.area(),
        m <= n,
    ensures
        build_upto(scene, outlines, zrect, bs, n).cells.len() == zrect.area(),
        forall|k: int| 0 <= k < zrect.area() ==>
            #[trigger] build_upto(scene, outlines, zrect, bs, n).cells[k] >= build_upto(scene, outlines, zrect, bs, m).cells[k],
    decreases n,
{
    if n > 0 {
        if m < n {
            lemma_build_cells_grow(scene, outlines, zrect, bs, m, (n - 1) as nat);
        } else {
            lemma_build_cells_grow(scene, outlines, zrect, bs, (n - 1) as nat, (n - 1) as nat);
        }
        let prev = build_upto(scene, outlines, zrect, bs, (n - 1) as nat);
        let segs = outlines[n - 1]@;
        let t = path_tiling(segs, prev.next);
        lemma_z_after_tiles(zrect, prev.cells, path_rect(segs), t.tiles, (n - 1) as u16,
            path_opaque(scene, n - 1), t.tiles.len());
    }
}

/// When path `j` is opaque and covers a tile whole (the tile goes to the
/// Z-buffer), every alpha tile of an earlier path at that tile is masked in
/// the build's result, whatever paths come after `j`.
pub proof fn lemma_later_opaque_path_masks(
    scene: &Scene,
    outlines: Seq<Vec<LineSegmentFixed>>,
    bs: BuildState,
    n: nat,
    j: nat,
    t: int,
    z: ZBuffer,
    a: AlphaTileBatchPrimitive,
)
    requires
        z.wf(),
        bs.cells.len() == z.buffer.rect.area(),
        j < n,
        j <= 0xffff,
        z.buffer.data@ == build_upto(scene, outlines, z.buffer.rect, bs, n).cells,
        ({
            let prev = build_upto(scene, outlines, z.buffer.rect, bs, j);
            let segs = outlines[j as int]@;
            let tiles = path_tiling(segs, prev.next).tiles;
            let c = path_rect(segs).coords_at(t);
            &&& 0 <= t < tiles.len()
            &&& goes_to_z_buffer(tiles[t], path_opaque(scene, j as int))
            &&& z.buffer.rect.contains(c)
            &&& alpha_tile_x(a) == c.x
            &&& alpha_tile_y(a) == c.y
        }),
        a.object_index < j,
    ensures
        is_culled(culled_tile(z, a)),
{
    let zrect = z.buffer.rect;
    let prev = build_upto(scene, outlines, zrect, bs, j);
    let segs = outlines[j as int]@;
    let tiles = path_tiling(segs, prev.next).tiles;
    let c = path_rect(segs).coords_at(t);
    lemma_build_cells_grow(scene, outlines, zrect, bs, j, j);
    lemma_z_after_tiles(zrect, prev.cells, path_rect(segs), tiles, j as u16, path_opaque(scene, j as int), tiles.len());
    lemma_build_cells_grow(scene, outlines, zrect, bs, j + 1, n);
    lemma_index_of_bounds(zrect, c);
    assert(build_upto(scene, outlines, zrect, bs, j + 1).cells[zrect.index_of(c)] >= j + 1);
    assert(Vector2I { x: alpha_tile_x(a) as i32, y: alpha_tile_y(a) as i32 } == c);
}

impl SceneBuilder {
    /// Tiles path `path_index` from its prepared segments over their bounds,
    /// streams its fills as one `AddFills`, and returns its alpha tiles.
    pub fn build_path<L: RenderCommandListener>(
        &mut self,
        path_index: usize,
        scene: &Scene,
        segments: &Vec<LineSegmentFixed>,
        listener: &mut L,
    ) -> (r: Vec<AlphaTileBatchPrimitive>)
        requires
            scene.wf(),
            path_index < scene.paths@.len(),
            path_index <= 0xffff,
            outline_ok(segments@),
            old(self).z_buffer.wf(),
        ensures
            final(self).z_buffer.wf(),
            final(self).z_buffer.buffer.rect == old(self).z_buffer.buffer.rect,
            final(self).z_buffer.buffer.data@.len() == old(self).z_buffer.buffer.data@.len(),
            forall|k: int|
                0 <= k < old(self).z_buffer.buffer.data@.len() ==> final(self).z_buffer.buffer.data@[k]
                    == old(self).z_buffer.buffer.data@[k] || final(self).z_buffer.buffer.data@[k] == path_index + 1,
            forall|k: int|
                0 <= k < old(self).z_buffer.buffer.data@.len() ==> final(self).z_buffer.buffer.data@[k]
                    >= old(self).z_buffer.buffer.data@[k],
            forall|k: int|
                0 <= k < r@.len() ==> (#[trigger] r@[k]).object_index == path_index
                    && r@[k].paint_id == scene.paths@[path_index as int].paint.0,
            final(listener).sent().len() == old(listener).sent().len() + 1,
            final(listener).sent().drop_last() == old(listener).sent(),
            final(listener).sent().last() matches RenderCommand::AddFills(f)
                && f@ == path_tiling(segments@, old(self).next_alpha_tile_index).fills,
            final(self).next_alpha_tile_index == path_tiling(segments@, old(self).next_alpha_tile_index).next,
            r@ == path_alpha(scene, segments@, path_index as int, old(self).next_alpha_tile_index),
            final(self).z_buffer.buffer.data@ == path_cells(
                scene,
                old(self).z_buffer.buffer.rect,
                old(self).z_buffer.buffer.data@,
                segments@,
                path_index as int,
                old(self).next_alpha_tile_index,
            ),
    {
        let path_object = &scene.paths[path_index];
        let paint_id = path_object.paint();
        proof {
            scene.lemma_wf();
        }
        let object_is_opaque = scene.paints[paint_id.0 as usize].is_opaque();
        let bounds = segment_bounds(segments);
        assert forall|k: int| 0 <= k < segments@.len() implies #[trigger] segments@[k].wf() by {
            assert(segment_packable(segments@[k]));
        }
        let built_object = generate_tiles(
            segments,
            bounds,
            &mut self.z_buffer,
            &mut self.next_alpha_tile_index,
            path_index as u16,
            paint_id.0,
            object_is_opaque,
        );
        let ghost before = listener.sent();
        listener.send(RenderCommand::AddFills(built_object.fills));
        proof {
            assert(listener.sent().drop_last() =~= before);
        }
        built_object.alpha_tiles
    }

    /// Runs a whole build: `Start` and the paint data, then each path in
    /// order with its `AddFills`, then `FlushFills`; returns the alpha tiles
    /// masked against the Z-buffer and the solid tiles it holds.
    pub fn build<L: RenderCommandListener>(
        &mut self,
        scene: &Scene,
        outlines: &Vec<Vec<LineSegmentFixed>>,
        bounding_quad: BoundingQuad,
        listener: &mut L,
    ) -> (r: SceneTiles)
        requires
            build_inputs_ok(scene, outlines@),
            old(self).z_buffer.wf(),
            fits_i16(old(self).z_buffer.buffer.rect),
            forall|k: int| 0 <= k < old(self).z_buffer.buffer.data@.len() ==> old(self).z_buffer.buffer.data@[k] == 0,
        ensures
            final(self).z_buffer.wf(),
            final(listener).sent().len() == old(listener).sent().len() + scene.paths@.len() + 3,
            final(listener).sent().subrange(0, old(listener).sent().len() as int) == old(listener).sent(),
            final(listener).sent()[old(listener).sent().len() as int] == (RenderCommand::Start {
                bounding_quad,
                path_count: scene.paths@.len() as usize,
            }),
            final(listener).sent()[old(listener).sent().len() as int + 1] matches RenderCommand::AddPaintData(d)
                && is_paint_data(d@, scene.paints@),
            forall|k: int|
                old(listener).sent().len() + 2 <= k < final(listener).sent().len() - 1
                    ==> #[trigger] final(listener).sent()[k] is AddFills,
            final(listener).sent().last() is FlushFills,
            r.solid@ == solid_tiles_upto(
                final(self).z_buffer.buffer.rect,
                final(self).z_buffer.buffer.data@,
                path_paint_ids(scene),
                final(self).z_buffer.buffer.data@.len(),
            ),
            forall|k: int| 0 <= k < r.alpha@.len() ==> (#[trigger] r.alpha@[k]).object_index < scene.paths@.len(),
            ({
                let b = build_upto(scene, outlines@, old(self).z_buffer.buffer.rect,
                    build_start(old(self).next_alpha_tile_index, old(self).z_buffer.buffer.data@),
                    scene.paths@.len());
                &&& final(self).z_buffer.buffer.rect == old(self).z_buffer.buffer.rect
                &&& final(self).z_buffer.buffer.data@ == b.cells
                &&& final(self).next_alpha_tile_index == b.next
                &&& b.fills.len() == scene.paths@.len()
                &&& fills_sent(final(listener).sent(), old(listener).sent().len() as int + 2, b.fills)
                &&& r.alpha@.len() == b.alpha.len()
                &&& forall|k: int| 0 <= k < b.alpha.len() ==> r.alpha@[k] == culled_tile(final(self).z_buffer, #[trigger] b.alpha[k])
            }),
    {
        let ghost start = listener.sent();
        let ghost zrect0 = self.z_buffer.buffer.rect;
        let ghost bs0 = build_start(self.next_alpha_tile_index, self.z_buffer.buffer.data@);
        self.send_start(scene, bounding_quad, listener);
        let path_count = scene.paths.len();
        let mut alpha_tiles: Vec<AlphaTileBatchPrimitive> = Vec::new();
        let mut paint_ids: Vec<u16> = Vec::new();
        let mut i: usize = 0;
        while i < path_count
            invariant
                build_inputs_ok(scene, outlines@),
                path_count == scene.paths@.len(),
                i <= path_count,
                self.z_buffer.wf(),
                fits_i16(self.z_buffer.buffer.rect),
                self.z_buffer.buffer.rect == old(self).z_buffer.buffer.rect,
                forall|k: int| 0 <= k < self.z_buffer.buffer.data@.len() ==> self.z_buffer.buffer.data@[k] <= i,
                paint_ids@ == path_paint_ids(scene).subrange(0, i as int),
                forall|k: int| 0 <= k < alpha_tiles@.len() ==> (#[trigger] alpha_tiles@[k]).object_index < i,
                listener.sent().len() == start.len() + 2 + i,
                listener.sent().subrange(0, start.len() as int) == start,
                listener.sent()[start.len() as int] == (RenderCommand::Start {
                    bounding_quad,
                    path_count: scene.paths@.len() as usize,
                }),
                listener.sent()[start.len() as int + 1] matches RenderCommand::AddPaintData(d)
                    && is_paint_data(d@, scene.paints@),
                forall|k: int| start.len() + 2 <= k < listener.sent().len() ==> #[trigger] listener.sent()[k] is AddFills,
                zrect0 == old(self).z_buffer.buffer.rect,
                self.z_buffer.buffer.data@ == build_upto(scene, outlines@, zrect0, bs0, i as nat).cells,
                self.next_alpha_tile_index == build_upto(scene, outlines@, zrect0, bs0, i as nat).next,
                alpha_tiles@ == build_upto(scene, outlines@, zrect0, bs0, i as nat).alpha,
                build_upto(scene, outlines@, zrect0, bs0, i as nat).fills.len() == i,
                fills_sent(listener.sent(), start.len() as int + 2, build_upto(scene, outlines@, zrect0, bs0, i as nat).fills),
            decreases path_count - i,
        {
            assert(outline_ok(outlines@[i as int]@));
            let ghost before = listener.sent();
            let ghost cells = self.z_buffer.buffer.data@;
            let ghost prev = build_upto(scene, outlines@, zrect0, bs0, i as nat);
            let path_alpha = self.build_path(i, scene, &outlines[i], listener);
            proof {
                assert forall|k: int| 0 <= k < self.z_buffer.buffer.data@.len() implies self.z_buffer.buffer.data@[k] <= i + 1 by {
                    assert(cells[k] <= i);
                }
                assert(listener.sent().subrange(0, start.len() as int) =~= before.subrange(0, start.len() as int));
                assert(listener.sent()[start.len() as int] == before[start.len() as int]);
                assert(listener.sent()[start.len() as int + 1] == before[start.len() as int + 1]);
                assert forall|k: int| start.len() + 2 <= k < listener.sent().len() implies #[trigger] listener.sent()[k] is AddFills by {
                    if k < before.len() {
                        assert(listener.sent()[k] == before[k]);
                    }
                }
            }
            let mut j: usize = 0;
            let ghost alpha_before = alpha_tiles@;
            while j < path_alpha.len()
                invariant
                    j <= path_alpha@.len(),
                    alpha_tiles@.len() == alpha_before.len() + j,
                    forall|k: int| 0 <= k < alpha_before.len() ==> alpha_tiles@[k] == alpha_before[k],
                    forall|k: int| 0 <= k < alpha_before.len() ==> (#[trigger] alpha_before[k]).object_index < i,
                    forall|k: int| 0 <= k < path_alpha@.len() ==> (#[trigger] path_alpha@[k]).object_index == i,
                    forall|k: int| 0 <= k < alpha_tiles@.len() ==> (#[trigger] alpha_tiles@[k]).object_index < i + 1,
                    alpha_tiles@ == alpha_before + path_alpha@.subrange(0, j as int),
                decreases path_alpha@.len() - j,
            {
                alpha_tiles.push(path_alpha[j]);
                j = j + 1;
                proof {
                    assert(alpha_tiles@ =~= alpha_before + path_alpha@.subrange(0, j as int));
                }
            }
            proof {
                assert(path_alpha@.subrange(0, path_alpha@.len() as int) =~= path_alpha@);
                let cur = build_upto(scene, outlines@, zrect0, bs0, (i + 1) as nat);
                assert(cur.alpha =~= alpha_tiles@);
                assert forall|k: int| 0 <= k < cur.fills.len() implies is_fills_batch(
                    #[trigger] listener.sent()[start.len() + 2 + k], cur.fills[k]) by {
                    if k < i {
                        assert(listener.sent()[start.len() + 2 + k] == before[start.len() + 2 + k]);
                        assert(cur.fills[k] == prev.fills[k]);
                    } else {
                        assert(listener.sent()[start.len() + 2 + k] == listener.sent().last());
                    }
                }
            }
            paint_ids.push(scene.paths[i].paint.0);
            proof {
                assert(paint_ids@ =~= path_paint_ids(scene).subrange(0, i + 1));
            }
            i = i + 1;
        }
        proof {
            assert(paint_ids@ =~= path_paint_ids(scene));
        }
        let ghost before_flush = listener.sent();
        let tiles = self.finish_building(listener, alpha_tiles, &paint_ids);
        proof {
            assert(listener.sent().subrange(0, start.len() as int) =~= before_flush.subrange(0, start.len() as int));
            assert(listener.sent()[start.len() as int] == before_flush[start.len() as int]);
            assert(listener.sent()[start.len() as int + 1] == before_flush[start.len() as int + 1]);
            assert forall|k: int| start.len() + 2 <= k < listener.sent().len() - 1 implies #[trigger] listener.sent()[k] is AddFills by {
                assert(listener.sent()[k] == before_flush[k]);
            }
            let b = build_upto(scene, outlines@, zrect0, bs0, path_count as nat);
            assert forall|k: int| 0 <= k < b.fills.len() implies is_fills_batch(
                #[trigger] listener.sent()[start.len() + 2 + k], b.fills[k]) by {
                assert(listener.sent()[start.len() + 2 + k] == before_flush[start.len() + 2 + k]);
            }
        }
        tiles
    }
}

/// A frame that reuses cached tiles: the same batches again, then `Finish`
/// with a build time of zero.
pub fn resend_cached<L: RenderCommandListener>(tiles: &SceneTiles, listener: &mut L)
    ensures
        sends_tiles(old(listener).sent(), final(listener).sent().drop_last(), tiles.alpha@, tiles.solid@),
        final(listener).sent().len() > 0,
        final(listener).sent().last() == (RenderCommand::Finish { build_time_nanos: 0 }),
{
    send_frame(tiles, 0, listener);
}

/// Ends a frame: sends the tile batches, then `Finish` with the build time.
pub fn send_frame<L: RenderCommandListener>(tiles: &SceneTiles, build_time_nanos: u64, listener: &mut L)
    ensures
        sends_tiles(
            old(listener).sent(),
            final(listener).sent().drop_last(),
            tiles.alpha@,
            tiles.solid@,
        ),
        final(listener).sent().len() > 0,
        final(listener).sent().last() == (RenderCommand::Finish { build_time_nanos }),
{
    tiles.send(listener);
    let ghost mid = listener.sent();
    listener.send(RenderCommand::Finish { build_time_nanos });
    proof {
        assert(listener.sent().drop_last() =~= mid);
    }
}

} // verus!
