//! A set of paths to be rendered, with their deduplicated paints.

use crate::geometry::RectF;
use vstd::prelude::*;

verus! {

/// An 8-bit-per-channel color.
#[derive(Clone, Copy, Debug, PartialEq, Eq, Structural, Hash)]
pub struct ColorU {
    pub r: u8,
    pub g: u8,
    pub b: u8,
    pub a: u8,
}

/// The surface appearance of a path.
#[derive(Clone, Copy, Debug, PartialEq, Eq, Structural, Hash)]
pub struct Paint {
    pub color: ColorU,
}

impl Paint {
    pub open spec fn is_opaque_spec(self) -> bool {
        self.color.a == 255
    }

    pub fn is_opaque(&self) -> (r: bool)
        ensures
            r == self.is_opaque_spec(),
    {
        self.color.a == 255
    }
}

/// The position of a paint in the scene's paint table.
#[derive(Clone, Copy, Debug, PartialEq, Eq, Structural, Hash)]
pub struct PaintId(pub u16);

/// The key under which a paint is deduplicated: its four channels.
pub open spec fn paint_key(p: Paint) -> (u8, u8, u8, u8) {
    (p.color.r, p.color.g, p.color.b, p.color.a)
}

fn paint_key_exec(p: &Paint) -> (r: (u8, u8, u8, u8))
    ensures
        r == paint_key(*p),
{
    (p.color.r, p.color.g, p.color.b, p.color.a)
}

/// The paint lookup table, kept in a hashbrown map.
#[verifier::external_body]
pub struct PaintCache {
    map: hashbrown::HashMap<(u8, u8, u8, u8), u16>,
}

/// What the paint lookup table maps.
pub uninterp spec fn paint_cache_contents(c: PaintCache) -> Map<(u8, u8, u8, u8), u16>;

/// Relies on hashbrown::HashMap::new: a new map is empty.
#[verifier::external_body]
fn paint_cache_new() -> (r: PaintCache)
    ensures
        forall|k: (u8, u8, u8, u8)| !paint_cache_contents(r).contains_key(k),
{
    PaintCache { map: hashbrown::HashMap::new() }
}

/// Relies on hashbrown::HashMap::get: the value stored under the key, if any.
#[verifier::external_body]
fn paint_cache_get(c: &PaintCache, key: &(u8, u8, u8, u8)) -> (r: Option<u16>)
    ensures
        r == (if paint_cache_contents(*c).contains_key(*key) {
            Some(paint_cache_contents(*c)[*key])
        } else {
            None
        }),
{
    c.map.get(key).copied()
}

/// Relies on hashbrown::HashMap::insert: afterwards the key maps to the value
/// and every other entry is kept.
#[verifier::external_body]
fn paint_cache_insert(c: &mut PaintCache, key: (u8, u8, u8, u8), value: u16)
    ensures
        paint_cache_contents(*final(c)) == paint_cache_contents(*old(c)).insert(key, value),
{
    c.map.insert(key, value);
}

/// No paint appears twice.
pub open spec fn paints_distinct(paints: Seq<Paint>) -> bool {
    forall|i: int, j: int| 0 <= i < j < paints.len() ==> paints[i] != paints[j]
}

/// `d` is the paint table as bytes: four per paint, red, green, blue, alpha.
pub open spec fn is_paint_data(d: Seq<u8>, paints: Seq<Paint>) -> bool {
    &&& d.len() == 4 * paints.len()
    &&& forall|i: int| 0 <= i < paints.len() ==> {
        &&& #[trigger] d[4 * i] == paints[i].color.r
        &&& d[4 * i + 1] == paints[i].color.g
        &&& d[4 * i + 2] == paints[i].color.b
        &&& d[4 * i + 3] == paints[i].color.a
    }
}

/// The effect of pushing `p` onto the table `before`: an equal paint keeps
/// its id and the table; a new one is appended and gets the next id.
pub open spec fn pushes_paint(before: Seq<Paint>, p: Paint, after: Seq<Paint>, id: u16) -> bool {
    if before.contains(p) {
        &&& after == before
        &&& (id as int) < before.len()
        &&& before[id as int] == p
    } else {
        &&& after == before.push(p)
        &&& id as int == before.len()
    }
}

/// The lookup table maps exactly the keys of the paints to their positions.
pub open spec fn cache_in_sync(m: Map<(u8, u8, u8, u8), u16>, paints: Seq<Paint>) -> bool {
    &&& forall|k: (u8, u8, u8, u8)| #[trigger] m.contains_key(k) ==> (m[k] as int) < paints.len() && paint_key(paints[m[k] as int]) == k
    &&& forall|i: int| 0 <= i < paints.len() ==> #[trigger] m.contains_key(paint_key(paints[i])) && m[paint_key(paints[i])] == i
}

/// The union of `b` (if any) and `r`.
pub open spec fn extend_bounds(b: Option<RectF>, r: RectF) -> RectF {
    match b {
        Some(u) => u.union_spec(r),
        None => r,
    }
}

/// The union of a sequence of rectangles, `None` when there are none.
pub open spec fn union_all(rs: Seq<RectF>) -> Option<RectF>
    decreases rs.len(),
{
    if rs.len() == 0 {
        None
    } else {
        Some(extend_bounds(union_all(rs.drop_last()), rs.last()))
    }
}

/// A filled path: the fixed-point bounds of its outline, its paint, its name.
#[derive(Debug)]
pub struct PathObject {
    pub bounds: RectF,
    pub paint: PaintId,
    pub name: String,
}

impl PathObject {
    pub fn new(bounds: RectF, paint: PaintId, name: String) -> (r: PathObject)
        ensures
            r.bounds == bounds,
            r.paint == paint,
            r.name@ == name@,
    {
        PathObject { bounds, paint, name }
    }

    pub fn paint(&self) -> (r: PaintId)
        ensures
            r == self.paint,
    {
        self.paint
    }
}

/// Options of one build.
#[derive(Clone, Copy, Debug, PartialEq, Eq, Structural)]
pub struct BuildOptions {
    pub dilation_x: i64,
    pub dilation_y: i64,
    pub subpixel_aa_enabled: bool,
}

/// The paths and paints of a scene, with its bounds and view box.
pub struct Scene {
    pub paths: Vec<PathObject>,
    pub paints: Vec<Paint>,
    pub paint_cache: PaintCache,
    pub bounds: Option<RectF>,
    pub view_box: RectF,
}

impl Scene {
    /// The lookup table agrees with the paints, no paint appears twice, and
    /// every path names a paint of the table.
    pub open spec fn wf(&self) -> bool {
        &&& cache_in_sync(paint_cache_contents(self.paint_cache), self.paints@)
        &&& paints_distinct(self.paints@)
        &&& self.paints@.len() <= 0xffff
        &&& forall|i: int| 0 <= i < self.paths@.len() ==> (self.paths@[i].paint.0 as int) < self.paints@.len()
    }

    /// The union of the bounds of the pushed paths, unless set since.
    pub open spec fn bounds_spec(&self) -> Option<RectF> {
        self.bounds
    }

    pub open spec fn view_box_spec(&self) -> RectF {
        self.view_box
    }

    pub proof fn lemma_wf(&self)
        requires
            self.wf(),
        ensures
            paints_distinct(self.paints@),
            self.paints@.len() <= 0xffff,
            forall|i: int| 0 <= i < self.paths@.len() ==> (self.paths@[i].paint.0 as int) < self.paints@.len(),
    {
    }

    pub fn new() -> (r: Scene)
        ensures
            r.wf(),
            r.paths@.len() == 0,
            r.paints@.len() == 0,
            r.bounds_spec().is_none(),
            r.view_box_spec() == (RectF { min_x: 0, min_y: 0, max_x: 0, max_y: 0 }),
    {
        Scene {
            paths: Vec::new(),
            paints: Vec::new(),
            paint_cache: paint_cache_new(),
            bounds: None,
            view_box: RectF { min_x: 0, min_y: 0, max_x: 0, max_y: 0 },
        }
    }

    /// Appends a path and widens the bounds to hold its outline.
    pub fn push_path(&mut self, path: PathObject)
        requires
            old(self).wf(),
            (path.paint.0 as int) < old(self).paints@.len(),
        ensures
            final(self).wf(),
            final(self).paths@ == old(self).paths@.push(path),
            final(self).paints@ == old(self).paints@,
            final(self).bounds_spec() == Some(extend_bounds(old(self).bounds_spec(), path.bounds)),
            final(self).view_box_spec() == old(self).view_box_spec(),
    {
        let b = match self.bounds {
            Some(u) => u.union_rect(&path.bounds),
            None => path.bounds,
        };
        self.bounds = Some(b);
        self.paths.push(path);
    }

    /// Returns the id of an equal paint already in the table, or appends
    /// the paint and returns its new id.
    pub fn push_paint(&mut self, paint: &Paint) -> (r: PaintId)
        requires
            old(self).wf(),
            old(self).paints@.len() < 0xffff || old(self).paints@.contains(*paint),
        ensures
            final(self).wf(),
            pushes_paint(old(self).paints@, *paint, final(self).paints@, r.0),
            final(self).paths@ == old(self).paths@,
            final(self).bounds_spec() == old(self).bounds_spec(),
            final(self).view_box_spec() == old(self).view_box_spec(),
    {
        let key = paint_key_exec(paint);
        let ghost m = paint_cache_contents(self.paint_cache);
        if let Some(id) = paint_cache_get(&self.paint_cache, &key) {
            proof {
                assert(self.paints@[id as int] == *paint);
                assert(self.paints@.contains(*paint));
            }
            return PaintId(id);
        }
        proof {
            if self.paints@.contains(*paint) {
                let i = choose|i: int| 0 <= i < self.paints@.len() && self.paints@[i] == *paint;
                assert(m.contains_key(paint_key(self.paints@[i])));
            }
        }
        let id = self.paints.len() as u16;
        paint_cache_insert(&mut self.paint_cache, key, id);
        self.paints.push(*paint);
        proof {
            let m2 = paint_cache_contents(self.paint_cache);
            let ps = self.paints@;
            assert forall|k: (u8, u8, u8, u8)| #[trigger] m2.contains_key(k) implies (m2[k] as int) < ps.len() && paint_key(ps[m2[k] as int]) == k by {
                if k != key {
                    assert(m.contains_key(k));
                }
            }
            assert forall|i: int| 0 <= i < ps.len() implies #[trigger] m2.contains_key(paint_key(ps[i])) && m2[paint_key(ps[i])] == i by {
                if i < ps.len() - 1 {
                    assert(m.contains_key(paint_key(ps[i])));
                    if paint_key(ps[i]) == key {
                        assert(ps[i] == *paint);
                        assert(old(self).paints@.contains(*paint));
                    }
                }
            }
        }
        PaintId(id)
    }

    pub fn path_count(&self) -> (r: usize)
        ensures
            r == self.paths@.len(),
    {
        self.paths.len()
    }

    /// The union of the pushed paths' bounds (or the bounds last set); the
    /// empty rectangle at the origin when there are none.
    pub fn bounds(&self) -> (r: RectF)
        ensures
            r == (match self.bounds_spec() {
                Some(b) => b,
                None => RectF { min_x: 0, min_y: 0, max_x: 0, max_y: 0 },
            }),
    {
        match self.bounds {
            Some(b) => b,
            None => RectF { min_x: 0, min_y: 0, max_x: 0, max_y: 0 },
        }
    }

    pub fn set_bounds(&mut self, new_bounds: RectF)
        requires
            old(self).wf(),
        ensures
            final(self).wf(),
            final(self).bounds_spec() == Some(new_bounds),
            final(self).paths@ == old(self).paths@,
            final(self).paints@ == old(self).paints@,
            final(self).view_box_spec() == old(self).view_box_spec(),
    {
        self.bounds = Some(new_bounds);
    }

    pub fn view_box(&self) -> (r: RectF)
        ensures
            r == self.view_box_spec(),
    {
        self.view_box
    }

    pub fn set_view_box(&mut self, new_view_box: RectF)
        requires
            old(self).wf(),
        ensures
            final(self).wf(),
            final(self).view_box_spec() == new_view_box,
            final(self).paths@ == old(self).paths@,
            final(self).paints@ == old(self).paints@,
            final(self).bounds_spec() == old(self).bounds_spec(),
    {
        self.view_box = new_view_box;
    }

    /// The view box that the build renders into: scaled by (3, 1) when
    /// subpixel antialiasing triples the horizontal resolution.
    pub fn effective_view_box(&self, options: &BuildOptions) -> (r: RectF)
        requires
            self.view_box_spec().wf(),
        ensures
            r == (if options.subpixel_aa_enabled {
                self.view_box_spec().scale_x3_spec()
            } else {
                self.view_box_spec()
            }),
    {
        if options.subpixel_aa_enabled {
            self.view_box.scale_x3()
        } else {
            self.view_box
        }
    }

    /// The color shared by every path, if there are paths and they all use
    /// one paint.
    pub fn monochrome_color(&self) -> (r: Option<ColorU>)
        requires
            self.wf(),
        ensures
            r == (if self.paths@.len() > 0 && (forall|i: int|
                0 <= i < self.paths@.len() ==> #[trigger] self.paths@[i].paint == self.paths@[0].paint) {
                Some(self.paints@[self.paths@[0].paint.0 as int].color)
            } else {
                None::<ColorU>
            }),
    {
        if self.paths.len() == 0 {
            return None;
        }
        let first_paint_id = self.paths[0].paint;
        let mut i: usize = 1;
        while i < self.paths.len()
            invariant
                1 <= i <= self.paths@.len(),
                first_paint_id == self.paths@[0].paint,
                forall|k: int| 0 <= k < i ==> #[trigger] self.paths@[k].paint == first_paint_id,
            decreases self.paths@.len() - i,
        {
            if self.paths[i].paint != first_paint_id {
                return None;
            }
            i = i + 1;
        }
        Some(self.paints[first_paint_id.0 as usize].color)
    }

    /// The paint table as bytes: four per paint, red, green, blue, alpha.
    pub fn build_paint_data(&self) -> (r: Vec<u8>)
        ensures
            is_paint_data(r@, self.paints@),
    {
        let mut data: Vec<u8> = Vec::new();
        let mut i: usize = 0;
        while i < self.paints.len()
            invariant
                i <= self.paints@.len(),
                data@.len() == 4 * i,
                forall|k: int| 0 <= k < i ==> {
                    &&& #[trigger] data@[4 * k] == self.paints@[k].color.r
                    &&& data@[4 * k + 1] == self.paints@[k].color.g
                    &&& data@[4 * k + 2] == self.paints@[k].color.b
                    &&& data@[4 * k + 3] == self.paints@[k].color.a
                },
            decreases self.paints@.len() - i,
        {
            let c = self.paints[i].color;
            let ghost before = data@;
            data.push(c.r);
            data.push(c.g);
            data.push(c.b);
            data.push(c.a);
            proof {
                assert forall|k: int| 0 <= k < i + 1 implies {
                    &&& #[trigger] data@[4 * k] == self.paints@[k].color.r
                    &&& data@[4 * k + 1] == self.paints@[k].color.g
                    &&& data@[4 * k + 2] == self.paints@[k].color.b
                    &&& data@[4 * k + 3] == self.paints@[k].color.a
                } by {
                    if k < i {
                        assert(data@[4 * k] == before[4 * k]);
                        assert(data@[4 * k + 1] == before[4 * k + 1]);
                        assert(data@[4 * k + 2] == before[4 * k + 2]);
                        assert(data@[4 * k + 3] == before[4 * k + 3]);
                    }
                }
            }
            i = i + 1;
        }
        data
    }
}

/// Walks the paths of a scene in order.
pub struct PathIter<'a> {
    pub scene: &'a Scene,
    pub pos: usize,
}

impl<'a> PathIter<'a> {
    /// The paint, the bounds and the name of the next path, if any.
    pub fn next(&mut self) -> (r: Option<(Paint, RectF, String)>)
        requires
            old(self).scene.wf(),
        ensures
            final(self).scene == old(self).scene,
            (old(self).pos as int) < old(self).scene.paths@.len() ==> {
                let p = old(self).scene.paths@[old(self).pos as int];
                &&& r matches Some(t) && t.0 == old(self).scene.paints@[p.paint.0 as int] && t.1 == p.bounds
                    && t.2@ == p.name@
                &&& final(self).pos == old(self).pos + 1
            },
            (old(self).pos as int) >= old(self).scene.paths@.len() ==> r is None && final(self).pos == old(self).pos,
    {
        if self.pos >= self.scene.paths.len() {
            return None;
        }
        let path = &self.scene.paths[self.pos];
        proof {
            self.scene.lemma_wf();
        }
        let paint = self.scene.paints[path.paint.0 as usize];
        let name = path.name.clone();
        self.pos = self.pos + 1;
        Some((paint, path.bounds, name))
    }
}

impl Scene {
    pub fn paths<'a>(&'a self) -> (r: PathIter<'a>)
        ensures
            r.scene == self,
            r.pos == 0,
    {
        PathIter { scene: self, pos: 0 }
    }
}

/// Pushing a paint twice gives the same id both times and grows the paint
/// table at most once.
pub proof fn lemma_push_paint_dedup(
    table: Seq<Paint>,
    once: Seq<Paint>,
    twice: Seq<Paint>,
    p: Paint,
    id1: u16,
    id2: u16,
)
    requires
        paints_distinct(table),
        pushes_paint(table, p, once, id1),
        pushes_paint(once, p, twice, id2),
    ensures
        id1 == id2,
        twice == once,
        once.len() <= table.len() + 1,
        table.contains(p) ==> once == table,
        !table.contains(p) ==> once.len() == table.len() + 1,
{
    if table.contains(p) {
        assert(once.contains(p));
        let i = id1 as int;
        let j = id2 as int;
        if i != j {
            assert(table[i] == table[j]);
        }
    } else {
        assert(once[table.len() as int] == p);
        assert(once.contains(p));
        let j = id2 as int;
        if j != table.len() {
            assert(once[j] == p);
            assert(table[j] == p);
            assert(table.contains(p));
        }
    }
}

/// The bounds built up by pushing paths hold every path's bounds, and each
/// side lies on the corresponding side of some path: the rectangle union.
pub proof fn lemma_bounds_union(rs: Seq<RectF>)
    requires
        rs.len() > 0,
    ensures
        union_all(rs) is Some,
        forall|i: int| 0 <= i < rs.len() ==> union_all(rs).unwrap().contains_rect(rs[i]),
        exists|i: int| 0 <= i < rs.len() && union_all(rs).unwrap().min_x == rs[i].min_x,
        exists|i: int| 0 <= i < rs.len() && union_all(rs).unwrap().min_y == rs[i].min_y,
        exists|i: int| 0 <= i < rs.len() && union_all(rs).unwrap().max_x == rs[i].max_x,
        exists|i: int| 0 <= i < rs.len() && union_all(rs).unwrap().max_y == rs[i].max_y,
    decreases rs.len(),
{
    let init = rs.drop_last();
    let l = rs.len() - 1;
    if init.len() > 0 {
        lemma_bounds_union(init);
        let u = union_all(init).unwrap();
        assert forall|i: int| 0 <= i < rs.len() implies union_all(rs).unwrap().contains_rect(rs[i]) by {
            if i < l {
                assert(init[i] == rs[i]);
            }
        }
        let i0 = choose|i: int| 0 <= i < init.len() && u.min_x == init[i].min_x;
        let i1 = choose|i: int| 0 <= i < init.len() && u.min_y == init[i].min_y;
        let i2 = choose|i: int| 0 <= i < init.len() && u.max_x == init[i].max_x;
        let i3 = choose|i: int| 0 <= i < init.len() && u.max_y == init[i].max_y;
        assert(init[i0] == rs[i0] && init[i1] == rs[i1] && init[i2] == rs[i2] && init[i3] == rs[i3]);
    } else {
        assert(union_all(init) is None);
    }
}

/// Pushing paths one after another onto a scene without bounds (each push
/// extends the bounds by the path's bounds, as `push_path` ensures) leaves
/// the union of all their bounds.
pub proof fn lemma_pushed_bounds(bs: Seq<Option<RectF>>, rs: Seq<RectF>)
    requires
        bs.len() == rs.len() + 1,
        bs[0] is None,
        forall|k: int| 0 <= k < rs.len() ==> #[trigger] bs[k + 1] == Some(extend_bounds(bs[k], rs[k])),
    ensures
        bs.last() == union_all(rs),
    decreases rs.len(),
{
    if rs.len() > 0 {
        let bs0 = bs.drop_last();
        let rs0 = rs.drop_last();
        assert forall|k: int| 0 <= k < rs0.len() implies #[trigger] bs0[k + 1] == Some(extend_bounds(bs0[k], rs0[k])) by {
            assert(bs[k + 1] == Some(extend_bounds(bs[k], rs[k])));
        }
        lemma_pushed_bounds(bs0, rs0);
        assert(bs[rs.len() as int] == Some(extend_bounds(bs[rs.len() - 1], rs[rs.len() - 1])));
    }
}

} // verus!
