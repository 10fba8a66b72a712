use pathfinder_tiler::built_object::{AlphaTileBatchPrimitive, BuiltObject, UNALLOCATED};
use pathfinder_tiler::fill::pack_fill;
use pathfinder_tiler::geometry::{floor_div_exec, ceil_div_exec, LineSegmentFixed, RectF, RectI, Vector2I};
use pathfinder_tiler::manager::{scene_is_dirty, CachePolicy, TransformKind};
use pathfinder_tiler::scene::{BuildOptions, ColorU, Paint, PathObject, Scene};
use pathfinder_tiler::tile_map::DenseTileMap;
use pathfinder_tiler::z_buffer::{cull_alpha_tiles, ZBuffer};

fn paint(r: u8, g: u8, b: u8, a: u8) -> Paint {
    Paint { color: ColorU { r, g, b, a } }
}

#[test]
fn pack_fill_splits_whole_and_fractional_parts() {
    let f = pack_fill(0x123, 0x456, 0xabc, 0xfff, 9);
    assert_eq!(f.px.from, 0x1 | (0x4 << 4));
    assert_eq!(f.px.to, 0xa | (0xf << 4));
    assert_eq!((f.subpx.from_x, f.subpx.from_y, f.subpx.to_x, f.subpx.to_y), (0x23, 0x56, 0xbc, 0xff));
    assert_eq!(f.alpha_tile_index, 9);
    let x = (f.px.from as i64 % 16) * 256 + f.subpx.from_x as i64;
    let y = (f.px.from as i64 / 16) * 256 + f.subpx.from_y as i64;
    assert_eq!((x, y), (0x123, 0x456));
}

#[test]
fn floor_and_ceil_division() {
    assert_eq!(floor_div_exec(-1, 4096), -1);
    assert_eq!(floor_div_exec(4096, 4096), 1);
    assert_eq!(ceil_div_exec(4097, 4096), 2);
    assert_eq!(ceil_div_exec(-4097, 4096), -1);
    assert_eq!(ceil_div_exec(0, 4096), 0);
}

#[test]
fn tile_map_indexing_is_row_major() {
    let rect = RectI { origin_x: -1, origin_y: 2, width: 3, height: 2 };
    let map = DenseTileMap::from_value(rect, 0u8);
    assert_eq!(map.data.len(), 6);
    assert_eq!(map.coords_to_index(Vector2I::new(-1, 2)), Some(0));
    assert_eq!(map.coords_to_index(Vector2I::new(1, 3)), Some(5));
    assert_eq!(map.coords_to_index(Vector2I::new(2, 3)), None);
    assert_eq!(map.index_to_coords(4), Vector2I::new(0, 3));
}

#[test]
fn tile_bounds_round_outward() {
    let r = RectF::new(-1, 10, 4097, 4096).round_out_to_tile_bounds();
    assert_eq!(r, RectI { origin_x: -1, origin_y: 0, width: 3, height: 1 });
}

#[test]
fn fills_allocate_one_alpha_tile_per_tile() {
    let mut obj = BuiltObject::new(RectF::new(0, 0, 8192, 4096));
    let mut next: u16 = 0;
    obj.add_fill(&mut next, LineSegmentFixed::new(4096 + 10, 0, 4096 + 300, 4095), Vector2I::new(1, 0));
    obj.add_fill(&mut next, LineSegmentFixed::new(0, 0, 100, 100), Vector2I::new(0, 0));
    obj.add_fill(&mut next, LineSegmentFixed::new(4096 + 20, 0, 4096 + 40, 40), Vector2I::new(1, 0));
    assert_eq!(next, 2);
    assert_eq!(obj.fills.len(), 3);
    assert_eq!(obj.fills[0].alpha_tile_index, 0);
    assert_eq!(obj.fills[1].alpha_tile_index, 1);
    assert_eq!(obj.fills[2].alpha_tile_index, 0);
    assert_eq!(obj.fills[0].subpx.from_x, 10);
}

#[test]
fn degenerate_and_outside_fills_are_dropped() {
    let mut obj = BuiltObject::new(RectF::new(0, 0, 4096, 4096));
    let mut next: u16 = 0;
    obj.add_fill(&mut next, LineSegmentFixed::new(50, 0, 50, 4000), Vector2I::new(0, 0));
    obj.add_fill(&mut next, LineSegmentFixed::new(0, 0, 100, 100), Vector2I::new(3, 0));
    assert!(obj.fills.is_empty());
    assert_eq!(next, 0);
    assert_eq!(obj.tiles.data[0].alpha_tile_index, UNALLOCATED);
}

#[test]
fn fills_are_clamped_into_the_tile() {
    let mut obj = BuiltObject::new(RectF::new(0, 0, 4096, 4096));
    let mut next: u16 = 0;
    obj.add_fill(&mut next, LineSegmentFixed::new(-500, -500, 9000, 9000), Vector2I::new(0, 0));
    let f = obj.fills[0];
    assert_eq!((f.px.from, f.px.to), (0, 0xff));
    assert_eq!((f.subpx.from_x, f.subpx.to_x), (0, 0xff));
}

#[test]
fn allocation_saturates_below_the_sentinel() {
    let mut obj = BuiltObject::new(RectF::new(0, 0, 8192, 4096));
    let mut next: u16 = 0xfffe;
    let a = obj.get_or_allocate_alpha_tile_index(&mut next, Vector2I::new(0, 0));
    let b = obj.get_or_allocate_alpha_tile_index(&mut next, Vector2I::new(1, 0));
    assert_eq!((a, b, next), (0xfffe, 0xfffe, 0xfffe));
}

#[test]
fn active_fill_emits_one_record_per_unit_of_winding() {
    let mut obj = BuiltObject::new(RectF::new(0, 0, 4096, 4096));
    let mut next: u16 = 0;
    obj.add_active_fill(&mut next, 100, 900, -3, Vector2I::new(0, 0));
    assert_eq!(obj.fills.len(), 3);
    for f in &obj.fills {
        assert_eq!((f.subpx.from_x, f.px.from), (100, 0));
        assert_eq!((f.subpx.to_x, f.px.to), ((900 % 256) as u8, 3));
    }
    obj.add_active_fill(&mut next, 100, 900, 2, Vector2I::new(0, 0));
    assert_eq!(obj.fills.len(), 5);
    assert_eq!(obj.fills[4].subpx.from_x, (900 % 256) as u8);
    obj.add_active_fill(&mut next, 100, 900, 0, Vector2I::new(0, 0));
    assert_eq!(obj.fills.len(), 5);
    assert_eq!(next, 1);
}

#[test]
fn line_is_split_at_tile_columns() {
    let mut obj = BuiltObject::new(RectF::new(0, 0, 3 * 4096, 4096));
    let mut next: u16 = 0;
    obj.generate_fill_primitives_for_line(&mut next, LineSegmentFixed::new(2048, 0, 2 * 4096 + 2048, 4096), 0);
    assert_eq!(obj.fills.len(), 3);
    assert_eq!(next, 3);
    assert_eq!(obj.fills[0].subpx.from_x, 0);
    assert_eq!(obj.fills[0].px.from, 8);
    assert_eq!(obj.fills[0].px.to, 15 | (4 << 4));
    assert_eq!(obj.fills[1].alpha_tile_index, 1);
    assert_eq!(obj.fills[2].px.to, 8 | (15 << 4));
    obj.generate_fill_primitives_for_line(&mut next, LineSegmentFixed::new(500, 0, 500, 4000), 0);
    assert_eq!(obj.fills.len(), 3);
}

#[test]
fn z_buffer_keeps_the_highest_path() {
    let mut z = ZBuffer::new(RectF::new(0, 0, 8192, 4096));
    let c = Vector2I::new(1, 0);
    z.update(c, 4);
    z.update(c, 2);
    assert_eq!(z.buffer.data[1], 5);
    assert!(z.test(c, 2));
    assert!(!z.test(c, 4));
    assert!(!z.test(Vector2I::new(0, 0), 0));
    assert!(!z.test(Vector2I::new(9, 0), 0));
    let solid = z.build_solid_tiles(&vec![7, 7, 7, 7, 11]);
    assert_eq!(solid.len(), 1);
    assert_eq!((solid[0].tile_x, solid[0].tile_y, solid[0].paint_id), (1, 0, 11));
}

#[test]
fn alpha_tile_coordinates_pack_into_twelve_bits() {
    let a = AlphaTileBatchPrimitive::new(Vector2I::new(0x123, 0xabc), -2, 3, 4, 5);
    assert_eq!((a.tile_x_lo, a.tile_y_lo, a.tile_hi), (0x23, 0xbc, 0x01 | 0xa0));
    assert_eq!(a.tile_coords(), Vector2I::new(0x123, 0xabc));
}

#[test]
fn culling_masks_only_hidden_tiles() {
    let mut z = ZBuffer::new(RectF::new(0, 0, 8192, 4096));
    z.update(Vector2I::new(0, 0), 3);
    let mut tiles = vec![
        AlphaTileBatchPrimitive::new(Vector2I::new(0, 0), 0, 1, 0, 0),
        AlphaTileBatchPrimitive::new(Vector2I::new(0, 0), 0, 3, 0, 1),
        AlphaTileBatchPrimitive::new(Vector2I::new(1, 0), 0, 1, 0, 2),
    ];
    cull_alpha_tiles(&z, &mut tiles);
    assert_eq!((tiles[0].tile_x_lo, tiles[0].tile_y_lo, tiles[0].tile_hi), (0xff, 0xff, 0xff));
    assert_eq!(tiles[1].tile_x_lo, 0);
    assert_eq!(tiles[2].tile_x_lo, 1);
}

#[test]
fn equal_paints_share_one_id() {
    let mut scene = Scene::new();
    let a = scene.push_paint(&paint(1, 2, 3, 255));
    let b = scene.push_paint(&paint(4, 5, 6, 255));
    let c = scene.push_paint(&paint(1, 2, 3, 255));
    assert_eq!(a, c);
    assert_ne!(a, b);
    assert_eq!(scene.paints.len(), 2);
    assert_eq!(scene.build_paint_data(), vec![1, 2, 3, 255, 4, 5, 6, 255]);
}

#[test]
fn bounds_are_the_union_of_pushed_paths() {
    let mut scene = Scene::new();
    assert_eq!(scene.bounds(), RectF::new(0, 0, 0, 0));
    let id = scene.push_paint(&paint(0, 0, 0, 255));
    scene.push_path(PathObject::new(RectF::new(10, 20, 30, 40), id, String::from("a")));
    assert_eq!(scene.bounds(), RectF::new(10, 20, 30, 40));
    scene.push_path(PathObject::new(RectF::new(-5, 25, 15, 50), id, String::from("b")));
    assert_eq!(scene.bounds(), RectF::new(-5, 20, 30, 50));
    assert_eq!(scene.path_count(), 2);
}

#[test]
fn subpixel_aa_triples_the_view_box() {
    let mut scene = Scene::new();
    scene.set_view_box(RectF::new(0, 0, 4096, 8192));
    let on = BuildOptions { dilation_x: 0, dilation_y: 0, subpixel_aa_enabled: true };
    let off = BuildOptions { dilation_x: 0, dilation_y: 0, subpixel_aa_enabled: false };
    let wide = scene.effective_view_box(&on);
    assert_eq!(wide, RectF::new(0, 0, 3 * 4096, 8192));
    assert_eq!(scene.effective_view_box(&off), RectF::new(0, 0, 4096, 8192));
    assert_eq!(wide.round_out_to_tile_bounds().width, 3);
}

#[test]
fn monochrome_color_needs_one_shared_paint() {
    let mut scene = Scene::new();
    assert_eq!(scene.monochrome_color(), None);
    let red = scene.push_paint(&paint(255, 0, 0, 255));
    scene.push_path(PathObject::new(RectF::new(0, 0, 1, 1), red, String::from("a")));
    scene.push_path(PathObject::new(RectF::new(0, 0, 1, 1), red, String::from("b")));
    assert_eq!(scene.monochrome_color(), Some(ColorU { r: 255, g: 0, b: 0, a: 255 }));
    let blue = scene.push_paint(&paint(0, 0, 255, 255));
    scene.push_path(PathObject::new(RectF::new(0, 0, 1, 1), blue, String::from("c")));
    assert_eq!(scene.monochrome_color(), None);
}

#[test]
fn dirty_unless_cached_translation() {
    assert!(scene_is_dirty(CachePolicy::Never, TransformKind::Transform2D, Some(true)));
    assert!(scene_is_dirty(CachePolicy::OnTranslation, TransformKind::Perspective, Some(true)));
    assert!(scene_is_dirty(CachePolicy::OnTranslation, TransformKind::Transform2D, None));
    assert!(scene_is_dirty(CachePolicy::OnTranslation, TransformKind::Transform2D, Some(false)));
    assert!(!scene_is_dirty(CachePolicy::OnTranslation, TransformKind::Transform2D, Some(true)));
}

#[test]
fn path_iterator_walks_paths_in_order() {
    let mut scene = Scene::new();
    let red = scene.push_paint(&paint(255, 0, 0, 255));
    let blue = scene.push_paint(&paint(0, 0, 255, 255));
    scene.push_path(PathObject::new(RectF::new(0, 0, 1, 1), blue, String::from("first")));
    scene.push_path(PathObject::new(RectF::new(2, 2, 3, 3), red, String::from("second")));
    let mut it = scene.paths();
    let (first_paint, first_bounds, first_name) = it.next().unwrap();
    assert_eq!((first_paint, first_bounds, first_name.as_str()), (paint(0, 0, 255, 255), RectF::new(0, 0, 1, 1), "first"));
    let (second_paint, _, second_name) = it.next().unwrap();
    assert_eq!((second_paint, second_name.as_str()), (paint(255, 0, 0, 255), "second"));
    assert!(it.next().is_none());
}
