use pathfinder_tiler::builder::{send_frame, CommandLog, RenderCommand, SceneBuilder, SceneTiles};
use pathfinder_tiler::geometry::{LineSegmentFixed, RectF};
use pathfinder_tiler::manager::{scene_is_dirty, should_cache, CachePolicy, TransformKind};
use pathfinder_tiler::scene::{ColorU, Paint, PathObject, Scene};

const PX: i64 = 256;

fn paint(r: u8, g: u8, b: u8, a: u8) -> Paint {
    Paint { color: ColorU { r, g, b, a } }
}

fn rect_px(x0: i64, y0: i64, x1: i64, y1: i64) -> RectF {
    RectF::new(x0 * PX, y0 * PX, x1 * PX, y1 * PX)
}

fn seg_px(x0: i64, y0: i64, x1: i64, y1: i64) -> LineSegmentFixed {
    LineSegmentFixed::new(x0 * PX, y0 * PX, x1 * PX, y1 * PX)
}

fn square_px(x0: i64, y0: i64, x1: i64, y1: i64) -> Vec<LineSegmentFixed> {
    vec![
        seg_px(x0, y0, x1, y0),
        seg_px(x1, y0, x1, y1),
        seg_px(x1, y1, x0, y1),
        seg_px(x0, y1, x0, y0),
    ]
}

fn run(scene: &Scene, outlines: &Vec<Vec<LineSegmentFixed>>) -> (SceneTiles, CommandLog) {
    let mut log = CommandLog::new();
    let mut builder = SceneBuilder::new(scene.view_box());
    let tiles = builder.build(scene, outlines, [[0; 4]; 4], &mut log);
    (tiles, log)
}

fn fills_of(log: &CommandLog) -> Vec<pathfinder_tiler::fill::FillBatchPrimitive> {
    let mut out = Vec::new();
    for c in &log.commands {
        if let RenderCommand::AddFills(f) = c {
            out.extend(f.iter().copied());
        }
    }
    out
}

#[test]
fn empty_scene_stream() {
    let scene = Scene::new();
    let (tiles, mut log) = run(&scene, &vec![]);
    send_frame(&tiles, 7, &mut log);
    assert_eq!(log.commands.len(), 4);
    assert!(matches!(log.commands[0], RenderCommand::Start { path_count: 0, bounding_quad } if bounding_quad == [[0; 4]; 4]));
    assert!(matches!(&log.commands[1], RenderCommand::AddPaintData(d) if d.is_empty()));
    assert!(matches!(log.commands[2], RenderCommand::FlushFills));
    assert!(matches!(log.commands[3], RenderCommand::Finish { build_time_nanos: 7 }));
}

#[test]
fn opaque_unit_square_is_one_solid_tile() {
    let mut scene = Scene::new();
    scene.set_view_box(rect_px(0, 0, 16, 16));
    let red = scene.push_paint(&paint(255, 0, 0, 255));
    scene.push_path(PathObject::new(rect_px(0, 0, 16, 16), red, String::from("square")));
    let (tiles, log) = run(&scene, &vec![square_px(0, 0, 16, 16)]);
    assert_eq!(tiles.solid.len(), 1);
    assert_eq!((tiles.solid[0].tile_x, tiles.solid[0].tile_y, tiles.solid[0].paint_id), (0, 0, 0));
    assert!(fills_of(&log).is_empty());
    assert!(tiles.alpha.is_empty());
}

#[test]
fn opaque_triangle_is_one_alpha_tile() {
    let mut scene = Scene::new();
    scene.set_view_box(rect_px(0, 0, 16, 16));
    let red = scene.push_paint(&paint(255, 0, 0, 255));
    scene.push_path(PathObject::new(rect_px(0, 0, 16, 16), red, String::from("triangle")));
    let outline = vec![seg_px(0, 0, 16, 0), seg_px(16, 0, 0, 16), seg_px(0, 16, 0, 0)];
    let (tiles, log) = run(&scene, &vec![outline]);
    assert!(tiles.solid.is_empty());
    assert_eq!(tiles.alpha.len(), 1);
    let a = tiles.alpha[0];
    assert_eq!(a.tile_coords().x, 0);
    assert_eq!(a.tile_coords().y, 0);
    assert_eq!(a.alpha_tile_index, 0);
    let fills = fills_of(&log);
    // The top edge lies on the row's top line and is carried by the row's
    // crossings; the vertical edge has no width: only the diagonal is a fill.
    assert_eq!(fills.len(), 1);
    for f in &fills {
        assert_eq!(f.alpha_tile_index, 0);
    }
    // The diagonal edge runs from the tile's top right to its bottom left.
    let d = fills[0];
    assert_eq!((d.px.from, d.px.to), (15, 240));
    assert_eq!((d.subpx.from_x, d.subpx.from_y, d.subpx.to_x, d.subpx.to_y), (255, 0, 0, 255));
}

#[test]
fn later_opaque_rectangle_wins_the_solid_tile() {
    let mut scene = Scene::new();
    scene.set_view_box(rect_px(0, 0, 16, 16));
    let red = scene.push_paint(&paint(255, 0, 0, 255));
    let blue = scene.push_paint(&paint(0, 0, 255, 255));
    scene.push_path(PathObject::new(rect_px(0, 0, 16, 16), red, String::from("red")));
    scene.push_path(PathObject::new(rect_px(0, 0, 16, 16), blue, String::from("blue")));
    let (tiles, _log) = run(&scene, &vec![square_px(0, 0, 16, 16), square_px(0, 0, 16, 16)]);
    assert_eq!(tiles.solid.len(), 1);
    assert_eq!(tiles.solid[0].paint_id, blue.0);
    assert_eq!(blue.0, 1);
}

#[test]
fn hidden_alpha_tile_is_masked() {
    let mut scene = Scene::new();
    scene.set_view_box(rect_px(0, 0, 16, 16));
    let red = scene.push_paint(&paint(255, 0, 0, 255));
    let blue = scene.push_paint(&paint(0, 0, 255, 255));
    scene.push_path(PathObject::new(rect_px(0, 0, 16, 16), red, String::from("triangle")));
    scene.push_path(PathObject::new(rect_px(0, 0, 16, 16), blue, String::from("square")));
    let triangle = vec![seg_px(0, 0, 16, 0), seg_px(16, 0, 0, 16), seg_px(0, 16, 0, 0)];
    let (tiles, _log) = run(&scene, &vec![triangle, square_px(0, 0, 16, 16)]);
    assert_eq!(tiles.alpha.len(), 1);
    let a = tiles.alpha[0];
    assert_eq!((a.tile_x_lo, a.tile_y_lo, a.tile_hi), (0xff, 0xff, 0xff));
    assert_eq!(tiles.solid.len(), 1);
    assert_eq!(tiles.solid[0].paint_id, 1);
}

#[test]
fn translucent_square_stays_alpha() {
    let mut scene = Scene::new();
    scene.set_view_box(rect_px(0, 0, 16, 16));
    let glass = scene.push_paint(&paint(255, 0, 0, 128));
    scene.push_path(PathObject::new(rect_px(0, 0, 16, 16), glass, String::from("glass")));
    let (tiles, _log) = run(&scene, &vec![square_px(0, 0, 16, 16)]);
    assert!(tiles.solid.is_empty());
    assert_eq!(tiles.alpha.len(), 1);
    assert_eq!(tiles.alpha[0].backdrop, -1);
}

#[test]
fn path_clipped_away_gives_no_fills_or_tiles() {
    let mut scene = Scene::new();
    scene.set_view_box(rect_px(0, 0, 16, 16));
    let red = scene.push_paint(&paint(255, 0, 0, 255));
    scene.push_path(PathObject::new(rect_px(0, 0, 0, 0), red, String::from("behind")));
    let (tiles, mut log) = run(&scene, &vec![vec![]]);
    send_frame(&tiles, 0, &mut log);
    assert!(fills_of(&log).is_empty());
    assert!(tiles.solid.is_empty());
    assert!(tiles.alpha.is_empty());
    assert!(matches!(log.commands[0], RenderCommand::Start { path_count: 1, .. }));
    assert!(matches!(log.commands[log.commands.len() - 2], RenderCommand::FlushFills));
    assert!(matches!(log.commands[log.commands.len() - 1], RenderCommand::Finish { build_time_nanos: 0 }));
}

#[test]
fn two_builds_give_the_same_stream() {
    let mut scene = Scene::new();
    scene.set_view_box(rect_px(0, 0, 32, 32));
    let red = scene.push_paint(&paint(255, 0, 0, 255));
    scene.push_path(PathObject::new(rect_px(0, 0, 24, 24), red, String::from("tri")));
    let outline = vec![seg_px(0, 0, 24, 0), seg_px(24, 0, 0, 24), seg_px(0, 24, 0, 0)];
    let (t1, l1) = run(&scene, &vec![outline.clone()]);
    let (t2, l2) = run(&scene, &vec![outline]);
    assert_eq!(fills_of(&l1), fills_of(&l2));
    assert_eq!(t1.alpha, t2.alpha);
    assert_eq!(t1.solid, t2.solid);
    assert_eq!(l1.commands.len(), l2.commands.len());
}

#[test]
fn cached_tiles_are_resent_unchanged() {
    let mut scene = Scene::new();
    scene.set_view_box(rect_px(0, 0, 64, 16));
    let red = scene.push_paint(&paint(255, 0, 0, 255));
    scene.push_path(PathObject::new(rect_px(32, 0, 48, 16), red, String::from("moved")));
    assert!(scene_is_dirty(CachePolicy::OnTranslation, TransformKind::Transform2D, None));
    let (tiles, mut first) = run(&scene, &vec![square_px(32, 0, 48, 16)]);
    assert!(should_cache(CachePolicy::OnTranslation, TransformKind::Transform2D));
    send_frame(&tiles, 5, &mut first);
    // A second frame translated further keeps the linear part of the transform.
    assert!(!scene_is_dirty(CachePolicy::OnTranslation, TransformKind::Transform2D, Some(true)));
    let mut second = CommandLog::new();
    send_frame(&tiles, 0, &mut second);
    assert!(matches!(second.commands.last(), Some(RenderCommand::Finish { build_time_nanos: 0 })));
    let first_solid: Vec<_> = first.commands.iter().filter_map(|c| match c {
        RenderCommand::SolidTile(v) => Some(v.clone()),
        _ => None,
    }).collect();
    let second_solid: Vec<_> = second.commands.iter().filter_map(|c| match c {
        RenderCommand::SolidTile(v) => Some(v.clone()),
        _ => None,
    }).collect();
    assert_eq!(first_solid, second_solid);
    assert_eq!(second_solid.len(), 1);
    assert_eq!(second_solid[0][0].tile_x, 2);
}

#[test]
fn start_carries_the_bounding_quad() {
    let mut scene = Scene::new();
    scene.set_view_box(rect_px(0, 0, 16, 16));
    let quad = [
        [1.0f32.to_bits(), 2.0f32.to_bits(), 0.5f32.to_bits(), 1.0f32.to_bits()],
        [3.0f32.to_bits(), 2.0f32.to_bits(), 0.5f32.to_bits(), 1.0f32.to_bits()],
        [3.0f32.to_bits(), 4.0f32.to_bits(), 0.5f32.to_bits(), 1.0f32.to_bits()],
        [1.0f32.to_bits(), 4.0f32.to_bits(), 0.5f32.to_bits(), 1.0f32.to_bits()],
    ];
    let mut log = CommandLog::new();
    let mut builder = SceneBuilder::new(scene.view_box());
    builder.build(&scene, &vec![], quad, &mut log);
    assert_eq!(log.commands[0], RenderCommand::Start { bounding_quad: quad, path_count: 0 });
}
